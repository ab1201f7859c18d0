//! What goes to the two oracles and what is read out of their replies.
//!
//! The canonicalization oracle is asked with a fixed instruction followed by
//! the source text; its reply carries, somewhere in its text, the JSON
//! description of the file.  The embedding oracle replies with a list of
//! numbers.  Sending the requests is the caller's part.

use vstd::prelude::*;
use vstd::string::{StrSliceExecFns, StringExecFns};
use crate::json::{document_of, parse_document, Json};
use crate::text::{chars_of, find_first, find_last};

verus! {

/// The instruction that precedes every source text sent for canonicalization.
pub const BASE_PROMPT: &'static str = r#"You are a code canonicalizer, you will receive code snippets and you wil output the canonicalized version of the code. Return a json of object, function relationships
    Objects are classes, structs, interfaces, not imports. Morphisms are functions, methods, procedures. You will identify the objects and morphisms in the code and their relationships.
    Note only add to objects and functions that are explicitly defined in the code. Do not add any extra objects or functions.
    Add dependencies to objects and functions. Dependencies are other objects or functions that are used or called by the object or function, they don't
    have to be defined in the code snippet. Descriptions are medium length, but extremely informative, distinct and focused on the semantic and purpose-related details of the objects and morphisms.
    An example 
        import json
        import requests
        class Animal:
            def __init__(self, name):
                self.name = name

            def speak(self):
                raise NotImplementedError('Subclasses must implement this method.')
        class Dog(Animal):
            def speak(self):

                return f'{self.name} says Woof!'
            def fetch_inst(url):
                response = requests.get(url)
                if response.status_code == 200:
                    return response.json()
                else:
                    response.raise_for_status()

        # You will return 
        {
            'General Information': {
                'Total Objects': 2,
                'Total Morphisms': 3,
                'Language': 'Python',
                'Description': 'This code defines a base class Animal with an abstract method speak, and a subclass Dog that implements the speak method, the dog days woof. It also includes a function fetch_inst for fetching JSON data from a URL.'
            },
            'Objects':
            [
                {"name": "Animal", "type": "class", "morphisms": ["__init__", "speak"], "Dependencies": [], "description": "Base python class for animals with a speak method that must be implemented by subclasses."},
                {"name": "Dog", "type": "class", "morphisms": ["speak"], "Dependencies": ["Animal"], "description": "Dog class inheriting from Animal, implements the speak method to return a dog-specific sound."},
            ]
            
            'Morphisms':
            [
                {"name": "__init__", "type": "method", "Dependencies": ["self", "name"], "description": "Initializes the Animal class with a name attribute."},
                {"name": "speak", "type": "method", "Dependencies": ["self"], "description": "Abstract method in Animal class, must be overridden in subclasses to provide specific animal sounds."},
                {"name": "fetch_inst", "type": "function", "Dependencies": ["url"], "description": "Fetches JSON data from a given URL using HTTP GET request."}
            ]

        
        }
            Input :
            "#;

/// The request for the canonicalization of `input`: the instruction, then
/// the source text.
pub fn build_prompt(input: &str) -> (prompt: String)
    ensures
        prompt@ == BASE_PROMPT@ + input@,
{
    let mut prompt = String::from_str(BASE_PROMPT);
    prompt.append(input);
    prompt
}

/// Why nothing could be read out of a reply.
#[derive(Debug, Clone, Copy, PartialEq, Eq, Structural)]
pub enum ReplyError {
    /// The reply is not well-formed JSON.
    NotJson,
    /// The reply has no member `output`.
    NoMessage,
    /// The first content part of the first output has no text.
    NoText,
    /// The text holds no span from a `{` to a `}`.
    NoJson,
    /// The reply holds no list of numbers where the embedding should be.
    NoEmbedding,
}

impl ReplyError {
    /// The error in words.
    pub fn message(&self) -> (words: String)
        ensures
            words@ == match *self {
                ReplyError::NotJson => "Response is not valid JSON"@,
                ReplyError::NoMessage => "No message field in response"@,
                ReplyError::NoText => "No text in response"@,
                ReplyError::NoJson => "No JSON found in response"@,
                ReplyError::NoEmbedding => "No embedding found"@,
            },
    {
        match self {
            ReplyError::NotJson => String::from_str("Response is not valid JSON"),
            ReplyError::NoMessage => String::from_str("No message field in response"),
            ReplyError::NoText => String::from_str("No text in response"),
            ReplyError::NoJson => String::from_str("No JSON found in response"),
            ReplyError::NoEmbedding => String::from_str("No embedding found"),
        }
    }
}

/// The value at `output[0].content[0].text` of a reply, where the reply has
/// one.
pub open spec fn first_text(output: Json) -> Option<Json> {
    match output.item(0) {
        Some(message) => match message.member("content"@) {
            Some(content) => match content.item(0) {
                Some(part) => part.member("text"@),
                None => None,
            },
            None => None,
        },
        None => None,
    }
}

/// The text that a canonicalization reply carries.
pub open spec fn reply_text(reply: Json) -> Result<Seq<char>, ReplyError> {
    match reply.member("output"@) {
        None => Err(ReplyError::NoMessage),
        Some(output) => match first_text(output) {
            Some(Json::Text(text)) => Ok(text@),
            _ => Err(ReplyError::NoText),
        },
    }
}

/// The part of `text` from its first `{` to its last `}`, both included.
/// Where the last `}` stands directly before the first `{` the part is
/// empty; where it stands further before, or one of the two is missing,
/// there is none.
pub open spec fn json_span(text: Seq<char>) -> Result<Seq<char>, ReplyError> {
    match (text.index_of_first('{'), text.index_of_last('}')) {
        (Some(start), Some(end)) => if start <= end + 1 {
            Ok(text.subrange(start, end + 1))
        } else {
            Err(ReplyError::NoJson)
        },
        _ => Err(ReplyError::NoJson),
    }
}

/// The JSON description that a parsed canonicalization reply carries.
pub open spec fn reply_json(reply: Json) -> Result<Seq<char>, ReplyError> {
    match reply_text(reply) {
        Ok(text) => json_span(text),
        Err(error) => Err(error),
    }
}

/// The JSON description that the body of a canonicalization reply carries.
pub open spec fn canonical_json_of(body: Seq<char>) -> Result<Seq<char>, ReplyError> {
    match document_of(body) {
        Some(reply) => reply_json(reply),
        None => Err(ReplyError::NotJson),
    }
}

/// Cuts the span from the first `{` to the last `}` out of `text`.
pub fn cut_json_span(text: &str) -> (span: Result<String, ReplyError>)
    ensures
        match span {
            Ok(s) => json_span(text@) == Ok::<Seq<char>, ReplyError>(s@),
            Err(error) => json_span(text@) == Err::<Seq<char>, ReplyError>(error),
        },
{
    let chars = chars_of(text);
    proof {
        text@.index_of_first_ensures('{');
        text@.index_of_last_ensures('}');
    }
    match (find_first(&chars, '{'), find_last(&chars, '}')) {
        (Some(start), Some(end)) => {
            if start <= end + 1 {
                Ok(String::from_str(text.substring_char(start, end + 1)))
            } else {
                Err(ReplyError::NoJson)
            }
        },
        _ => Err(ReplyError::NoJson),
    }
}

/// Reads the JSON description out of a parsed canonicalization reply.
pub fn read_reply(reply: &Json) -> (json: Result<String, ReplyError>)
    ensures
        match json {
            Ok(s) => reply_json(*reply) == Ok::<Seq<char>, ReplyError>(s@),
            Err(error) => reply_json(*reply) == Err::<Seq<char>, ReplyError>(error),
        },
{
    let output = match reply.get("output") {
        Some(output) => output,
        None => {
            return Err(ReplyError::NoMessage);
        },
    };
    let text = match output.at(0) {
        Some(message) => match message.get("content") {
            Some(content) => match content.at(0) {
                Some(part) => match part.get("text") {
                    Some(value) => value.as_str(),
                    None => None,
                },
                None => None,
            },
            None => None,
        },
        None => None,
    };
    match text {
        Some(text) => cut_json_span(text),
        None => Err(ReplyError::NoText),
    }
}

/// Reads the JSON description of a file out of the body of the
/// canonicalization oracle's reply.
pub fn canonical_json(body: &str) -> (json: Result<String, ReplyError>)
    ensures
        match json {
            Ok(s) => canonical_json_of(body@) == Ok::<Seq<char>, ReplyError>(s@),
            Err(error) => canonical_json_of(body@) == Err::<Seq<char>, ReplyError>(error),
        },
{
    match parse_document(body) {
        Some(reply) => read_reply(&reply),
        None => Err(ReplyError::NotJson),
    }
}

/// The decimal texts of the numbers among `items`, in order; other items
/// are left out.
pub open spec fn number_items(items: Seq<Json>) -> Seq<Seq<char>>
    decreases items.len(),
{
    if items.len() == 0 {
        Seq::empty()
    } else {
        match items.last() {
            Json::Number(digits) => number_items(items.drop_last()).push(digits@),
            _ => number_items(items.drop_last()),
        }
    }
}

/// The value at `data[0].embedding` of a reply, where the reply has one.
pub open spec fn first_embedding(reply: Json) -> Option<Json> {
    match reply.member("data"@) {
        Some(data) => match data.item(0) {
            Some(entry) => entry.member("embedding"@),
            None => None,
        },
        None => None,
    }
}

/// The components of the embedding that a parsed reply carries, each as
/// its decimal text.
pub open spec fn reply_embedding(reply: Json) -> Result<Seq<Seq<char>>, ReplyError> {
    match first_embedding(reply) {
        Some(Json::Array(items)) => Ok(number_items(items@)),
        _ => Err(ReplyError::NoEmbedding),
    }
}

/// The components of the embedding that the body of a reply carries.
pub open spec fn embedding_numbers_of(body: Seq<char>) -> Result<Seq<Seq<char>>, ReplyError> {
    match document_of(body) {
        Some(reply) => reply_embedding(reply),
        None => Err(ReplyError::NotJson),
    }
}

/// Reads the components of an embedding out of a parsed reply.
pub fn read_embedding(reply: &Json) -> (numbers: Result<Vec<String>, ReplyError>)
    ensures
        match numbers {
            Ok(list) => reply_embedding(*reply) == Ok::<Seq<Seq<char>>, ReplyError>(
                crate::llm::texts(list@),
            ),
            Err(error) => reply_embedding(*reply) == Err::<Seq<Seq<char>>, ReplyError>(error),
        },
{
    let found = match reply.get("data") {
        Some(data) => match data.at(0) {
            Some(entry) => entry.get("embedding"),
            None => None,
        },
        None => None,
    };
    let items = match found {
        Some(value) => match value.as_array() {
            Some(items) => items,
            None => {
                return Err(ReplyError::NoEmbedding);
            },
        },
        None => {
            return Err(ReplyError::NoEmbedding);
        },
    };
    let mut list: Vec<String> = Vec::new();
    let mut at: usize = 0;
    assert(items@.take(0) =~= Seq::empty());
    assert(crate::llm::texts(list@) =~= Seq::empty());
    while at < items.len()
        invariant
            at <= items.len(),
            crate::llm::texts(list@) == number_items(items@.take(at as int)),
        decreases items.len() - at,
    {
        let ghost before = list@;
        assert(items@.take(at + 1).drop_last() =~= items@.take(at as int));
        match &items[at] {
            Json::Number(digits) => {
                list.push(digits.clone());
                assert(crate::llm::texts(list@) =~= crate::llm::texts(before).push(digits@));
            },
            _ => {},
        }
        at = at + 1;
    }
    assert(items@.take(at as int) =~= items@);
    Ok(list)
}

/// Reads the components of an embedding, each as its decimal text, out of
/// the body of the embedding oracle's reply.
pub fn embedding_numbers(body: &str) -> (numbers: Result<Vec<String>, ReplyError>)
    ensures
        match numbers {
            Ok(list) => embedding_numbers_of(body@) == Ok::<Seq<Seq<char>>, ReplyError>(
                crate::llm::texts(list@),
            ),
            Err(error) => embedding_numbers_of(body@) == Err::<Seq<Seq<char>>, ReplyError>(error),
        },
{
    match parse_document(body) {
        Some(reply) => read_embedding(&reply),
        None => Err(ReplyError::NotJson),
    }
}

} // verus!
