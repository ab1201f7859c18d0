//! JSON documents as a tree of the library's own, and the parser that
//! produces them.

use vstd::prelude::*;
use crate::text::same_text;

verus! {

/// A JSON value.  A number is held as its decimal text, the members of an
/// object as a list of keys and values.
#[derive(Debug, PartialEq)]
pub enum Json {
    Null,
    Bool(bool),
    Number(String),
    Text(String),
    Array(Vec<Json>),
    Object(Vec<(String, Json)>),
}

/// The value of the first member of `members` whose key is `key`.
pub open spec fn find_member(members: Seq<(String, Json)>, key: Seq<char>) -> Option<Json>
    decreases members.len(),
{
    if members.len() == 0 {
        None
    } else if members[0].0@ == key {
        Some(members[0].1)
    } else {
        find_member(members.drop_first(), key)
    }
}

impl Json {
    /// The member `key` of an object; nothing for a missing key and for a
    /// value that is no object.
    pub open spec fn member(self, key: Seq<char>) -> Option<Json> {
        match self {
            Json::Object(members) => find_member(members@, key),
            _ => None,
        }
    }

    /// The item `index` of an array; nothing past its end and for a value
    /// that is no array.
    pub open spec fn item(self, index: int) -> Option<Json> {
        match self {
            Json::Array(items) => if 0 <= index < items.len() {
                Some(items[index])
            } else {
                None
            },
            _ => None,
        }
    }

    /// The text of a string value.
    pub open spec fn text(self) -> Option<Seq<char>> {
        match self {
            Json::Text(s) => Some(s@),
            _ => None,
        }
    }

    /// The items of an array.
    pub open spec fn items(self) -> Option<Seq<Json>> {
        match self {
            Json::Array(items) => Some(items@),
            _ => None,
        }
    }

    /// Looks up the member `key` of an object.
    pub fn get(&self, key: &str) -> (found: Option<&Json>)
        ensures
            match found {
                Some(value) => self.member(key@) == Some(*value),
                None => self.member(key@).is_none(),
            },
    {
        match self {
            Json::Object(members) => {
                let mut at: usize = 0;
                assert(members@.skip(0) =~= members@);
                while at < members.len()
                    invariant
                        at <= members.len(),
                        self.member(key@) == find_member(members@.skip(at as int), key@),
                    decreases members.len() - at,
                {
                    assert(members@.skip(at as int)[0] == members@[at as int]);
                    if same_text(members[at].0.as_str(), key) {
                        return Some(&members[at].1);
                    }
                    assert(members@.skip(at as int).drop_first() =~= members@.skip(at + 1));
                    at = at + 1;
                }
                None
            },
            _ => None,
        }
    }

    /// Looks up the item `index` of an array.
    pub fn at(&self, index: usize) -> (found: Option<&Json>)
        ensures
            match found {
                Some(value) => self.item(index as int) == Some(*value),
                None => self.item(index as int).is_none(),
            },
    {
        match self {
            Json::Array(items) => if index < items.len() {
                Some(&items[index])
            } else {
                None
            },
            _ => None,
        }
    }

    /// The text of a string value.
    pub fn as_str(&self) -> (text: Option<&str>)
        ensures
            match text {
                Some(s) => self.text() == Some(s@),
                None => self.text().is_none(),
            },
    {
        match self {
            Json::Text(s) => Some(s.as_str()),
            _ => None,
        }
    }

    /// The items of an array.
    pub fn as_array(&self) -> (items: Option<&Vec<Json>>)
        ensures
            match items {
                Some(list) => self.items() == Some(list@),
                None => self.items().is_none(),
            },
    {
        match self {
            Json::Array(items) => Some(items),
            _ => None,
        }
    }
}

#[verifier::external_type_specification]
#[verifier::external_body]
pub struct ExValue(serde_json::Value);

/// The tree that a value of the parser holds.
pub uninterp spec fn value_tree(value: serde_json::Value) -> Json;

/// The document that a text spells, where the text is well-formed JSON.
pub uninterp spec fn document_of(text: Seq<char>) -> Option<Json>;

/// Calls `serde_json::from_str` for a `serde_json::Value`.  Believed of it:
/// whether it accepts a text, and the value it then returns, depend on the
/// text alone.
#[verifier::external_body]
fn read_value(text: &str) -> (value: Option<serde_json::Value>)
    ensures
        match value {
            Some(v) => document_of(text@) == Some(value_tree(v)),
            None => document_of(text@).is_none(),
        },
{
    serde_json::from_str::<serde_json::Value>(text).ok()
}

/// Hands out what a `serde_json::Value` holds, variant by variant: a number
/// by `Number`'s `to_string`, the members of an object in the order in which
/// its `Map` iterates.  Believed of it: the tree depends on the value alone.
#[verifier::external_body]
fn lift(value: &serde_json::Value) -> (tree: Json)
    ensures
        tree == value_tree(*value),
{
    match value {
        serde_json::Value::Null => Json::Null,
        serde_json::Value::Bool(b) => Json::Bool(*b),
        serde_json::Value::Number(n) => Json::Number(n.to_string()),
        serde_json::Value::String(s) => Json::Text(s.clone()),
        serde_json::Value::Array(a) => Json::Array(a.iter().map(lift).collect()),
        serde_json::Value::Object(m) => Json::Object(
            m.iter().map(|(k, v)| (k.clone(), lift(v))).collect(),
        ),
    }
}

/// Parses a text as JSON: the document, or nothing where the text is not
/// well-formed.
pub fn parse_document(text: &str) -> (document: Option<Json>)
    ensures
        document == document_of(text@),
{
    match read_value(text) {
        Some(value) => Some(lift(&value)),
        None => None,
    }
}

} // verus!
