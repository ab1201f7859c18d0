//! The records that indexing produces: one per file, and one per object and
//! morphism that the canonicalization of a file names.
//!
//! An embedding is held as the IEEE-754 single-precision bit patterns of its
//! components.  A record whose description could not be embedded has the
//! empty embedding.

use vstd::prelude::*;
use vstd::string::StringExecFns;
use crate::json::{document_of, parse_document, Json};

verus! {

/// The texts of a list of strings.
pub open spec fn texts(items: Seq<String>) -> Seq<Seq<char>> {
    items.map_values(|s: String| s@)
}

/// Copies a list of strings.
pub fn copy_texts(items: &Vec<String>) -> (copy: Vec<String>)
    ensures
        copy@ == items@,
{
    let mut copy: Vec<String> = Vec::new();
    let mut at: usize = 0;
    while at < items.len()
        invariant
            at <= items.len(),
            copy@ == items@.take(at as int),
        decreases items.len() - at,
    {
        copy.push(items[at].clone());
        at = at + 1;
        assert(copy@ =~= items@.take(at as int));
    }
    assert(items@.take(at as int) =~= items@);
    copy
}

/// Copies the components of an embedding.
pub fn copy_bits(items: &Vec<u32>) -> (copy: Vec<u32>)
    ensures
        copy@ == items@,
{
    let mut copy: Vec<u32> = Vec::new();
    let mut at: usize = 0;
    while at < items.len()
        invariant
            at <= items.len(),
            copy@ == items@.take(at as int),
        decreases items.len() - at,
    {
        copy.push(items[at]);
        at = at + 1;
        assert(copy@ =~= items@.take(at as int));
    }
    assert(items@.take(at as int) =~= items@);
    copy
}

/// An indexed file.
#[derive(Debug)]
pub struct File {
    pub size: u64,
    pub name: String,
    pub path: String,
    pub language: String,
    pub description: String,
    pub embedding: Vec<u32>,
}

/// What a `File` holds.
pub struct FileView {
    pub size: u64,
    pub name: Seq<char>,
    pub path: Seq<char>,
    pub language: Seq<char>,
    pub description: Seq<char>,
    pub embedding: Seq<u32>,
}

impl View for File {
    type V = FileView;

    open spec fn view(&self) -> FileView {
        FileView {
            size: self.size,
            name: self.name@,
            path: self.path@,
            language: self.language@,
            description: self.description@,
            embedding: self.embedding@,
        }
    }
}

impl Clone for File {
    fn clone(&self) -> (copy: Self)
        ensures
            copy@ == self@,
    {
        File {
            size: self.size,
            name: self.name.clone(),
            path: self.path.clone(),
            language: self.language.clone(),
            description: self.description.clone(),
            embedding: copy_bits(&self.embedding),
        }
    }
}

impl Default for File {
    fn default() -> (file: Self)
        ensures
            file@ == (FileView {
                size: 0,
                name: Seq::empty(),
                path: Seq::empty(),
                language: Seq::empty(),
                description: Seq::empty(),
                embedding: Seq::empty(),
            }),
    {
        File {
            size: 0,
            name: String::new(),
            path: String::new(),
            language: String::new(),
            description: String::new(),
            embedding: Vec::new(),
        }
    }
}

/// A type-like entity of a file: a class, a struct, an interface.
#[derive(Debug)]
pub struct Object {
    pub name: String,
    pub obj_type: String,
    pub morphisms: Vec<String>,
    pub dependencies: Vec<String>,
    pub description: String,
    pub embedding: Vec<u32>,
}

/// What an `Object` holds.
pub struct ObjectView {
    pub name: Seq<char>,
    pub obj_type: Seq<char>,
    pub morphisms: Seq<Seq<char>>,
    pub dependencies: Seq<Seq<char>>,
    pub description: Seq<char>,
    pub embedding: Seq<u32>,
}

impl View for Object {
    type V = ObjectView;

    open spec fn view(&self) -> ObjectView {
        ObjectView {
            name: self.name@,
            obj_type: self.obj_type@,
            morphisms: texts(self.morphisms@),
            dependencies: texts(self.dependencies@),
            description: self.description@,
            embedding: self.embedding@,
        }
    }
}

impl Clone for Object {
    fn clone(&self) -> (copy: Self)
        ensures
            copy@ == self@,
    {
        Object {
            name: self.name.clone(),
            obj_type: self.obj_type.clone(),
            morphisms: copy_texts(&self.morphisms),
            dependencies: copy_texts(&self.dependencies),
            description: self.description.clone(),
            embedding: copy_bits(&self.embedding),
        }
    }
}

impl Default for Object {
    fn default() -> (object: Self)
        ensures
            object@ == (ObjectView {
                name: Seq::empty(),
                obj_type: Seq::empty(),
                morphisms: Seq::empty(),
                dependencies: Seq::empty(),
                description: Seq::empty(),
                embedding: Seq::empty(),
            }),
    {
        let object = Object {
            name: String::new(),
            obj_type: String::new(),
            morphisms: Vec::new(),
            dependencies: Vec::new(),
            description: String::new(),
            embedding: Vec::new(),
        };
        assert(texts(object.morphisms@) =~= Seq::empty());
        assert(texts(object.dependencies@) =~= Seq::empty());
        object
    }
}

/// A callable entity of a file: a function, a method, a procedure.
#[derive(Debug)]
pub struct Morphism {
    pub name: String,
    pub morph_type: String,
    pub dependencies: Vec<String>,
    pub description: String,
    pub embedding: Vec<u32>,
}

/// What a `Morphism` holds.
pub struct MorphismView {
    pub name: Seq<char>,
    pub morph_type: Seq<char>,
    pub dependencies: Seq<Seq<char>>,
    pub description: Seq<char>,
    pub embedding: Seq<u32>,
}

impl View for Morphism {
    type V = MorphismView;

    open spec fn view(&self) -> MorphismView {
        MorphismView {
            name: self.name@,
            morph_type: self.morph_type@,
            dependencies: texts(self.dependencies@),
            description: self.description@,
            embedding: self.embedding@,
        }
    }
}

impl Clone for Morphism {
    fn clone(&self) -> (copy: Self)
        ensures
            copy@ == self@,
    {
        Morphism {
            name: self.name.clone(),
            morph_type: self.morph_type.clone(),
            dependencies: copy_texts(&self.dependencies),
            description: self.description.clone(),
            embedding: copy_bits(&self.embedding),
        }
    }
}

impl Default for Morphism {
    fn default() -> (morphism: Self)
        ensures
            morphism@ == (MorphismView {
                name: Seq::empty(),
                morph_type: Seq::empty(),
                dependencies: Seq::empty(),
                description: Seq::empty(),
                embedding: Seq::empty(),
            }),
    {
        let morphism = Morphism {
            name: String::new(),
            morph_type: String::new(),
            dependencies: Vec::new(),
            description: String::new(),
            embedding: Vec::new(),
        };
        assert(texts(morphism.dependencies@) =~= Seq::empty());
        morphism
    }
}

/// The texts of `items` with `separator` between each two.
pub open spec fn joined_with(items: Seq<Seq<char>>, separator: Seq<char>) -> Seq<char>
    decreases items.len(),
{
    if items.len() == 0 {
        Seq::empty()
    } else if items.len() == 1 {
        items[0]
    } else {
        joined_with(items.drop_last(), separator) + separator + items.last()
    }
}

/// Joins `items` with `separator` between each two.
pub fn join(items: &Vec<String>, separator: &str) -> (text: String)
    ensures
        text@ == joined_with(texts(items@), separator@),
{
    let mut text = String::new();
    let mut at: usize = 0;
    assert(texts(items@).take(0) =~= Seq::empty());
    while at < items.len()
        invariant
            at <= items.len(),
            text@ == joined_with(texts(items@).take(at as int), separator@),
        decreases items.len() - at,
    {
        let ghost before = text@;
        assert(texts(items@).take(at + 1).drop_last() =~= texts(items@).take(at as int));
        assert(texts(items@).take(at + 1).last() == items[at as int]@);
        if at > 0 {
            text.append(separator);
        }
        text.append(items[at].as_str());
        assert(at == 0 ==> text@ =~= items[at as int]@);
        at = at + 1;
    }
    assert(texts(items@).take(at as int) =~= texts(items@));
    text
}

/// What formatting a list of strings with `{:?}` gives.
pub uninterp spec fn debug_text(items: Seq<Seq<char>>) -> Seq<char>;

/// Formats `items` with `{:?}`, that is by std's `Debug` for a `Vec` of
/// `String`.  Believed of it: the text depends on the strings alone.
#[verifier::external_body]
fn debug_list(items: &Vec<String>) -> (text: String)
    ensures
        text@ == debug_text(texts(items@)),
{
    format!("{:?}", items)
}

impl File {
    /// The file in one line.
    pub fn display(&self) -> (text: String)
        ensures
            text@ == "File(name: "@ + self@.name + ", path: "@ + self@.path + ", language: "@
                + self@.language + ", description: "@ + self@.description + ")"@,
    {
        let mut text = String::from_str("File(name: ");
        text.append(self.name.as_str());
        text.append(", path: ");
        text.append(self.path.as_str());
        text.append(", language: ");
        text.append(self.language.as_str());
        text.append(", description: ");
        text.append(self.description.as_str());
        text.append(")");
        text
    }
}

impl Object {
    /// The object in one line, its morphisms shown as `morphisms`.
    pub fn display_with(&self, morphisms: &str) -> (text: String)
        ensures
            text@ == "Object(name: "@ + self@.name + ", type: "@ + self@.obj_type
                + ", morphisms: "@ + morphisms@ + ", dependencies: "@ + joined_with(
                self@.dependencies,
                ", "@,
            ) + ", description: "@ + self@.description + ")"@,
    {
        let dependencies = join(&self.dependencies, ", ");
        let mut text = String::from_str("Object(name: ");
        text.append(self.name.as_str());
        text.append(", type: ");
        text.append(self.obj_type.as_str());
        text.append(", morphisms: ");
        text.append(morphisms);
        text.append(", dependencies: ");
        text.append(dependencies.as_str());
        text.append(", description: ");
        text.append(self.description.as_str());
        text.append(")");
        text
    }

    /// The object in one line, its morphisms shown as `{:?}` shows a list
    /// of strings.
    pub fn display(&self) -> (text: String)
        ensures
            text@ == "Object(name: "@ + self@.name + ", type: "@ + self@.obj_type
                + ", morphisms: "@ + debug_text(self@.morphisms) + ", dependencies: "@
                + joined_with(self@.dependencies, ", "@) + ", description: "@
                + self@.description + ")"@,
    {
        let morphisms = debug_list(&self.morphisms);
        self.display_with(morphisms.as_str())
    }
}

impl Morphism {
    /// The morphism in one line.
    pub fn display(&self) -> (text: String)
        ensures
            text@ == "Morphism(name: "@ + self@.name + ", type: "@ + self@.morph_type
                + ", dependencies: "@ + joined_with(self@.dependencies, ", "@)
                + ", description: "@ + self@.description + ")"@,
    {
        let dependencies = join(&self.dependencies, ", ");
        let mut text = String::from_str("Morphism(name: ");
        text.append(self.name.as_str());
        text.append(", type: ");
        text.append(self.morph_type.as_str());
        text.append(", dependencies: ");
        text.append(dependencies.as_str());
        text.append(", description: ");
        text.append(self.description.as_str());
        text.append(")");
        text
    }
}

/// Copies a list of files.
pub fn copy_files(files: &Vec<File>) -> (copy: Vec<File>)
    ensures
        file_views(copy@) == file_views(files@),
{
    let mut copy: Vec<File> = Vec::new();
    let mut at: usize = 0;
    while at < files.len()
        invariant
            at <= files.len(),
            copy.len() == at,
            forall|i: int| 0 <= i < at ==> (#[trigger] copy[i])@ == files[i]@,
        decreases files.len() - at,
    {
        copy.push(files[at].clone());
        at = at + 1;
    }
    assert(file_views(copy@) =~= file_views(files@));
    copy
}

/// Copies a list of objects.
pub fn copy_objects(objects: &Vec<Object>) -> (copy: Vec<Object>)
    ensures
        object_views(copy@) == object_views(objects@),
{
    let mut copy: Vec<Object> = Vec::new();
    let mut at: usize = 0;
    while at < objects.len()
        invariant
            at <= objects.len(),
            copy.len() == at,
            forall|i: int| 0 <= i < at ==> (#[trigger] copy[i])@ == objects[i]@,
        decreases objects.len() - at,
    {
        copy.push(objects[at].clone());
        at = at + 1;
    }
    assert(object_views(copy@) =~= object_views(objects@));
    copy
}

/// Copies a list of morphisms.
pub fn copy_morphisms(morphisms: &Vec<Morphism>) -> (copy: Vec<Morphism>)
    ensures
        morphism_views(copy@) == morphism_views(morphisms@),
{
    let mut copy: Vec<Morphism> = Vec::new();
    let mut at: usize = 0;
    while at < morphisms.len()
        invariant
            at <= morphisms.len(),
            copy.len() == at,
            forall|i: int| 0 <= i < at ==> (#[trigger] copy[i])@ == morphisms[i]@,
        decreases morphisms.len() - at,
    {
        copy.push(morphisms[at].clone());
        at = at + 1;
    }
    assert(morphism_views(copy@) =~= morphism_views(morphisms@));
    copy
}

/// The views of a list of files.
pub open spec fn file_views(files: Seq<File>) -> Seq<FileView> {
    files.map_values(|f: File| f@)
}

/// The views of a list of objects.
pub open spec fn object_views(objects: Seq<Object>) -> Seq<ObjectView> {
    objects.map_values(|o: Object| o@)
}

/// The views of a list of morphisms.
pub open spec fn morphism_views(morphisms: Seq<Morphism>) -> Seq<MorphismView> {
    morphisms.map_values(|m: Morphism| m@)
}

/// The text of a string value, and the empty text for anything else.
pub open spec fn text_or_empty(value: Option<Json>) -> Seq<char> {
    match value {
        Some(Json::Text(s)) => s@,
        _ => Seq::empty(),
    }
}

/// The text of the member `key` of `node`, empty where `node` has no such
/// member or the member is no string.
pub open spec fn member_text(node: Json, key: Seq<char>) -> Seq<char> {
    text_or_empty(node.member(key))
}

/// The texts of the strings among `items`, in order; other items are left out.
pub open spec fn string_items(items: Seq<Json>) -> Seq<Seq<char>>
    decreases items.len(),
{
    if items.len() == 0 {
        Seq::empty()
    } else {
        match items.last() {
            Json::Text(s) => string_items(items.drop_last()).push(s@),
            _ => string_items(items.drop_last()),
        }
    }
}

/// The strings of the array member `key` of `node`, none where `node` has no
/// such member or the member is no array.
pub open spec fn member_strings(node: Json, key: Seq<char>) -> Seq<Seq<char>> {
    match node.member(key) {
        Some(Json::Array(items)) => string_items(items@),
        _ => Seq::empty(),
    }
}

/// The object that one entry of the list of objects describes, not yet embedded.
pub open spec fn object_of(node: Json) -> ObjectView {
    ObjectView {
        name: member_text(node, "name"@),
        obj_type: member_text(node, "type"@),
        morphisms: member_strings(node, "morphisms"@),
        dependencies: member_strings(node, "Dependencies"@),
        description: member_text(node, "description"@),
        embedding: Seq::empty(),
    }
}

/// The morphism that one entry of the list of morphisms describes, not yet
/// embedded.
pub open spec fn morphism_of(node: Json) -> MorphismView {
    MorphismView {
        name: member_text(node, "name"@),
        morph_type: member_text(node, "type"@),
        dependencies: member_strings(node, "Dependencies"@),
        description: member_text(node, "description"@),
        embedding: Seq::empty(),
    }
}

/// The objects of a canonicalization: one for each entry of its array
/// `Objects`, none where it has no such array.
pub open spec fn objects_of(document: Json) -> Seq<ObjectView> {
    match document.member("Objects"@) {
        Some(Json::Array(items)) => items@.map_values(|node: Json| object_of(node)),
        _ => Seq::empty(),
    }
}

/// The morphisms of a canonicalization: one for each entry of its array
/// `Morphisms`, none where it has no such array.
pub open spec fn morphisms_of(document: Json) -> Seq<MorphismView> {
    match document.member("Morphisms"@) {
        Some(Json::Array(items)) => items@.map_values(|node: Json| morphism_of(node)),
        _ => Seq::empty(),
    }
}

/// The record of the file at `path`, named `name`, that a canonicalization
/// describes, not yet embedded.  Language and description come from its
/// member `General Information`; the size is left at 0.
pub open spec fn file_of(document: Json, name: Seq<char>, path: Seq<char>) -> FileView {
    FileView {
        size: 0,
        name,
        path,
        language: match document.member("General Information"@) {
            Some(info) => member_text(info, "Language"@),
            None => Seq::empty(),
        },
        description: match document.member("General Information"@) {
            Some(info) => member_text(info, "Description"@),
            None => Seq::empty(),
        },
        embedding: Seq::empty(),
    }
}

fn text_member(node: &Json, key: &str) -> (text: String)
    ensures
        text@ == member_text(*node, key@),
{
    match node.get(key) {
        Some(value) => match value.as_str() {
            Some(s) => String::from_str(s),
            None => String::new(),
        },
        None => String::new(),
    }
}

fn strings_member(node: &Json, key: &str) -> (list: Vec<String>)
    ensures
        texts(list@) == member_strings(*node, key@),
{
    let mut list: Vec<String> = Vec::new();
    assert(texts(list@) =~= Seq::empty());
    match node.get(key) {
        Some(value) => match value.as_array() {
            Some(items) => {
                let mut at: usize = 0;
                assert(items@.take(0) =~= Seq::empty());
                while at < items.len()
                    invariant
                        at <= items.len(),
                        texts(list@) == string_items(items@.take(at as int)),
                    decreases items.len() - at,
                {
                    let ghost before = list@;
                    assert(items@.take(at + 1).drop_last() =~= items@.take(at as int));
                    match items[at].as_str() {
                        Some(s) => {
                            list.push(String::from_str(s));
                            assert(texts(list@) =~= texts(before).push(s@));
                        },
                        None => {},
                    }
                    at = at + 1;
                }
                assert(items@.take(at as int) =~= items@);
                list
            },
            None => list,
        },
        None => list,
    }
}

fn object_from(node: &Json) -> (object: Object)
    ensures
        object@ == object_of(*node),
{
    Object {
        name: text_member(node, "name"),
        obj_type: text_member(node, "type"),
        morphisms: strings_member(node, "morphisms"),
        dependencies: strings_member(node, "Dependencies"),
        description: text_member(node, "description"),
        embedding: Vec::new(),
    }
}

fn morphism_from(node: &Json) -> (morphism: Morphism)
    ensures
        morphism@ == morphism_of(*node),
{
    Morphism {
        name: text_member(node, "name"),
        morph_type: text_member(node, "type"),
        dependencies: strings_member(node, "Dependencies"),
        description: text_member(node, "description"),
        embedding: Vec::new(),
    }
}

fn objects_from(document: &Json) -> (objects: Vec<Object>)
    ensures
        object_views(objects@) == objects_of(*document),
{
    let mut objects: Vec<Object> = Vec::new();
    match document.get("Objects") {
        Some(value) => match value.as_array() {
            Some(items) => {
                let mut at: usize = 0;
                while at < items.len()
                    invariant
                        at <= items.len(),
                        objects.len() == at,
                        forall|i: int| 0 <= i < at ==> (#[trigger] objects[i])@ == object_of(items[i]),
                    decreases items.len() - at,
                {
                    objects.push(object_from(&items[at]));
                    at = at + 1;
                }
                assert(object_views(objects@) =~= objects_of(*document));
                objects
            },
            None => {
                assert(object_views(objects@) =~= objects_of(*document));
                objects
            },
        },
        None => {
            assert(object_views(objects@) =~= objects_of(*document));
            objects
        },
    }
}

fn morphisms_from(document: &Json) -> (morphisms: Vec<Morphism>)
    ensures
        morphism_views(morphisms@) == morphisms_of(*document),
{
    let mut morphisms: Vec<Morphism> = Vec::new();
    match document.get("Morphisms") {
        Some(value) => match value.as_array() {
            Some(items) => {
                let mut at: usize = 0;
                while at < items.len()
                    invariant
                        at <= items.len(),
                        morphisms.len() == at,
                        forall|i: int|
                            0 <= i < at ==> (#[trigger] morphisms[i])@ == morphism_of(items[i]),
                    decreases items.len() - at,
                {
                    morphisms.push(morphism_from(&items[at]));
                    at = at + 1;
                }
                assert(morphism_views(morphisms@) =~= morphisms_of(*document));
                morphisms
            },
            None => {
                assert(morphism_views(morphisms@) =~= morphisms_of(*document));
                morphisms
            },
        },
        None => {
            assert(morphism_views(morphisms@) =~= morphisms_of(*document));
            morphisms
        },
    }
}

/// Builds the records that a canonicalization describes for the file at
/// `path`, named `name`.  No record is embedded yet.
pub fn records_from(document: &Json, name: String, path: String) -> (records: (
    File,
    Vec<Object>,
    Vec<Morphism>,
))
    ensures
        records.0@ == file_of(*document, name@, path@),
        object_views(records.1@) == objects_of(*document),
        morphism_views(records.2@) == morphisms_of(*document),
{
    let (language, description) = match document.get("General Information") {
        Some(info) => (text_member(info, "Language"), text_member(info, "Description")),
        None => (String::new(), String::new()),
    };
    let file = File { size: 0, name, path, language, description, embedding: Vec::new() };
    (file, objects_from(document), morphisms_from(document))
}

/// Whether `part` stands in `whole` as one piece.
pub open spec fn is_part_of(part: Seq<char>, whole: Seq<char>) -> bool {
    exists|from: int, to: int|
        0 <= from <= to <= whole.len() && part == #[trigger] whole.subrange(from, to)
}

/// Calls `std::path::Path::file_name` on `path`, and `to_str` on what it
/// returns: the final component of the path, where the path has one.
/// Believed of it: a component of a path is a piece of the path's text.
/// Which piece it is depends on the platform's separators and is not claimed.
#[verifier::external_body]
fn path_file_name(path: &str) -> (name: Option<String>)
    ensures
        match name {
            Some(component) => is_part_of(component@, path@),
            None => true,
        },
{
    std::path::Path::new(path).file_name().and_then(|n| n.to_str()).map(|s| s.to_string())
}

/// The name of the file at `path`: the final component of the path, and the
/// empty text where the path has none.  Either way the name is a piece of
/// the path.
pub(crate) fn file_name_of(path: &str) -> (name: String)
    ensures
        is_part_of(name@, path@),
{
    let found = path_file_name(path);
    let ghost component = found;
    let name = name_or_empty(found);
    proof {
        if component is None {
            assert(name@ =~= path@.subrange(0, 0));
        }
    }
    name
}

/// The name that a final component stands for: the component itself, and
/// the empty text where there is none.
pub(crate) fn name_or_empty(component: Option<String>) -> (name: String)
    ensures
        name@ == match component {
            Some(text) => text@,
            None => Seq::<char>::empty(),
        },
{
    match component {
        Some(text) => text,
        None => String::new(),
    }
}

/// Parses the canonicalization of the file at `file_path` into the file's
/// record and the records of its objects and morphisms, none of them
/// embedded yet.  A response that is not well-formed JSON gives nothing.
/// The file's name is the final component of its path.
pub fn parse_llm_response(response: String, file_path: String) -> (parsed: Option<
    (File, Vec<Object>, Vec<Morphism>),
>)
    ensures
        match document_of(response@) {
            Some(document) => parsed matches Some(records) && records.0@ == file_of(
                document,
                records.0@.name,
                file_path@,
            ) && object_views(records.1@) == objects_of(document) && morphism_views(records.2@)
                == morphisms_of(document),
            None => parsed is None,
        },
{
    match parse_document(response.as_str()) {
        Some(document) => {
            let name = file_name_of(file_path.as_str());
            Some(records_from(&document, name, file_path))
        },
        None => None,
    }
}

} // verus!
