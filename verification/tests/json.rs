use indexer::json::{parse_document, Json};

fn text(s: &str) -> Json {
    Json::Text(s.to_string())
}

fn number(s: &str) -> Json {
    Json::Number(s.to_string())
}

fn member(key: &str, value: Json) -> (String, Json) {
    (key.to_string(), value)
}

#[test]
fn a_document_becomes_a_tree() {
    let parsed = parse_document(r#"{"a": [1, 2.5, "x", null, true, -0.25], "b": {"c": "d"}}"#);
    let expected = Json::Object(vec![
        member(
            "a",
            Json::Array(vec![
                number("1"),
                number("2.5"),
                text("x"),
                Json::Null,
                Json::Bool(true),
                number("-0.25"),
            ]),
        ),
        member("b", Json::Object(vec![member("c", text("d"))])),
    ]);
    assert_eq!(parsed, Some(expected));
}

#[test]
fn scalars_parse_alone() {
    assert_eq!(parse_document("null"), Some(Json::Null));
    assert_eq!(parse_document("false"), Some(Json::Bool(false)));
    assert_eq!(parse_document("17"), Some(number("17")));
    assert_eq!(parse_document("\"a\\nb\""), Some(text("a\nb")));
    assert_eq!(parse_document("[]"), Some(Json::Array(Vec::new())));
    assert_eq!(parse_document("{}"), Some(Json::Object(Vec::new())));
}

#[test]
fn malformed_text_is_no_document() {
    assert_eq!(parse_document(""), None);
    assert_eq!(parse_document("{"), None);
    assert_eq!(parse_document("{\"a\": }"), None);
    assert_eq!(parse_document("{'a': 1}"), None);
    assert_eq!(parse_document("[1, 2,]"), None);
    assert_eq!(parse_document("{} trailing"), None);
    assert_eq!(parse_document("not json at all"), None);
}

#[test]
fn a_repeated_key_keeps_its_last_value() {
    let parsed = parse_document(r#"{"a": 1, "a": 2}"#).unwrap();
    assert_eq!(parsed, Json::Object(vec![member("a", number("2"))]));
    assert_eq!(parsed.get("a"), Some(&number("2")));
}

#[test]
fn get_finds_members_of_objects_only() {
    let tree = Json::Object(vec![member("x", text("1")), member("y", Json::Null)]);
    assert_eq!(tree.get("x"), Some(&text("1")));
    assert_eq!(tree.get("y"), Some(&Json::Null));
    assert_eq!(tree.get("z"), None);
    assert_eq!(tree.get(""), None);
    assert_eq!(text("x").get("x"), None);
    assert_eq!(Json::Array(vec![text("x")]).get("x"), None);
}

#[test]
fn get_takes_the_first_of_equal_keys() {
    let tree = Json::Object(vec![member("k", number("1")), member("k", number("2"))]);
    assert_eq!(tree.get("k"), Some(&number("1")));
}

#[test]
fn at_finds_items_of_arrays_only() {
    let tree = Json::Array(vec![text("a"), text("b")]);
    assert_eq!(tree.at(0), Some(&text("a")));
    assert_eq!(tree.at(1), Some(&text("b")));
    assert_eq!(tree.at(2), None);
    assert_eq!(Json::Object(Vec::new()).at(0), None);
    assert_eq!(Json::Null.at(0), None);
}

#[test]
fn as_str_and_as_array_tell_the_kinds_apart() {
    assert_eq!(text("hi").as_str(), Some("hi"));
    assert_eq!(number("1").as_str(), None);
    assert_eq!(Json::Null.as_str(), None);
    let items = vec![Json::Null];
    assert_eq!(Json::Array(vec![Json::Null]).as_array(), Some(&items));
    assert_eq!(text("hi").as_array(), None);
}
