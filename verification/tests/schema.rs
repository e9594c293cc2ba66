use sweet::json::{parse_json, texts_to_json, Json};
use sweet::schema::sanitize_schema;

fn get<'a>(j: &'a Json, key: &str) -> Option<&'a Json> {
    match j {
        Json::Object(members) => members.iter().find(|m| m.0 == key).map(|m| &m.1),
        _ => None,
    }
}

fn at<'a>(j: &'a Json, path: &[&str]) -> &'a Json {
    path.iter().fold(j, |j, key| get(j, key).unwrap())
}

#[test]
fn removes_schema_and_title() {
    let mut v = parse_json(
        r#"{"$schema": "http://json-schema.org/draft-07/schema#", "title": "Foo", "type": "object"}"#,
    )
    .unwrap();
    sanitize_schema(&mut v);
    assert!(get(&v, "$schema").is_none());
    assert!(get(&v, "title").is_none());
    assert_eq!(get(&v, "type"), Some(&Json::Text("object".to_string())));
}

#[test]
fn collapses_type_array() {
    let mut v = parse_json(
        r#"{"type": "object", "properties": {"age": {"type": ["integer", "null"]}}}"#,
    )
    .unwrap();
    sanitize_schema(&mut v);
    assert_eq!(
        at(&v, &["properties", "age", "type"]),
        &Json::Text("integer".to_string())
    );
}

#[test]
fn recurses_into_nested_properties() {
    let mut v = parse_json(
        r#"{"type": "object", "properties": {"nested": {"type": "object",
            "properties": {"val": {"type": ["string", "null"]}}}}}"#,
    )
    .unwrap();
    sanitize_schema(&mut v);
    assert_eq!(
        at(&v, &["properties", "nested", "properties", "val", "type"]),
        &Json::Text("string".to_string())
    );
}

#[test]
fn sanitizing_twice_changes_nothing_more() {
    let text = r#"{"title": "T", "items": [{"$schema": "s", "type": ["null", "number"]}, 3, true]}"#;
    let mut once = parse_json(text).unwrap();
    sanitize_schema(&mut once);
    let mut twice = once.clone();
    sanitize_schema(&mut twice);
    assert_eq!(once, twice);
    let expected = parse_json(r#"{"items": [{"type": "number"}, 3, true]}"#).unwrap();
    assert_eq!(once, expected);
}

#[test]
fn json_is_read_into_plain_values() {
    let v = parse_json(r#"{"b": [null, -1.5, "x\n"], "a": {}}"#).unwrap();
    assert_eq!(get(&v, "a"), Some(&Json::Object(vec![])));
    assert_eq!(
        get(&v, "b"),
        Some(&Json::Array(vec![
            Json::Null,
            Json::Number("-1.5".to_string()),
            Json::Text("x\n".to_string()),
        ]))
    );
    assert!(parse_json("{").is_err());
    assert!(parse_json("").is_err());
}

#[test]
fn lists_of_texts_are_written_as_json() {
    let texts = vec!["a".to_string(), "say \"b\"\n".to_string(), String::new()];
    let written = texts_to_json(&texts);
    assert_eq!(written, r#"["a","say \"b\"\n",""]"#);
    assert_eq!(
        parse_json(&written).unwrap(),
        Json::Array(texts.into_iter().map(Json::Text).collect())
    );
    assert_eq!(texts_to_json(&vec![]), "[]");
}
