//! The JSON serializer: canonical text, exact escaping, numbers verbatim.

use pgstacrs::json::{to_text, JsonValue};

#[test]
fn scalars_serialize_exactly() {
    assert_eq!(to_text(&JsonValue::Null), "null");
    assert_eq!(to_text(&JsonValue::Bool(true)), "true");
    assert_eq!(to_text(&JsonValue::Bool(false)), "false");
    assert_eq!(to_text(&JsonValue::Num("-10.5e2".to_string())), "-10.5e2");
    assert_eq!(to_text(&JsonValue::Str("plain".to_string())), "\"plain\"");
}

#[test]
fn strings_escape_quotes_backslashes_and_controls() {
    assert_eq!(
        to_text(&JsonValue::Str("a\"b\\c".to_string())),
        "\"a\\\"b\\\\c\""
    );
    assert_eq!(
        to_text(&JsonValue::Str("line\nreturn\rtab\t".to_string())),
        "\"line\\nreturn\\rtab\\t\""
    );
    assert_eq!(
        to_text(&JsonValue::Str("\u{1}\u{1f}".to_string())),
        "\"\\u0001\\u001f\""
    );
}

#[test]
fn arrays_and_objects_nest_without_whitespace() {
    let v = JsonValue::Object(vec![
        (
            "a".to_string(),
            JsonValue::Array(vec![
                JsonValue::Num("1".to_string()),
                JsonValue::Num("2".to_string()),
            ]),
        ),
        (
            "b".to_string(),
            JsonValue::Object(vec![("c".to_string(), JsonValue::Null)]),
        ),
    ]);
    assert_eq!(to_text(&v), "{\"a\":[1,2],\"b\":{\"c\":null}}");
}

#[test]
fn empty_containers_serialize_bare() {
    assert_eq!(to_text(&JsonValue::Array(Vec::new())), "[]");
    assert_eq!(to_text(&JsonValue::Object(Vec::new())), "{}");
}

#[test]
fn member_order_is_preserved() {
    let v = JsonValue::Object(vec![
        ("z".to_string(), JsonValue::Num("1".to_string())),
        ("a".to_string(), JsonValue::Num("2".to_string())),
    ]);
    assert_eq!(to_text(&v), "{\"z\":1,\"a\":2}");
}
