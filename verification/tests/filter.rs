//! Filter expressions: the two surface forms canonicalize identically.

use pgstacrs::cql2::{filter_to_json, filter_to_text, parse_filter_json, parse_filter_text};
use pgstacrs::error::Error;
use pgstacrs::json::{to_text, JsonValue};

fn node(op: &str, args: Vec<JsonValue>) -> JsonValue {
    JsonValue::Object(vec![
        ("args".to_string(), JsonValue::Array(args)),
        ("op".to_string(), JsonValue::Str(op.to_string())),
    ])
}

fn prop(name: &str) -> JsonValue {
    JsonValue::Object(vec![("property".to_string(), JsonValue::Str(name.to_string()))])
}

#[test]
fn text_and_json_forms_canonicalize_identically() {
    let text = "id = 'landsat' AND cloud < 10.5";
    let from_text = parse_filter_text(text).expect("text form should parse");
    let json = node(
        "and",
        vec![
            node("=", vec![prop("id"), JsonValue::Str("landsat".to_string())]),
            node("<", vec![prop("cloud"), JsonValue::Num("10.5".to_string())]),
        ],
    );
    let from_json = parse_filter_json(&json).expect("JSON form should parse");
    assert_eq!(filter_to_text(&from_text), filter_to_text(&from_json));
    assert_eq!(
        to_text(&filter_to_json(&from_text)),
        to_text(&filter_to_json(&from_json))
    );
}

#[test]
fn canonical_text_rendering_is_exact() {
    let e = parse_filter_text("id = 'landsat' AND cloud < 10.5").unwrap();
    assert_eq!(filter_to_text(&e), "( id = 'landsat' AND cloud < 10.5 )");
}

#[test]
fn canonical_json_rendering_is_exact() {
    let e = parse_filter_text("cloud <= 10").unwrap();
    assert_eq!(
        to_text(&filter_to_json(&e)),
        "{\"args\":[{\"property\":\"cloud\"},10],\"op\":\"<=\"}"
    );
}

#[test]
fn text_round_trip_is_identity_on_canonical_text() {
    for text in [
        "id = 'x'",
        "( a = 1 AND b <> 2 )",
        "( a = 1 OR ( b > 2 AND NOT c >= 3 ) )",
        "properties.datetime IS NULL",
        "NOT flag = TRUE",
        "x < -1.5e3",
    ] {
        let e = parse_filter_text(text).expect(text);
        let rendered = filter_to_text(&e);
        let e2 = parse_filter_text(&rendered).expect("canonical text should parse");
        assert_eq!(rendered, filter_to_text(&e2), "round trip for {}", text);
    }
}

#[test]
fn json_round_trip_is_identity() {
    let json = node(
        "or",
        vec![
            node("isNull", vec![prop("a")]),
            node("not", vec![node("=", vec![prop("b"), JsonValue::Null])]),
        ],
    );
    let e = parse_filter_json(&json).expect("JSON form should parse");
    assert_eq!(to_text(&filter_to_json(&e)), to_text(&json));
}

#[test]
fn keywords_are_case_insensitive_in_text() {
    let a = parse_filter_text("a = 1 and not b = 2").unwrap();
    let b = parse_filter_text("a = 1 AND NOT b = 2").unwrap();
    assert_eq!(filter_to_text(&a), filter_to_text(&b));
}

#[test]
fn comparison_operators_all_parse() {
    for (text, op) in [
        ("a = 1", "="),
        ("a <> 1", "<>"),
        ("a < 1", "<"),
        ("a <= 1", "<="),
        ("a > 1", ">"),
        ("a >= 1", ">="),
    ] {
        let e = parse_filter_text(text).expect(text);
        let rendered = to_text(&filter_to_json(&e));
        assert!(rendered.contains(&format!("\"op\":\"{}\"", op)), "{}", rendered);
    }
}

#[test]
fn malformed_filter_text_is_a_validation_error() {
    for text in ["", "AND", "a =", "a = 'unterminated", "a = 1 trailing", "(a = 1", "1.2.3 = a"] {
        match parse_filter_text(text) {
            Err(Error::Validation(_)) => {}
            other => panic!("{:?} should fail to parse, got {:?}", text, other),
        }
    }
}

#[test]
fn malformed_filter_json_is_a_validation_error() {
    let missing_args = JsonValue::Object(vec![(
        "op".to_string(),
        JsonValue::Str("and".to_string()),
    )]);
    match parse_filter_json(&missing_args) {
        Err(Error::Validation(_)) => {}
        other => panic!("missing args should fail, got {:?}", other),
    }
    let bad_op = node("nand", vec![prop("a"), prop("b")]);
    match parse_filter_json(&bad_op) {
        Err(Error::Validation(_)) => {}
        other => panic!("unknown operator should fail, got {:?}", other),
    }
}

#[test]
fn string_literals_keep_their_content() {
    let e = parse_filter_text("title = 'a b  c'").unwrap();
    assert_eq!(filter_to_text(&e), "title = 'a b  c'");
    assert_eq!(
        to_text(&filter_to_json(&e)),
        "{\"args\":[{\"property\":\"title\"},\"a b  c\"],\"op\":\"=\"}"
    );
}
