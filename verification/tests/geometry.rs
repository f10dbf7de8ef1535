//! Geometries: well-known text and GeoJSON-shaped values canonicalize
//! identically.

use pgstacrs::error::Error;
use pgstacrs::geometry::{geometry_to_json, parse_geometry_json, parse_geometry_text};
use pgstacrs::json::{to_text, JsonValue};

fn num(s: &str) -> JsonValue {
    JsonValue::Num(s.to_string())
}

fn geo(kind: &str, coordinates: JsonValue) -> JsonValue {
    JsonValue::Object(vec![
        ("coordinates".to_string(), coordinates),
        ("type".to_string(), JsonValue::Str(kind.to_string())),
    ])
}

#[test]
fn point_text_and_json_agree() {
    let from_text = parse_geometry_text("POINT (10 20)").expect("point should parse");
    let from_json = parse_geometry_json(&geo(
        "Point",
        JsonValue::Array(vec![num("10"), num("20")]),
    ))
    .expect("GeoJSON point should parse");
    assert_eq!(
        to_text(&geometry_to_json(&from_text)),
        to_text(&geometry_to_json(&from_json))
    );
    assert_eq!(
        to_text(&geometry_to_json(&from_text)),
        "{\"coordinates\":[10,20],\"type\":\"Point\"}"
    );
}

#[test]
fn point_keywords_are_case_insensitive() {
    let a = parse_geometry_text("point(1.5 -2.5)").unwrap();
    let b = parse_geometry_text("Point ( 1.5 -2.5 )").unwrap();
    assert_eq!(to_text(&geometry_to_json(&a)), to_text(&geometry_to_json(&b)));
}

#[test]
fn point_with_altitude_parses() {
    let g = parse_geometry_text("POINT (10 20 30)").unwrap();
    assert_eq!(
        to_text(&geometry_to_json(&g)),
        "{\"coordinates\":[10,20,30],\"type\":\"Point\"}"
    );
}

#[test]
fn linestring_text_and_json_agree() {
    let from_text = parse_geometry_text("LINESTRING (0 0, 10 10, 20 5)").unwrap();
    let from_json = parse_geometry_json(&geo(
        "LineString",
        JsonValue::Array(vec![
            JsonValue::Array(vec![num("0"), num("0")]),
            JsonValue::Array(vec![num("10"), num("10")]),
            JsonValue::Array(vec![num("20"), num("5")]),
        ]),
    ))
    .unwrap();
    assert_eq!(
        to_text(&geometry_to_json(&from_text)),
        to_text(&geometry_to_json(&from_json))
    );
}

#[test]
fn polygon_text_and_json_agree() {
    let from_text =
        parse_geometry_text("POLYGON ((-10 -10, 10 -10, 10 10, -10 10, -10 -10))").unwrap();
    let ring = JsonValue::Array(vec![
        JsonValue::Array(vec![num("-10"), num("-10")]),
        JsonValue::Array(vec![num("10"), num("-10")]),
        JsonValue::Array(vec![num("10"), num("10")]),
        JsonValue::Array(vec![num("-10"), num("10")]),
        JsonValue::Array(vec![num("-10"), num("-10")]),
    ]);
    let from_json = parse_geometry_json(&geo("Polygon", JsonValue::Array(vec![ring]))).unwrap();
    let wire = to_text(&geometry_to_json(&from_text));
    assert_eq!(wire, to_text(&geometry_to_json(&from_json)));
    assert_eq!(
        wire,
        "{\"coordinates\":[[[-10,-10],[10,-10],[10,10],[-10,10],[-10,-10]]],\"type\":\"Polygon\"}"
    );
}

#[test]
fn polygon_with_hole_parses() {
    let g = parse_geometry_text("POLYGON ((0 0, 4 0, 4 4, 0 4, 0 0), (1 1, 2 1, 2 2, 1 1))")
        .unwrap();
    let wire = to_text(&geometry_to_json(&g));
    assert!(wire.starts_with("{\"coordinates\":[[[0,0],"), "{}", wire);
    assert!(wire.contains("],[[1,1],"), "{}", wire);
}

#[test]
fn malformed_geometry_text_is_a_validation_error() {
    for text in [
        "",
        "POINT",
        "POINT ()",
        "POINT (10)",
        "POINT (10 20",
        "CIRCLE (10 20)",
        "POINT (10 20) extra",
        "POLYGON (0 0, 1 1)",
    ] {
        match parse_geometry_text(text) {
            Err(Error::Validation(_)) => {}
            other => panic!("{:?} should fail, got {:?}", text, other),
        }
    }
}

#[test]
fn malformed_geometry_json_is_a_validation_error() {
    let bad_kind = geo("Circle", JsonValue::Array(vec![num("1"), num("2")]));
    match parse_geometry_json(&bad_kind) {
        Err(Error::Validation(_)) => {}
        other => panic!("unknown kind should fail, got {:?}", other),
    }
    let bad_coords = geo("Point", JsonValue::Array(vec![JsonValue::Str("x".to_string())]));
    match parse_geometry_json(&bad_coords) {
        Err(Error::Validation(_)) => {}
        other => panic!("non-number coordinates should fail, got {:?}", other),
    }
}
