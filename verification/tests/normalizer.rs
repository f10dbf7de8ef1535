//! The normalizer: union-typed inputs in, one canonical descriptor out.

use pgstacrs::error::Error;
use pgstacrs::json::{to_text, JsonValue};
use pgstacrs::search::{
    descriptor_to_json, normalize, SearchInput, StringOrJson, StringOrList,
};

fn empty_input() -> SearchInput {
    SearchInput {
        collections: None,
        ids: None,
        intersects: None,
        bbox: None,
        datetime: None,
        incl: None,
        excl: None,
        sortby: None,
        filter: None,
        query: None,
        limit: None,
    }
}

fn wire(input: SearchInput) -> String {
    let descriptor = normalize(input).expect("normalization should succeed");
    to_text(&descriptor_to_json(descriptor))
}

#[test]
fn empty_input_gives_empty_descriptor() {
    assert_eq!(wire(empty_input()), "{}");
}

#[test]
fn bbox_of_four_passes_through_exactly() {
    let mut input = empty_input();
    input.bbox = Some(vec![
        "-10".to_string(),
        "-10".to_string(),
        "10".to_string(),
        "10".to_string(),
    ]);
    assert_eq!(wire(input), "{\"bbox\":[-10,-10,10,10]}");
}

#[test]
fn bbox_of_six_passes_through_exactly() {
    let mut input = empty_input();
    input.bbox = Some(vec![
        "-10.5".to_string(),
        "-10".to_string(),
        "0".to_string(),
        "10".to_string(),
        "10".to_string(),
        "100".to_string(),
    ]);
    assert_eq!(wire(input), "{\"bbox\":[-10.5,-10,0,10,10,100]}");
}

#[test]
fn bbox_of_other_lengths_is_rejected() {
    for n in [0usize, 1, 2, 3, 5, 7, 8] {
        let mut input = empty_input();
        input.bbox = Some(vec!["1".to_string(); n]);
        match normalize(input) {
            Err(Error::Validation(_)) => {}
            other => panic!("bbox of {} values should be a validation error, got {:?}", n, other),
        }
    }
}

#[test]
fn collections_string_and_singleton_list_agree() {
    let mut a = empty_input();
    a.collections = Some(StringOrList::Str("landsat".to_string()));
    let mut b = empty_input();
    b.collections = Some(StringOrList::List(vec!["landsat".to_string()]));
    let w = wire(a);
    assert_eq!(w, wire(b));
    assert_eq!(w, "{\"collections\":[\"landsat\"]}");
}

#[test]
fn empty_collections_list_is_absent() {
    let mut input = empty_input();
    input.collections = Some(StringOrList::List(Vec::new()));
    assert_eq!(wire(input), "{}");
}

#[test]
fn empty_projection_sides_leave_fields_absent() {
    let mut input = empty_input();
    input.incl = Some(StringOrList::List(Vec::new()));
    input.excl = Some(StringOrList::List(Vec::new()));
    assert_eq!(wire(input), "{}");
}

#[test]
fn nonempty_projection_is_present() {
    let mut input = empty_input();
    input.incl = Some(StringOrList::List(vec!["id".to_string(), "geometry".to_string()]));
    input.excl = Some(StringOrList::Str("assets".to_string()));
    assert_eq!(
        wire(input),
        "{\"fields\":{\"exclude\":[\"assets\"],\"include\":[\"id\",\"geometry\"]}}"
    );
}

#[test]
fn sortby_tokens_parse_signs() {
    let mut input = empty_input();
    input.sortby = Some(StringOrList::List(vec![
        "+properties.datetime".to_string(),
        "-cloud".to_string(),
        "id".to_string(),
    ]));
    assert_eq!(
        wire(input),
        "{\"sortby\":[\
         {\"direction\":\"asc\",\"field\":\"properties.datetime\"},\
         {\"direction\":\"desc\",\"field\":\"cloud\"},\
         {\"direction\":\"asc\",\"field\":\"id\"}]}"
    );
}

#[test]
fn sortby_bare_string_is_one_token() {
    let mut input = empty_input();
    input.sortby = Some(StringOrList::Str("-datetime".to_string()));
    assert_eq!(wire(input), "{\"sortby\":[{\"direction\":\"desc\",\"field\":\"datetime\"}]}");
}

#[test]
fn unparsable_sort_token_is_rejected_not_dropped() {
    for bad in ["", "+", "-"] {
        let mut input = empty_input();
        input.sortby = Some(StringOrList::List(vec!["id".to_string(), bad.to_string()]));
        match normalize(input) {
            Err(Error::Validation(_)) => {}
            other => panic!("sort token {:?} should be rejected, got {:?}", bad, other),
        }
    }
}

#[test]
fn datetime_passes_through_uninterpreted() {
    let mut input = empty_input();
    input.datetime = Some("2020-01-01T00:00:00Z/..".to_string());
    assert_eq!(wire(input), "{\"datetime\":\"2020-01-01T00:00:00Z/..\"}");
}

#[test]
fn limit_is_a_number_on_the_wire() {
    let mut input = empty_input();
    input.limit = Some(5);
    assert_eq!(wire(input), "{\"limit\":5}");
}

#[test]
fn query_must_be_an_object() {
    let mut input = empty_input();
    input.query = Some(JsonValue::Array(Vec::new()));
    match normalize(input) {
        Err(Error::Validation(_)) => {}
        other => panic!("non-object query should be rejected, got {:?}", other),
    }
    let mut input = empty_input();
    input.query = Some(JsonValue::Object(vec![(
        "cloud".to_string(),
        JsonValue::Object(vec![("lt".to_string(), JsonValue::Num("10".to_string()))]),
    )]));
    assert_eq!(wire(input), "{\"query\":{\"cloud\":{\"lt\":10}}}");
}

#[test]
fn malformed_filter_text_is_rejected_eagerly() {
    let mut input = empty_input();
    input.filter = Some(StringOrJson::Text("id = ".to_string()));
    match normalize(input) {
        Err(Error::Validation(_)) => {}
        other => panic!("malformed filter should be rejected, got {:?}", other),
    }
}

#[test]
fn malformed_geometry_is_rejected_eagerly() {
    let mut input = empty_input();
    input.intersects = Some(StringOrJson::Text("POINT (10)".to_string()));
    match normalize(input) {
        Err(Error::Validation(_)) => {}
        other => panic!("malformed geometry should be rejected, got {:?}", other),
    }
}

#[test]
fn full_search_request_has_canonical_member_order() {
    let mut input = empty_input();
    input.collections = Some(StringOrList::Str("landsat".to_string()));
    input.bbox = Some(vec![
        "-10".to_string(),
        "-10".to_string(),
        "10".to_string(),
        "10".to_string(),
    ]);
    input.limit = Some(5);
    assert_eq!(
        wire(input),
        "{\"bbox\":[-10,-10,10,10],\"collections\":[\"landsat\"],\"limit\":5}"
    );
}
