//! End-to-end scenarios against a scripted catalog: the library plans
//! every call and decodes every outcome; the executor here plays the
//! database, exactly as the surrounding binary would play the pool.

use pgstacrs::error::Error;
use pgstacrs::invoke::{decode, CallOutcome, CallValue, Cell, Param, ResultShape, StatementPlan};
use pgstacrs::json::{to_text, JsonValue};
use pgstacrs::ops;
use pgstacrs::search::{normalize, SearchInput, StringOrList};

fn clone_json(v: &JsonValue) -> JsonValue {
    match v {
        JsonValue::Null => JsonValue::Null,
        JsonValue::Bool(b) => JsonValue::Bool(*b),
        JsonValue::Num(s) => JsonValue::Num(s.clone()),
        JsonValue::Str(s) => JsonValue::Str(s.clone()),
        JsonValue::Array(items) => JsonValue::Array(items.iter().map(clone_json).collect()),
        JsonValue::Object(ms) => JsonValue::Object(
            ms.iter().map(|(k, v)| (k.clone(), clone_json(v))).collect(),
        ),
    }
}

fn object_id(v: &JsonValue) -> Option<String> {
    if let JsonValue::Object(ms) = v {
        for (k, val) in ms {
            if k == "id" {
                if let JsonValue::Str(s) = val {
                    return Some(s.clone());
                }
            }
        }
    }
    None
}

/// A scripted catalog: one collection store and an acquire counter.
struct FakeCatalog {
    collections: Vec<(String, JsonValue)>,
    acquires: usize,
}

impl FakeCatalog {
    fn new() -> FakeCatalog {
        FakeCatalog { collections: Vec::new(), acquires: 0 }
    }

    /// Executes one plan the way the pooled executor would: acquire,
    /// run, hand the single column back.
    fn execute(&mut self, plan: &StatementPlan) -> CallOutcome {
        self.acquires += 1;
        match plan.sql.as_str() {
            "SELECT * FROM create_collection($1)" => {
                let doc = match &plan.params[0] {
                    Param::Json(v) => clone_json(v),
                    other => panic!("unexpected parameter {:?}", other),
                };
                match object_id(&doc) {
                    Some(id) => {
                        if self.collections.iter().any(|(k, _)| *k == id) {
                            return CallOutcome::StatementFailure(format!(
                                "collection {} already exists",
                                id
                            ));
                        }
                        self.collections.push((id, doc));
                        CallOutcome::Row(Cell::Null)
                    }
                    None => CallOutcome::StatementFailure("collection has no id".to_string()),
                }
            }
            "SELECT * FROM get_collection($1)" => {
                let id = match &plan.params[0] {
                    Param::Text(s) => s.clone(),
                    other => panic!("unexpected parameter {:?}", other),
                };
                match self.collections.iter().find(|(k, _)| *k == id) {
                    Some((_, doc)) => CallOutcome::Row(Cell::Json(clone_json(doc))),
                    None => CallOutcome::Row(Cell::Null),
                }
            }
            "SELECT * FROM delete_collection($1)" => {
                let id = match &plan.params[0] {
                    Param::Text(s) => s.clone(),
                    other => panic!("unexpected parameter {:?}", other),
                };
                self.collections.retain(|(k, _)| *k != id);
                CallOutcome::Row(Cell::Null)
            }
            "SELECT * FROM get_version()" => {
                CallOutcome::Row(Cell::Text("0.9.6".to_string()))
            }
            "SELECT * FROM search($1)" => {
                let features: Vec<JsonValue> = (0..2)
                    .map(|i| {
                        JsonValue::Object(vec![(
                            "id".to_string(),
                            JsonValue::Str(format!("item-{}", i)),
                        )])
                    })
                    .collect();
                CallOutcome::Row(Cell::Json(JsonValue::Object(vec![(
                    "features".to_string(),
                    JsonValue::Array(features),
                )])))
            }
            other => panic!("unexpected statement {:?}", other),
        }
    }
}

#[test]
fn collection_lifecycle_round_trips() {
    let mut catalog = FakeCatalog::new();

    let doc = JsonValue::Object(vec![
        ("id".to_string(), JsonValue::Str("landsat".to_string())),
        ("description".to_string(), JsonValue::Str("a catalog".to_string())),
    ]);
    let plan = ops::create_collection(doc).expect("object accepted");
    let outcome = catalog.execute(&plan);
    assert!(matches!(decode(plan.shape, outcome), Ok(CallValue::Done)));

    let plan = ops::get_collection("landsat".to_string());
    let outcome = catalog.execute(&plan);
    match decode(plan.shape, outcome) {
        Ok(CallValue::OptJson(Some(found))) => {
            assert_eq!(object_id(&found).as_deref(), Some("landsat"));
        }
        other => panic!("expected the stored collection, got {:?}", other),
    }

    let plan = ops::delete_collection("landsat".to_string());
    let outcome = catalog.execute(&plan);
    assert!(matches!(decode(plan.shape, outcome), Ok(CallValue::Done)));

    let plan = ops::get_collection("landsat".to_string());
    let outcome = catalog.execute(&plan);
    match decode(plan.shape, outcome) {
        Ok(CallValue::OptJson(None)) => {}
        other => panic!("deleted collection should be absent, got {:?}", other),
    }
}

#[test]
fn missing_collection_is_absent_never_an_error() {
    let mut catalog = FakeCatalog::new();
    let plan = ops::get_collection("nonexistent".to_string());
    let outcome = catalog.execute(&plan);
    match decode(plan.shape, outcome) {
        Ok(CallValue::OptJson(None)) => {}
        other => panic!("a missing id must decode to absent, got {:?}", other),
    }
}

#[test]
fn rejected_batch_never_costs_a_connection() {
    let mut catalog = FakeCatalog::new();
    match ops::create_items(JsonValue::Object(Vec::new())) {
        Err(Error::Validation(_)) => {}
        other => panic!("non-array batch should be rejected, got {:?}", other),
    }
    match ops::upsert_items(JsonValue::Str("not a list".to_string())) {
        Err(Error::Validation(_)) => {}
        other => panic!("non-array batch should be rejected, got {:?}", other),
    }
    assert_eq!(catalog.acquires, 0, "no plan, no acquire");
    let _ = &mut catalog;
}

#[test]
fn search_carries_the_descriptor_and_bounds_the_page() {
    let mut catalog = FakeCatalog::new();
    let input = SearchInput {
        collections: Some(StringOrList::List(vec!["landsat".to_string()])),
        ids: None,
        intersects: None,
        bbox: Some(vec![
            "-10".to_string(),
            "-10".to_string(),
            "10".to_string(),
            "10".to_string(),
        ]),
        datetime: None,
        incl: None,
        excl: None,
        sortby: None,
        filter: None,
        query: None,
        limit: Some(5),
    };
    let descriptor = normalize(input).expect("valid search input");
    let plan = ops::search(descriptor);
    assert_eq!(plan.sql, "SELECT * FROM search($1)");
    assert_eq!(plan.shape, ResultShape::JsonScalar);
    match &plan.params[0] {
        Param::Json(body) => assert_eq!(
            to_text(body),
            "{\"bbox\":[-10,-10,10,10],\"collections\":[\"landsat\"],\"limit\":5}"
        ),
        other => panic!("search takes one JSON parameter, got {:?}", other),
    }
    let outcome = catalog.execute(&plan);
    match decode(plan.shape, outcome) {
        Ok(CallValue::Json(JsonValue::Object(ms))) => {
            let features = ms
                .iter()
                .find(|(k, _)| k == "features")
                .map(|(_, v)| v)
                .expect("a page has features");
            match features {
                JsonValue::Array(items) => assert!(items.len() <= 5),
                other => panic!("features should be an array, got {:?}", other),
            }
        }
        other => panic!("search should decode to JSON, got {:?}", other),
    }
}

#[test]
fn version_scalar_round_trips() {
    let mut catalog = FakeCatalog::new();
    let plan = ops::get_version();
    let outcome = catalog.execute(&plan);
    match decode(plan.shape, outcome) {
        Ok(CallValue::Text(v)) => assert_eq!(v, "0.9.6"),
        other => panic!("version should be text, got {:?}", other),
    }
}
