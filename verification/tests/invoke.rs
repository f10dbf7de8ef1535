//! The invocation layer: planned statements and outcome decoding.

use pgstacrs::error::Error;
use pgstacrs::invoke::{decode, CallOutcome, CallValue, Cell, Param, ResultShape};
use pgstacrs::json::JsonValue;
use pgstacrs::ops;

#[test]
fn planned_statements_have_one_placeholder_per_parameter() {
    assert_eq!(ops::get_version().sql, "SELECT * FROM get_version()");
    assert_eq!(ops::all_collections().sql, "SELECT * FROM all_collections()");
    assert_eq!(
        ops::get_collection("landsat".to_string()).sql,
        "SELECT * FROM get_collection($1)"
    );
    assert_eq!(
        ops::delete_collection("landsat".to_string()).sql,
        "SELECT * FROM delete_collection($1)"
    );
    assert_eq!(
        ops::get_item("a".to_string(), None).sql,
        "SELECT * FROM get_item($1, $2)"
    );
    assert_eq!(
        ops::delete_item("a".to_string(), Some("c".to_string())).sql,
        "SELECT * FROM delete_item($1, $2)"
    );
    assert_eq!(
        ops::update_collection_extents().sql,
        "SELECT * FROM update_collection_extents()"
    );
}

#[test]
fn planned_statements_carry_parameters_in_order() {
    let plan = ops::get_item("an-item".to_string(), Some("a-collection".to_string()));
    assert_eq!(plan.params.len(), 2);
    assert!(matches!(&plan.params[0], Param::Text(s) if s == "an-item"));
    assert!(matches!(&plan.params[1], Param::NullableText(Some(s)) if s == "a-collection"));
    assert_eq!(plan.shape, ResultShape::OptionalJson);
    assert_eq!(plan.result_column, "get_item");
}

#[test]
fn set_setting_plans_the_settings_upsert() {
    let plan = ops::set_setting("context".to_string(), "on".to_string());
    assert_eq!(
        plan.sql,
        "INSERT INTO pgstac_settings (name, value) VALUES ($1, $2) ON CONFLICT ON CONSTRAINT pgstac_settings_pkey DO UPDATE SET value = excluded.value;"
    );
    assert_eq!(plan.shape, ResultShape::Void);
}

#[test]
fn session_setup_selects_the_catalog_schema() {
    assert_eq!(ops::session_setup_statement(), "SET search_path = pgstac, public");
}

#[test]
fn mutation_shapes_are_void_and_reads_optional() {
    let doc = JsonValue::Object(vec![("id".to_string(), JsonValue::Str("x".to_string()))]);
    let plan = ops::create_collection(doc).expect("object should be accepted");
    assert_eq!(plan.shape, ResultShape::Void);
    assert_eq!(plan.sql, "SELECT * FROM create_collection($1)");
    assert_eq!(ops::get_collection("x".to_string()).shape, ResultShape::OptionalJson);
    assert_eq!(ops::get_version().shape, ResultShape::Scalar);
    assert_eq!(ops::all_collections().shape, ResultShape::JsonScalar);
}

#[test]
fn non_object_documents_are_rejected() {
    match ops::create_item(JsonValue::Array(Vec::new())) {
        Err(Error::Validation(_)) => {}
        other => panic!("non-object item should be rejected, got {:?}", other),
    }
    match ops::upsert_collection(JsonValue::Str("nope".to_string())) {
        Err(Error::Validation(_)) => {}
        other => panic!("non-object collection should be rejected, got {:?}", other),
    }
}

#[test]
fn batch_operations_reject_non_arrays() {
    for bad in [
        JsonValue::Object(Vec::new()),
        JsonValue::Str("items".to_string()),
        JsonValue::Num("3".to_string()),
        JsonValue::Null,
    ] {
        match ops::create_items(bad) {
            Err(Error::Validation(_)) => {}
            other => panic!("non-array batch should be rejected, got {:?}", other),
        }
    }
    match ops::upsert_items(JsonValue::Bool(true)) {
        Err(Error::Validation(_)) => {}
        other => panic!("non-array batch should be rejected, got {:?}", other),
    }
    let ok = ops::upsert_items(JsonValue::Array(Vec::new())).expect("array accepted");
    assert_eq!(ok.sql, "SELECT * FROM upsert_items($1)");
}

#[test]
fn absent_row_decodes_to_not_found_not_an_error() {
    match decode(ResultShape::OptionalJson, CallOutcome::Row(Cell::Null)) {
        Ok(CallValue::OptJson(None)) => {}
        other => panic!("null should mean not found, got {:?}", other),
    }
}

#[test]
fn present_row_decodes_to_its_json() {
    let doc = JsonValue::Object(vec![("id".to_string(), JsonValue::Str("x".to_string()))]);
    match decode(ResultShape::OptionalJson, CallOutcome::Row(Cell::Json(doc))) {
        Ok(CallValue::OptJson(Some(JsonValue::Object(ms)))) => {
            assert_eq!(ms.len(), 1);
            assert_eq!(ms[0].0, "id");
        }
        other => panic!("json row should decode, got {:?}", other),
    }
}

#[test]
fn scalar_decodes_text_and_rejects_json() {
    match decode(ResultShape::Scalar, CallOutcome::Row(Cell::Text("0.9.6".to_string()))) {
        Ok(CallValue::Text(v)) => assert_eq!(v, "0.9.6"),
        other => panic!("text should decode, got {:?}", other),
    }
    match decode(ResultShape::Scalar, CallOutcome::Row(Cell::Json(JsonValue::Null))) {
        Err(Error::Database(_)) => {}
        other => panic!("shape mismatch should be a database error, got {:?}", other),
    }
}

#[test]
fn void_discards_whatever_came_back() {
    match decode(ResultShape::Void, CallOutcome::Row(Cell::Text("ignored".to_string()))) {
        Ok(CallValue::Done) => {}
        other => panic!("void should succeed, got {:?}", other),
    }
}

#[test]
fn failure_phases_map_to_distinct_error_kinds() {
    match decode(
        ResultShape::Void,
        CallOutcome::AcquireTimeout("no connection in 30s".to_string()),
    ) {
        Err(Error::Pool(m)) => assert_eq!(m, "no connection in 30s"),
        other => panic!("timeout should be a pool error, got {:?}", other),
    }
    match decode(
        ResultShape::Void,
        CallOutcome::AcquireFailure("tls handshake failed".to_string()),
    ) {
        Err(Error::Connectivity(m)) => assert_eq!(m, "tls handshake failed"),
        other => panic!("acquire failure should be connectivity, got {:?}", other),
    }
    match decode(
        ResultShape::JsonScalar,
        CallOutcome::StatementFailure("duplicate key".to_string()),
    ) {
        Err(Error::Database(m)) => assert_eq!(m, "duplicate key"),
        other => panic!("statement failure should be a database error, got {:?}", other),
    }
}

#[test]
fn error_messages_carry_their_text_verbatim() {
    let e = Error::Database("relation does not exist".to_string());
    assert_eq!(e.message(), "relation does not exist");
}
