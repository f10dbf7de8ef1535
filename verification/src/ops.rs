//! The catalog call surface: one planned call per capability.
//!
//! Each function here decides a whole catalog operation — procedure name,
//! parameter order, declared result shape — and nothing else; the executor
//! runs the plan and [`crate::invoke::decode`] reads the outcome.  Batch
//! inputs are rejected here, before any plan exists, so a malformed batch
//! can never cost a connection.

use vstd::prelude::*;

use crate::error::Error;
use crate::invoke::{Param, ResultShape, StatementPlan, plan_procedure, stmt_text_of};
use crate::json::JsonValue;

verus! {

/// The statement every new physical connection runs once, putting the
/// catalog's private schema on the session search path; plans rely on it
/// and leave procedure names unqualified.
pub fn session_setup_statement() -> (r: String)
    ensures
        r@ == "SET search_path = pgstac, public"@,
{
    "SET search_path = pgstac, public".to_owned()
}

/// Plans the catalog version query.
pub fn get_version() -> (r: StatementPlan)
    ensures
        r.sql@ == stmt_text_of("get_version"@, 0),
        r.params@ == Seq::<Param>::empty(),
        r.shape == ResultShape::Scalar,
{
    let params: Vec<Param> = Vec::new();
    plan_procedure("get_version", params, ResultShape::Scalar)
}

/// Plans an upsert of one named catalog setting.
pub fn set_setting(key: String, value: String) -> (r: StatementPlan)
    ensures
        r.sql@
            == "INSERT INTO pgstac_settings (name, value) VALUES ($1, $2) ON CONFLICT ON CONSTRAINT pgstac_settings_pkey DO UPDATE SET value = excluded.value;"@,
        r.params@ == seq![Param::Text(key), Param::Text(value)],
        r.shape == ResultShape::Void,
{
    let mut params: Vec<Param> = Vec::new();
    params.push(Param::Text(key));
    params.push(Param::Text(value));
    proof {
        assert(params@ =~= seq![Param::Text(key), Param::Text(value)]);
    }
    StatementPlan {
        sql: "INSERT INTO pgstac_settings (name, value) VALUES ($1, $2) ON CONFLICT ON CONSTRAINT pgstac_settings_pkey DO UPDATE SET value = excluded.value;".to_owned(),
        params,
        shape: ResultShape::Void,
        result_column: String::new(),
    }
}

/// Plans the bulk read of every collection.
pub fn all_collections() -> (r: StatementPlan)
    ensures
        r.sql@ == stmt_text_of("all_collections"@, 0),
        r.params@ == Seq::<Param>::empty(),
        r.shape == ResultShape::JsonScalar,
{
    let params: Vec<Param> = Vec::new();
    plan_procedure("all_collections", params, ResultShape::JsonScalar)
}

/// Plans a read of one collection by id; an absent id decodes to "not
/// found", never to an error.
pub fn get_collection(id: String) -> (r: StatementPlan)
    ensures
        r.sql@ == stmt_text_of("get_collection"@, 1),
        r.params@ == seq![Param::Text(id)],
        r.shape == ResultShape::OptionalJson,
{
    let mut params: Vec<Param> = Vec::new();
    params.push(Param::Text(id));
    proof {
        assert(params@ =~= seq![Param::Text(id)]);
    }
    plan_procedure("get_collection", params, ResultShape::OptionalJson)
}

/// Plans the creation of one collection document, which must be a JSON
/// object.
pub fn create_collection(collection: JsonValue) -> (r: Result<StatementPlan, Error>)
    ensures
        r is Ok <==> collection is Object,
        (r matches Ok(plan) ==> plan.sql@ == stmt_text_of("create_collection"@, 1)
            && plan.params@ == seq![Param::Json(collection)] && plan.shape
            == ResultShape::Void),
        (r matches Err(e) ==> e is Validation),
{
    plan_document_op("create_collection", collection)
}

/// Plans an update of one collection document, which must be a JSON
/// object.
pub fn update_collection(collection: JsonValue) -> (r: Result<StatementPlan, Error>)
    ensures
        r is Ok <==> collection is Object,
        (r matches Ok(plan) ==> plan.sql@ == stmt_text_of("update_collection"@, 1)
            && plan.params@ == seq![Param::Json(collection)] && plan.shape
            == ResultShape::Void),
        (r matches Err(e) ==> e is Validation),
{
    plan_document_op("update_collection", collection)
}

/// Plans an upsert of one collection document, which must be a JSON
/// object.
pub fn upsert_collection(collection: JsonValue) -> (r: Result<StatementPlan, Error>)
    ensures
        r is Ok <==> collection is Object,
        (r matches Ok(plan) ==> plan.sql@ == stmt_text_of("upsert_collection"@, 1)
            && plan.params@ == seq![Param::Json(collection)] && plan.shape
            == ResultShape::Void),
        (r matches Err(e) ==> e is Validation),
{
    plan_document_op("upsert_collection", collection)
}

/// Plans the deletion of one collection by id.
pub fn delete_collection(id: String) -> (r: StatementPlan)
    ensures
        r.sql@ == stmt_text_of("delete_collection"@, 1),
        r.params@ == seq![Param::Text(id)],
        r.shape == ResultShape::Void,
{
    let mut params: Vec<Param> = Vec::new();
    params.push(Param::Text(id));
    proof {
        assert(params@ =~= seq![Param::Text(id)]);
    }
    plan_procedure("delete_collection", params, ResultShape::Void)
}

/// Plans the recomputation of every collection's extents.
pub fn update_collection_extents() -> (r: StatementPlan)
    ensures
        r.sql@ == stmt_text_of("update_collection_extents"@, 0),
        r.params@ == Seq::<Param>::empty(),
        r.shape == ResultShape::Void,
{
    let params: Vec<Param> = Vec::new();
    plan_procedure("update_collection_extents", params, ResultShape::Void)
}

/// Plans a read of one item by id, optionally constrained to a collection;
/// an absent id decodes to "not found", never to an error.
pub fn get_item(id: String, collection_id: Option<String>) -> (r: StatementPlan)
    ensures
        r.sql@ == stmt_text_of("get_item"@, 2),
        r.params@ == seq![Param::Text(id), Param::NullableText(collection_id)],
        r.shape == ResultShape::OptionalJson,
{
    let mut params: Vec<Param> = Vec::new();
    params.push(Param::Text(id));
    params.push(Param::NullableText(collection_id));
    proof {
        assert(params@ =~= seq![Param::Text(id), Param::NullableText(collection_id)]);
    }
    plan_procedure("get_item", params, ResultShape::OptionalJson)
}

/// Plans the creation of one item document, which must be a JSON object.
pub fn create_item(item: JsonValue) -> (r: Result<StatementPlan, Error>)
    ensures
        r is Ok <==> item is Object,
        (r matches Ok(plan) ==> plan.sql@ == stmt_text_of("create_item"@, 1) && plan.params@
            == seq![Param::Json(item)] && plan.shape == ResultShape::Void),
        (r matches Err(e) ==> e is Validation),
{
    plan_document_op("create_item", item)
}

/// Plans the creation of a batch of items; anything but a JSON array is
/// rejected here, before any connection could be acquired.
pub fn create_items(items: JsonValue) -> (r: Result<StatementPlan, Error>)
    ensures
        r is Ok <==> items is Array,
        (r matches Ok(plan) ==> plan.sql@ == stmt_text_of("create_items"@, 1) && plan.params@
            == seq![Param::Json(items)] && plan.shape == ResultShape::Void),
        (r matches Err(e) ==> e is Validation),
{
    plan_batch_op("create_items", items)
}

/// Plans an update of one item document, which must be a JSON object.
pub fn update_item(item: JsonValue) -> (r: Result<StatementPlan, Error>)
    ensures
        r is Ok <==> item is Object,
        (r matches Ok(plan) ==> plan.sql@ == stmt_text_of("update_item"@, 1) && plan.params@
            == seq![Param::Json(item)] && plan.shape == ResultShape::Void),
        (r matches Err(e) ==> e is Validation),
{
    plan_document_op("update_item", item)
}

/// Plans an upsert of one item document, which must be a JSON object.
pub fn upsert_item(item: JsonValue) -> (r: Result<StatementPlan, Error>)
    ensures
        r is Ok <==> item is Object,
        (r matches Ok(plan) ==> plan.sql@ == stmt_text_of("upsert_item"@, 1) && plan.params@
            == seq![Param::Json(item)] && plan.shape == ResultShape::Void),
        (r matches Err(e) ==> e is Validation),
{
    plan_document_op("upsert_item", item)
}

/// Plans an upsert of a batch of items; anything but a JSON array is
/// rejected here, before any connection could be acquired.
pub fn upsert_items(items: JsonValue) -> (r: Result<StatementPlan, Error>)
    ensures
        r is Ok <==> items is Array,
        (r matches Ok(plan) ==> plan.sql@ == stmt_text_of("upsert_items"@, 1) && plan.params@
            == seq![Param::Json(items)] && plan.shape == ResultShape::Void),
        (r matches Err(e) ==> e is Validation),
{
    plan_batch_op("upsert_items", items)
}

/// Plans the deletion of one item by id, optionally constrained to a
/// collection.
pub fn delete_item(id: String, collection_id: Option<String>) -> (r: StatementPlan)
    ensures
        r.sql@ == stmt_text_of("delete_item"@, 2),
        r.params@ == seq![Param::Text(id), Param::NullableText(collection_id)],
        r.shape == ResultShape::Void,
{
    let mut params: Vec<Param> = Vec::new();
    params.push(Param::Text(id));
    params.push(Param::NullableText(collection_id));
    proof {
        assert(params@ =~= seq![Param::Text(id), Param::NullableText(collection_id)]);
    }
    plan_procedure("delete_item", params, ResultShape::Void)
}

/// Plans a search: the canonical descriptor, serialized as its canonical
/// wire object, as the one parameter of the search procedure, with a
/// JSON result.
pub fn search(descriptor: crate::search::SearchDescriptor) -> (r: StatementPlan)
    ensures
        r.sql@ == stmt_text_of("search"@, 1),
        r.params@.len() == 1,
        (r.params@[0] matches Param::Json(v) && crate::search::descriptor_json_matches(
            descriptor,
            v,
        )),
        r.shape == ResultShape::JsonScalar,
        r.result_column@ == "search"@,
{
    let body = crate::search::descriptor_to_json(descriptor);
    let mut params: Vec<Param> = Vec::new();
    params.push(Param::Json(body));
    plan_procedure("search", params, ResultShape::JsonScalar)
}

/// Plans a one-object-parameter mutation: the document must be a JSON
/// object.
fn plan_document_op(name: &str, doc: JsonValue) -> (r: Result<StatementPlan, Error>)
    ensures
        r is Ok <==> doc is Object,
        (r matches Ok(plan) ==> plan.sql@ == stmt_text_of(name@, 1) && plan.params@ == seq![
            Param::Json(doc),
        ] && plan.shape == ResultShape::Void),
        (r matches Err(e) ==> e is Validation),
{
    if !doc.is_object() {
        return Err(Error::Validation("document is not an object".to_owned()));
    }
    let mut params: Vec<Param> = Vec::new();
    params.push(Param::Json(doc));
    proof {
        assert(params@ =~= seq![Param::Json(doc)]);
    }
    Ok(plan_procedure(name, params, ResultShape::Void))
}

/// Plans a one-array-parameter batch mutation: the batch must be a JSON
/// array.
fn plan_batch_op(name: &str, items: JsonValue) -> (r: Result<StatementPlan, Error>)
    ensures
        r is Ok <==> items is Array,
        (r matches Ok(plan) ==> plan.sql@ == stmt_text_of(name@, 1) && plan.params@ == seq![
            Param::Json(items),
        ] && plan.shape == ResultShape::Void),
        (r matches Err(e) ==> e is Validation),
{
    if !items.is_array() {
        return Err(Error::Validation("items is not a list".to_owned()));
    }
    let mut params: Vec<Param> = Vec::new();
    params.push(Param::Json(items));
    proof {
        assert(params@ =~= seq![Param::Json(items)]);
    }
    Ok(plan_procedure(name, params, ResultShape::Void))
}

} // verus!
