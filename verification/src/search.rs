//! The search parameter normalizer.
//!
//! Callers hand in a set of independently optional, union-typed inputs —
//! bare string or list, text form or structured form — and get back
//! exactly one canonical [`SearchDescriptor`], or one precise validation
//! error.  Everything here is pure and synchronous: identical inputs give
//! identical descriptors, and nothing downstream ever branches on which
//! surface form the caller used.

use vstd::prelude::*;

use crate::cql2::{Expr, ExprView, parse_filter_text, parse_filter_json, parse_filter_text_spec,
    parse_filter_json_spec};
use crate::error::Error;
use crate::geometry::{Geometry, GeometryView, parse_geometry_text, parse_geometry_json,
    parse_geometry_text_spec, parse_geometry_json_spec};
use crate::json::JsonValue;

verus! {

/// A value a caller may give as one bare string or as a list of strings.
#[derive(Debug)]
pub enum StringOrList {
    /// A bare string, treated as a single-element list.
    Str(String),
    /// A list, used as given.
    List(Vec<String>),
}

/// A value a caller may give as domain-specific text or as structured
/// JSON.
#[derive(Debug)]
pub enum StringOrJson {
    /// The text surface form.
    Text(String),
    /// The structured surface form.
    Structured(JsonValue),
}

/// [`StringOrList`] at the specification level.
pub enum SolView {
    /// A bare string.
    Str(Seq<char>),
    /// A list.
    List(Seq<Seq<char>>),
}

impl View for StringOrList {
    type V = SolView;

    open spec fn view(&self) -> SolView {
        match self {
            StringOrList::Str(s) => SolView::Str(s@),
            StringOrList::List(l) => SolView::List(l@.map_values(|s: String| s@)),
        }
    }
}

/// One sort order entry.
#[derive(Debug)]
pub struct SortTerm {
    /// The field to sort by.
    pub field: String,
    /// Whether the direction is descending; the default is ascending.
    pub descending: bool,
}

impl View for SortTerm {
    type V = (Seq<char>, bool);

    open spec fn view(&self) -> (Seq<char>, bool) {
        (self.field@, self.descending)
    }
}

/// A field projection: which paths to keep and which to drop.
#[derive(Debug)]
pub struct FieldsClause {
    /// Paths kept in results.
    pub incl: Vec<String>,
    /// Paths dropped from results.
    pub excl: Vec<String>,
}

impl View for FieldsClause {
    type V = (Seq<Seq<char>>, Seq<Seq<char>>);

    open spec fn view(&self) -> (Seq<Seq<char>>, Seq<Seq<char>>) {
        (self.incl@.map_values(|s: String| s@), self.excl@.map_values(|s: String| s@))
    }
}

/// Everything a caller may hand to [`normalize`], every field optional.
#[derive(Debug)]
pub struct SearchInput {
    /// Collection ids, string or list.
    pub collections: Option<StringOrList>,
    /// Item ids, string or list.
    pub ids: Option<StringOrList>,
    /// A spatial intersection filter, text or structured.
    pub intersects: Option<StringOrJson>,
    /// A bounding box: the coordinate literals, flat, axis order
    /// longitude, latitude, and optionally altitude.
    pub bbox: Option<Vec<String>>,
    /// An instant or interval, passed through uninterpreted.
    pub datetime: Option<String>,
    /// Projection paths to keep, string or list.
    pub incl: Option<StringOrList>,
    /// Projection paths to drop, string or list.
    pub excl: Option<StringOrList>,
    /// Sort entries, string or list; each token an optionally signed
    /// field name.
    pub sortby: Option<StringOrList>,
    /// A boolean filter expression, text or structured.
    pub filter: Option<StringOrJson>,
    /// Free-form additional property query, which must be a JSON object.
    pub query: Option<JsonValue>,
    /// The page size.
    pub limit: Option<u64>,
}

/// The one canonical, self-describing search descriptor: it alone
/// determines the resulting database call.
#[derive(Debug)]
pub struct SearchDescriptor {
    /// Collection ids; absent and empty collapse to absent.
    pub collections: Option<Vec<String>>,
    /// Item ids; absent and empty collapse to absent.
    pub ids: Option<Vec<String>>,
    /// A validated bounding box of four or six coordinates, exactly as
    /// given.
    pub bbox: Option<Vec<String>>,
    /// The instant or interval, uninterpreted.
    pub datetime: Option<String>,
    /// The canonical geometry.
    pub intersects: Option<Geometry>,
    /// The projection; absent when both sides ended empty.
    pub fields: Option<FieldsClause>,
    /// The sort order, in the order given.
    pub sortby: Option<Vec<SortTerm>>,
    /// The canonical filter expression.
    pub filter: Option<Expr>,
    /// The free-form property query object.
    pub query: Option<JsonValue>,
    /// The page size.
    pub limit: Option<u64>,
}

/// [`SearchDescriptor`] at the specification level.
pub struct DescView {
    /// See [`SearchDescriptor::collections`].
    pub collections: Option<Seq<Seq<char>>>,
    /// See [`SearchDescriptor::ids`].
    pub ids: Option<Seq<Seq<char>>>,
    /// See [`SearchDescriptor::bbox`].
    pub bbox: Option<Seq<Seq<char>>>,
    /// See [`SearchDescriptor::datetime`].
    pub datetime: Option<Seq<char>>,
    /// See [`SearchDescriptor::intersects`].
    pub intersects: Option<GeometryView>,
    /// See [`SearchDescriptor::fields`].
    pub fields: Option<(Seq<Seq<char>>, Seq<Seq<char>>)>,
    /// See [`SearchDescriptor::sortby`].
    pub sortby: Option<Seq<(Seq<char>, bool)>>,
    /// See [`SearchDescriptor::filter`].
    pub filter: Option<ExprView>,
    /// See [`SearchDescriptor::query`].
    pub query: Option<JsonValue>,
    /// See [`SearchDescriptor::limit`].
    pub limit: Option<u64>,
}

/// The view of an optional string list.
pub open spec fn strings_view(v: Option<Vec<String>>) -> Option<Seq<Seq<char>>> {
    match v {
        Some(l) => Some(l@.map_values(|s: String| s@)),
        None => None,
    }
}

impl View for SearchDescriptor {
    type V = DescView;

    open spec fn view(&self) -> DescView {
        DescView {
            collections: strings_view(self.collections),
            ids: strings_view(self.ids),
            bbox: strings_view(self.bbox),
            datetime: match self.datetime {
                Some(s) => Some(s@),
                None => None,
            },
            intersects: match self.intersects {
                Some(g) => Some(g@),
                None => None,
            },
            fields: match self.fields {
                Some(f) => Some(f@),
                None => None,
            },
            sortby: match self.sortby {
                Some(l) => Some(l@.map_values(|t: SortTerm| t@)),
                None => None,
            },
            filter: match self.filter {
                Some(e) => Some(e@),
                None => None,
            },
            query: self.query,
            limit: self.limit,
        }
    }
}

// ---------------------------------------------------------------------
// Component normalization, at the specification level
// ---------------------------------------------------------------------

/// An id set: a bare string becomes the single-element list, a list is
/// used as given, and an empty list collapses to absent — on the wire an
/// empty id set and no id set mean the same thing.
pub open spec fn norm_sol(x: Option<SolView>) -> Option<Seq<Seq<char>>> {
    match x {
        None => None,
        Some(SolView::Str(s)) => Some(seq![s]),
        Some(SolView::List(l)) => if l.len() == 0 {
            None
        } else {
            Some(l)
        },
    }
}

/// A projection side flattened: absent means empty.
pub open spec fn flat_sol(x: Option<SolView>) -> Seq<Seq<char>> {
    match x {
        None => Seq::empty(),
        Some(SolView::Str(s)) => seq![s],
        Some(SolView::List(l)) => l,
    }
}

/// The projection clause: entirely absent when both sides end empty,
/// never an empty-but-present clause.
pub open spec fn norm_fields(inc: Option<SolView>, exc: Option<SolView>) -> Option<
    (Seq<Seq<char>>, Seq<Seq<char>>),
> {
    let i = flat_sol(inc);
    let e = flat_sol(exc);
    if i.len() == 0 && e.len() == 0 {
        None
    } else {
        Some((i, e))
    }
}

/// The bounding box: four or six coordinates pass through exactly as
/// given, in order; any other arity is rejected, never truncated.
pub open spec fn norm_bbox(b: Option<Seq<Seq<char>>>) -> Option<Option<Seq<Seq<char>>>> {
    match b {
        None => Some(None),
        Some(l) => if l.len() == 4 || l.len() == 6 {
            Some(Some(l))
        } else {
            None
        },
    }
}

/// One sort token: an optional `+` or `-` sign, then a nonempty field
/// name.  An empty field is the unparsable token and is rejected, never
/// dropped.
pub open spec fn parse_sort_token(s: Seq<char>) -> Option<(Seq<char>, bool)> {
    if s.len() == 0 {
        None
    } else if s[0] == '+' {
        if s.len() == 1 {
            None
        } else {
            Some((s.drop_first(), false))
        }
    } else if s[0] == '-' {
        if s.len() == 1 {
            None
        } else {
            Some((s.drop_first(), true))
        }
    } else {
        Some((s, false))
    }
}

/// All sort tokens of `l[i..]`, each parsed, none dropped.
pub open spec fn parse_sort_tokens(l: Seq<Seq<char>>, i: int) -> Option<Seq<(Seq<char>, bool)>>
    decreases l.len() - i,
{
    if i >= l.len() {
        Some(Seq::empty())
    } else if i < 0 {
        None
    } else {
        match parse_sort_token(l[i]) {
            None => None,
            Some(t) => match parse_sort_tokens(l, i + 1) {
                None => None,
                Some(ts) => Some(seq![t] + ts),
            },
        }
    }
}

/// The sort order: a bare string is one token, a list is used in order,
/// and an empty list collapses to absent.
pub open spec fn norm_sortby(x: Option<SolView>) -> Option<Option<Seq<(Seq<char>, bool)>>> {
    match x {
        None => Some(None),
        Some(v) => {
            let l = flat_sol(Some(v));
            if l.len() == 0 {
                Some(None)
            } else {
                match parse_sort_tokens(l, 0) {
                    None => None,
                    Some(ts) => Some(Some(ts)),
                }
            }
        },
    }
}

/// The filter, from whichever surface form was given, canonicalized.
pub open spec fn norm_filter(x: Option<StringOrJson>) -> Option<Option<ExprView>> {
    match x {
        None => Some(None),
        Some(StringOrJson::Text(s)) => match parse_filter_text_spec(s@) {
            None => None,
            Some(e) => Some(Some(e)),
        },
        Some(StringOrJson::Structured(v)) => match parse_filter_json_spec(v) {
            None => None,
            Some(e) => Some(Some(e)),
        },
    }
}

/// The geometry, from whichever surface form was given, canonicalized
/// eagerly so malformed geometry never reaches the catalog.
pub open spec fn norm_intersects(x: Option<StringOrJson>) -> Option<Option<GeometryView>> {
    match x {
        None => Some(None),
        Some(StringOrJson::Text(s)) => match parse_geometry_text_spec(s@) {
            None => None,
            Some(g) => Some(Some(g)),
        },
        Some(StringOrJson::Structured(v)) => match parse_geometry_json_spec(v) {
            None => None,
            Some(g) => Some(Some(g)),
        },
    }
}

/// The free-form property query: a JSON object or nothing.
pub open spec fn norm_query(x: Option<JsonValue>) -> Option<Option<JsonValue>> {
    match x {
        None => Some(None),
        Some(v) => if v is Object {
            Some(Some(v))
        } else {
            None
        },
    }
}

/// The whole normalization: every component in one canonical shape, or
/// nothing when any component is rejected.
pub open spec fn normalize_spec(input: SearchInput) -> Option<DescView> {
    let collections = norm_sol(
        match input.collections {
            Some(x) => Some(x@),
            None => None,
        },
    );
    let ids = norm_sol(
        match input.ids {
            Some(x) => Some(x@),
            None => None,
        },
    );
    let bbox = norm_bbox(strings_view(input.bbox));
    let fields = norm_fields(
        match input.incl {
            Some(x) => Some(x@),
            None => None,
        },
        match input.excl {
            Some(x) => Some(x@),
            None => None,
        },
    );
    let sortby = norm_sortby(
        match input.sortby {
            Some(x) => Some(x@),
            None => None,
        },
    );
    let filter = norm_filter(input.filter);
    let intersects = norm_intersects(input.intersects);
    let query = norm_query(input.query);
    if bbox is None || sortby is None || filter is None || intersects is None || query is None {
        None
    } else {
        Some(
            DescView {
                collections,
                ids,
                bbox: bbox.unwrap(),
                datetime: match input.datetime {
                    Some(s) => Some(s@),
                    None => None,
                },
                intersects: intersects.unwrap(),
                fields,
                sortby: sortby.unwrap(),
                filter: filter.unwrap(),
                query: query.unwrap(),
                limit: input.limit,
            },
        )
    }
}

// ---------------------------------------------------------------------
// The normalizer
// ---------------------------------------------------------------------

/// Exec mirror of [`norm_sol`].
fn norm_sol_exec(x: Option<StringOrList>) -> (r: Option<Vec<String>>)
    ensures
        strings_view(r) == norm_sol(
            match x {
                Option::Some(v) => Some(v@),
                Option::None => None,
            },
        ),
{
    match x {
        Option::None => None,
        Option::Some(StringOrList::Str(s)) => {
            let mut l: Vec<String> = Vec::new();
            let ghost sv = s@;
            l.push(s);
            proof {
                assert(l@.map_values(|s: String| s@) =~= seq![sv]);
            }
            Some(l)
        },
        Option::Some(StringOrList::List(l)) => {
            if l.len() == 0 {
                None
            } else {
                Some(l)
            }
        },
    }
}

/// Exec mirror of [`flat_sol`].
fn flat_sol_exec(x: Option<StringOrList>) -> (r: Vec<String>)
    ensures
        r@.map_values(|s: String| s@) == flat_sol(
            match x {
                Option::Some(v) => Some(v@),
                Option::None => None,
            },
        ),
{
    match x {
        Option::None => {
            let l: Vec<String> = Vec::new();
            proof {
                assert(l@.map_values(|s: String| s@) =~= Seq::<Seq<char>>::empty());
            }
            l
        },
        Option::Some(StringOrList::Str(s)) => {
            let mut l: Vec<String> = Vec::new();
            let ghost sv = s@;
            l.push(s);
            proof {
                assert(l@.map_values(|s: String| s@) =~= seq![sv]);
            }
            l
        },
        Option::Some(StringOrList::List(l)) => l,
    }
}

/// Exec mirror of [`parse_sort_token`].
fn parse_sort_token_exec(s: &String) -> (r: Option<SortTerm>)
    ensures
        (match parse_sort_token(s@) {
            Option::None => r is None,
            Option::Some(t) => r matches Some(term) && term@ == t,
        }),
{
    let len = s.as_str().unicode_len();
    if len == 0 {
        return None;
    }
    let c = s.as_str().get_char(0);
    if c == '+' || c == '-' {
        if len == 1 {
            None
        } else {
            let field = s.as_str().substring_char(1, len).to_owned();
            Some(SortTerm { field, descending: c == '-' })
        }
    } else {
        Some(SortTerm { field: s.clone(), descending: false })
    }
}

/// Exec mirror of [`parse_sort_tokens`].
fn parse_sort_terms(l: &Vec<String>, i: usize) -> (r: Option<Vec<SortTerm>>)
    requires
        i <= l@.len(),
    ensures
        (match parse_sort_tokens(l@.map_values(|s: String| s@), i as int) {
            Option::None => r is None,
            Option::Some(ts) => r matches Some(v) && v@.map_values(|t: SortTerm| t@) == ts,
        }),
    decreases l@.len() - i,
{
    let ghost lv = l@.map_values(|s: String| s@);
    if i >= l.len() {
        let out: Vec<SortTerm> = Vec::new();
        proof {
            assert(out@.map_values(|t: SortTerm| t@) =~= Seq::<(Seq<char>, bool)>::empty());
        }
        Some(out)
    } else {
        proof {
            assert(lv[i as int] == l@[i as int]@);
        }
        match parse_sort_token_exec(&l[i]) {
            Option::None => None,
            Option::Some(term) => {
                match parse_sort_terms(l, i + 1) {
                    Option::None => None,
                    Option::Some(rest) => {
                        let mut out: Vec<SortTerm> = Vec::new();
                        let mut rest = rest;
                        let ghost tv = term@;
                        let ghost restv = rest@.map_values(|t: SortTerm| t@);
                        out.push(term);
                        out.append(&mut rest);
                        proof {
                            assert(out@.map_values(|t: SortTerm| t@) =~= seq![tv] + restv);
                        }
                        Some(out)
                    },
                }
            },
        }
    }
}

/// Normalizes one set of caller inputs into the canonical descriptor, or
/// rejects it with exactly one validation error — a bad bounding-box
/// arity, an unparsable sort token, a malformed filter or geometry in
/// either surface form, or a non-object property query.  Identical
/// inputs always yield the identical descriptor.
pub fn normalize(input: SearchInput) -> (r: Result<SearchDescriptor, Error>)
    ensures
        (match normalize_spec(input) {
            Option::Some(d) => r matches Ok(desc) && desc@ == d,
            Option::None => r matches Err(e) && e is Validation,
        }),
{
    let SearchInput { collections, ids, intersects, bbox, datetime, incl, excl, sortby, filter, query, limit } =
        input;
    let bbox_n: Option<Vec<String>> = match bbox {
        Option::None => None,
        Option::Some(b) => {
            if b.len() == 4 || b.len() == 6 {
                Some(b)
            } else {
                return Err(
                    Error::Validation("bbox must hold exactly 4 or 6 coordinates".to_owned()),
                );
            }
        },
    };
    let collections_n = norm_sol_exec(collections);
    let ids_n = norm_sol_exec(ids);
    let inc_flat = flat_sol_exec(incl);
    let exc_flat = flat_sol_exec(excl);
    let fields_n: Option<FieldsClause> = if inc_flat.len() == 0 && exc_flat.len() == 0 {
        None
    } else {
        Some(FieldsClause { incl: inc_flat, excl: exc_flat })
    };
    let sortby_n: Option<Vec<SortTerm>> = match sortby {
        Option::None => None,
        Option::Some(sol) => {
            let ghost solv = sol@;
            let l = flat_sol_exec(Some(sol));
            if l.len() == 0 {
                None
            } else {
                match parse_sort_terms(&l, 0) {
                    Option::Some(terms) => Some(terms),
                    Option::None => {
                        return Err(
                            Error::Validation("sortby holds an unparsable sort token".to_owned()),
                        );
                    },
                }
            }
        },
    };
    let filter_n: Option<Expr> = match filter {
        Option::None => None,
        Option::Some(StringOrJson::Text(s)) => {
            match parse_filter_text(s.as_str()) {
                Ok(e) => Some(e),
                Err(err) => {
                    return Err(err);
                },
            }
        },
        Option::Some(StringOrJson::Structured(v)) => {
            match parse_filter_json(&v) {
                Ok(e) => Some(e),
                Err(err) => {
                    return Err(err);
                },
            }
        },
    };
    let intersects_n: Option<Geometry> = match intersects {
        Option::None => None,
        Option::Some(StringOrJson::Text(s)) => {
            match parse_geometry_text(s.as_str()) {
                Ok(g) => Some(g),
                Err(err) => {
                    return Err(err);
                },
            }
        },
        Option::Some(StringOrJson::Structured(v)) => {
            match parse_geometry_json(&v) {
                Ok(g) => Some(g),
                Err(err) => {
                    return Err(err);
                },
            }
        },
    };
    let query_n: Option<JsonValue> = match query {
        Option::None => None,
        Option::Some(v) => {
            if v.is_object() {
                Some(v)
            } else {
                return Err(Error::Validation("query must be a JSON object".to_owned()));
            }
        },
    };
    let desc = SearchDescriptor {
        collections: collections_n,
        ids: ids_n,
        bbox: bbox_n,
        datetime,
        intersects: intersects_n,
        fields: fields_n,
        sortby: sortby_n,
        filter: filter_n,
        query: query_n,
        limit,
    };
    proof {
        assert(desc@ == normalize_spec(input).unwrap());
    }
    Ok(desc)
}

// ---------------------------------------------------------------------
// The descriptor on the wire
// ---------------------------------------------------------------------
//
// The serialized descriptor is one JSON object whose members stand in
// alphabetical key order — the order a key-sorting serializer produces —
// with every absent field genuinely absent.  A filter contributes two
// members: the expression itself and the language tag.

/// The projection clause's first member key.
pub open spec fn incl_key() -> Seq<char> {
    seq!['i', 'n', 'c', 'l', 'u', 'd', 'e']
}

/// The projection clause's second member key.
pub open spec fn excl_key() -> Seq<char> {
    seq!['e', 'x', 'c', 'l', 'u', 'd', 'e']
}

/// An array of strings with exactly these texts, in order.
pub open spec fn arr_strs_ok(v: JsonValue, ss: Seq<Seq<char>>) -> bool {
    v matches JsonValue::Array(items) && items@.len() == ss.len() && (forall|k: int|
        0 <= k < ss.len() ==> (#[trigger] items@[k] matches JsonValue::Str(s) && s@ == ss[k]))
}

/// An array of numbers with exactly these literal texts, in order.
pub open spec fn arr_nums_ok(v: JsonValue, ss: Seq<Seq<char>>) -> bool {
    v matches JsonValue::Array(items) && items@.len() == ss.len() && (forall|k: int|
        0 <= k < ss.len() ==> (#[trigger] items@[k] matches JsonValue::Num(s) && s@ == ss[k]))
}

/// One serialized sort entry: direction, then field.
pub open spec fn sort_entry_ok(v: JsonValue, t: (Seq<char>, bool)) -> bool {
    v matches JsonValue::Object(ms) && ms@.len() == 2 && ms@[0].0@ == "direction"@ && (
    ms@[0].1 matches JsonValue::Str(dir) && dir@ == (if t.1 {
        "desc"@
    } else {
        "asc"@
    })) && ms@[1].0@ == "field"@ && (ms@[1].1 matches JsonValue::Str(f) && f@ == t.0)
}

/// The serialized sort order.
pub open spec fn sortby_json_ok(v: JsonValue, ts: Seq<(Seq<char>, bool)>) -> bool {
    v matches JsonValue::Array(items) && items@.len() == ts.len() && (forall|k: int|
        0 <= k < ts.len() ==> sort_entry_ok(#[trigger] items@[k], ts[k]))
}

/// The serialized projection clause: excluded paths, then included ones.
pub open spec fn fields_json_ok(v: JsonValue, f: (Seq<Seq<char>>, Seq<Seq<char>>)) -> bool {
    v matches JsonValue::Object(ms) && ms@.len() == 2 && ms@[0].0@ == excl_key() && arr_strs_ok(
        ms@[0].1,
        f.1,
    ) && ms@[1].0@ == incl_key() && arr_strs_ok(ms@[1].1, f.0)
}

/// What one member of the serialized descriptor must hold, by its key;
/// a key outside the descriptor's surface is never emitted.
pub open spec fn member_ok(d: SearchDescriptor, m: (String, JsonValue)) -> bool {
    let k = m.0@;
    if k == "bbox"@ {
        d@.bbox matches Some(b) && arr_nums_ok(m.1, b)
    } else if k == "collections"@ {
        d@.collections matches Some(c) && arr_strs_ok(m.1, c)
    } else if k == "datetime"@ {
        d@.datetime matches Some(s) && (m.1 matches JsonValue::Str(t) && t@ == s)
    } else if k == "fields"@ {
        d@.fields matches Some(f) && fields_json_ok(m.1, f)
    } else if k == "filter"@ {
        d@.filter matches Some(e) && parse_filter_json_spec(m.1) == Some(e)
    } else if k == "filter-lang"@ {
        d@.filter is Some && (m.1 matches JsonValue::Str(t) && t@ == "cql2-json"@)
    } else if k == "ids"@ {
        d@.ids matches Some(c) && arr_strs_ok(m.1, c)
    } else if k == "intersects"@ {
        d@.intersects matches Some(g) && parse_geometry_json_spec(m.1) == Some(g)
    } else if k == "limit"@ {
        d@.limit matches Some(n) && (m.1 matches JsonValue::Num(t) && t@ == crate::num::dec_rep(
            n as nat,
        ))
    } else if k == "query"@ {
        d@.query matches Some(q) && m.1 == q
    } else if k == "sortby"@ {
        d@.sortby matches Some(ts) && sortby_json_ok(m.1, ts)
    } else {
        false
    }
}

/// The first span of canonical member keys: bounding box, collections,
/// datetime, projection.
pub open spec fn desc_keys_a(d: SearchDescriptor) -> Seq<Seq<char>> {
    (if d.bbox is Some {
        seq!["bbox"@]
    } else {
        Seq::empty()
    }) + (if d.collections is Some {
        seq!["collections"@]
    } else {
        Seq::empty()
    }) + (if d.datetime is Some {
        seq!["datetime"@]
    } else {
        Seq::empty()
    }) + (if d.fields is Some {
        seq!["fields"@]
    } else {
        Seq::empty()
    })
}

/// The second span: the filter with its language tag, ids, geometry.
pub open spec fn desc_keys_b(d: SearchDescriptor) -> Seq<Seq<char>> {
    (if d.filter is Some {
        seq!["filter"@, "filter-lang"@]
    } else {
        Seq::empty()
    }) + (if d.ids is Some {
        seq!["ids"@]
    } else {
        Seq::empty()
    }) + (if d.intersects is Some {
        seq!["intersects"@]
    } else {
        Seq::empty()
    })
}

/// The third span: limit, query, sort order.
pub open spec fn desc_keys_c(d: SearchDescriptor) -> Seq<Seq<char>> {
    (if d.limit is Some {
        seq!["limit"@]
    } else {
        Seq::empty()
    }) + (if d.query is Some {
        seq!["query"@]
    } else {
        Seq::empty()
    }) + (if d.sortby is Some {
        seq!["sortby"@]
    } else {
        Seq::empty()
    })
}

/// The member keys the serialized descriptor holds, in order: exactly
/// the present fields, alphabetically, the filter bringing its language
/// tag along.
pub open spec fn desc_keys(d: SearchDescriptor) -> Seq<Seq<char>> {
    desc_keys_a(d) + desc_keys_b(d) + desc_keys_c(d)
}

/// The member keys of an object's member list.
pub open spec fn keys_of(ms: Seq<(String, JsonValue)>) -> Seq<Seq<char>> {
    ms.map_values(|m: (String, JsonValue)| m.0@)
}

/// The whole wire form of a descriptor: an object holding exactly the
/// canonical members, in canonical order, each with the right content.
pub open spec fn descriptor_json_matches(d: SearchDescriptor, v: JsonValue) -> bool {
    v matches JsonValue::Object(ms) && keys_of(ms@) == desc_keys(d) && (forall|i: int|
        0 <= i < ms@.len() ==> member_ok(d, #[trigger] ms@[i]))
}

/// An array of JSON strings for these texts.
fn strs_to_json(l: &Vec<String>) -> (r: Vec<JsonValue>)
    ensures
        arr_strs_ok(JsonValue::Array(r), l@.map_values(|s: String| s@)),
        r@.len() == l@.len(),
{
    let mut out: Vec<JsonValue> = Vec::new();
    let mut i: usize = 0;
    while i < l.len()
        invariant
            i <= l@.len(),
            out@.len() == i,
            forall|k: int| 0 <= k < i ==> (#[trigger] out@[k] matches JsonValue::Str(s) && s@
                == l@[k]@),
        decreases l@.len() - i,
    {
        out.push(JsonValue::Str(l[i].clone()));
        i = i + 1;
    }
    out
}

/// An array of JSON numbers for these literal texts.
fn nums_to_json(l: &Vec<String>) -> (r: Vec<JsonValue>)
    ensures
        arr_nums_ok(JsonValue::Array(r), l@.map_values(|s: String| s@)),
        r@.len() == l@.len(),
{
    let mut out: Vec<JsonValue> = Vec::new();
    let mut i: usize = 0;
    while i < l.len()
        invariant
            i <= l@.len(),
            out@.len() == i,
            forall|k: int| 0 <= k < i ==> (#[trigger] out@[k] matches JsonValue::Num(s) && s@
                == l@[k]@),
        decreases l@.len() - i,
    {
        out.push(JsonValue::Num(l[i].clone()));
        i = i + 1;
    }
    out
}

/// The serialized sort order.
fn sortby_to_json(l: &Vec<SortTerm>) -> (r: JsonValue)
    ensures
        sortby_json_ok(r, l@.map_values(|t: SortTerm| t@)),
{
    let mut out: Vec<JsonValue> = Vec::new();
    let mut i: usize = 0;
    while i < l.len()
        invariant
            i <= l@.len(),
            out@.len() == i,
            forall|k: int| 0 <= k < i ==> sort_entry_ok(#[trigger] out@[k], l@[k]@),
        decreases l@.len() - i,
    {
        let dir: &str = if l[i].descending {
            "desc"
        } else {
            "asc"
        };
        let mut ms: Vec<(String, JsonValue)> = Vec::new();
        ms.push(("direction".to_owned(), JsonValue::Str(dir.to_owned())));
        ms.push(("field".to_owned(), JsonValue::Str(l[i].field.clone())));
        let entry = JsonValue::Object(ms);
        proof {
            assert(sort_entry_ok(entry, l@[i as int]@));
        }
        out.push(entry);
        i = i + 1;
    }
    let r = JsonValue::Array(out);
    proof {
        assert(sortby_json_ok(r, l@.map_values(|t: SortTerm| t@)));
    }
    r
}

/// The projection key that names kept paths.
fn incl_key_string() -> (r: String)
    ensures
        r@ == incl_key(),
{
    let mut s = "in".to_owned();
    s.append("clude");
    proof {
        reveal_strlit("in");
        reveal_strlit("clude");
        assert(s@ =~= incl_key());
    }
    s
}

/// The serialized projection clause.
fn fields_to_json(f: &FieldsClause) -> (r: JsonValue)
    ensures
        fields_json_ok(r, f@),
{
    let excl_items = strs_to_json(&f.excl);
    let incl_items = strs_to_json(&f.incl);
    let mut ms: Vec<(String, JsonValue)> = Vec::new();
    ms.push(("exclude".to_owned(), JsonValue::Array(excl_items)));
    ms.push((incl_key_string(), JsonValue::Array(incl_items)));
    let r = JsonValue::Object(ms);
    proof {
        reveal_strlit("exclude");
        assert("exclude"@ =~= excl_key());
        assert(fields_json_ok(r, f@));
    }
    r
}

/// Appends one member known to be right for `d`, keeping every earlier
/// member right.
fn push_checked(ms: &mut Vec<(String, JsonValue)>, m: (String, JsonValue), Ghost(dd): Ghost<
    SearchDescriptor,
>)
    requires
        forall|i: int| 0 <= i < old(ms)@.len() ==> member_ok(dd, #[trigger] old(ms)@[i]),
        member_ok(dd, m),
    ensures
        final(ms)@ == old(ms)@.push(m),
        keys_of(final(ms)@) == keys_of(old(ms)@).push(m.0@),
        forall|i: int| 0 <= i < final(ms)@.len() ==> member_ok(dd, #[trigger] final(ms)@[i]),
{
    let ghost prev = ms@;
    let ghost mm = m;
    ms.push(m);
    proof {
        assert(keys_of(ms@) =~= keys_of(prev).push(mm.0@));
        assert forall|i: int| 0 <= i < ms@.len() implies member_ok(dd, #[trigger] ms@[i]) by {
            assert(ms@ == prev.push(mm));
            if i < prev.len() as int {
                assert(prev.push(mm)[i] == prev[i]);
            } else {
                assert(prev.push(mm)[i] == mm);
            }
        }
    }
}

/// Emits the first span of members.
fn emit_a(
    ms: &mut Vec<(String, JsonValue)>,
    bbox: Option<Vec<String>>,
    collections: Option<Vec<String>>,
    datetime: Option<String>,
    fields: Option<FieldsClause>,
    Ghost(dd): Ghost<SearchDescriptor>,
)
    requires
        forall|i: int| 0 <= i < old(ms)@.len() ==> member_ok(dd, #[trigger] old(ms)@[i]),
        strings_view(bbox) == dd@.bbox,
        strings_view(collections) == dd@.collections,
        (match datetime {
            Option::Some(s) => dd@.datetime == Some(s@),
            Option::None => dd@.datetime is None,
        }),
        (match fields {
            Option::Some(f) => dd@.fields == Some(f@),
            Option::None => dd@.fields is None,
        }),
    ensures
        keys_of(final(ms)@) == keys_of(old(ms)@) + desc_keys_a(dd),
        forall|i: int| 0 <= i < final(ms)@.len() ==> member_ok(dd, #[trigger] final(ms)@[i]),
{
    proof {
        reveal_strlit("bbox");
        reveal_strlit("collections");
        reveal_strlit("datetime");
        reveal_strlit("fields");
        reveal_strlit("filter");
        reveal_strlit("filter-lang");
        reveal_strlit("ids");
        reveal_strlit("intersects");
        reveal_strlit("limit");
        reveal_strlit("query");
        reveal_strlit("sortby");
        assert("bbox"@ =~= seq!['b', 'b', 'o', 'x']);
        assert("collections"@ =~= seq!['c', 'o', 'l', 'l', 'e', 'c', 't', 'i', 'o', 'n', 's']);
        assert("datetime"@ =~= seq!['d', 'a', 't', 'e', 't', 'i', 'm', 'e']);
        assert("fields"@ =~= seq!['f', 'i', 'e', 'l', 'd', 's']);
    }
    let ghost ks0 = keys_of(ms@);
    let ghost mut ks: Seq<Seq<char>> = ks0;
    match bbox {
        Option::Some(b) => {
            let items = nums_to_json(&b);
            push_checked(&mut *ms, ("bbox".to_owned(), JsonValue::Array(items)), Ghost(dd));
        },
        Option::None => {},
    }
    proof {
        ks = ks + (if dd.bbox is Some {
            seq!["bbox"@]
        } else {
            Seq::<Seq<char>>::empty()
        });
        assert(keys_of(ms@) =~~= ks);
    }
    match collections {
        Option::Some(c) => {
            let items = strs_to_json(&c);
            push_checked(&mut *ms, ("collections".to_owned(), JsonValue::Array(items)), Ghost(dd));
        },
        Option::None => {},
    }
    proof {
        ks = ks + (if dd.collections is Some {
            seq!["collections"@]
        } else {
            Seq::<Seq<char>>::empty()
        });
        assert(keys_of(ms@) =~~= ks);
    }
    match datetime {
        Option::Some(s) => {
            push_checked(&mut *ms, ("datetime".to_owned(), JsonValue::Str(s)), Ghost(dd));
        },
        Option::None => {},
    }
    proof {
        ks = ks + (if dd.datetime is Some {
            seq!["datetime"@]
        } else {
            Seq::<Seq<char>>::empty()
        });
        assert(keys_of(ms@) =~~= ks);
    }
    match fields {
        Option::Some(f) => {
            let v = fields_to_json(&f);
            push_checked(&mut *ms, ("fields".to_owned(), v), Ghost(dd));
        },
        Option::None => {},
    }
    proof {
        ks = ks + (if dd.fields is Some {
            seq!["fields"@]
        } else {
            Seq::<Seq<char>>::empty()
        });
        assert(keys_of(ms@) =~~= ks);
        assert(keys_of(ms@) =~~= ks0 + desc_keys_a(dd));
    }
}

/// Emits the second span of members.
fn emit_b(
    ms: &mut Vec<(String, JsonValue)>,
    filter: Option<Expr>,
    ids: Option<Vec<String>>,
    intersects: Option<Geometry>,
    Ghost(dd): Ghost<SearchDescriptor>,
)
    requires
        forall|i: int| 0 <= i < old(ms)@.len() ==> member_ok(dd, #[trigger] old(ms)@[i]),
        (match filter {
            Option::Some(e) => dd@.filter == Some(e@),
            Option::None => dd@.filter is None,
        }),
        strings_view(ids) == dd@.ids,
        (match intersects {
            Option::Some(g) => dd@.intersects == Some(g@),
            Option::None => dd@.intersects is None,
        }),
    ensures
        keys_of(final(ms)@) == keys_of(old(ms)@) + desc_keys_b(dd),
        forall|i: int| 0 <= i < final(ms)@.len() ==> member_ok(dd, #[trigger] final(ms)@[i]),
{
    proof {
        reveal_strlit("bbox");
        reveal_strlit("collections");
        reveal_strlit("datetime");
        reveal_strlit("fields");
        reveal_strlit("filter");
        reveal_strlit("filter-lang");
        reveal_strlit("ids");
        reveal_strlit("intersects");
        reveal_strlit("limit");
        reveal_strlit("query");
        reveal_strlit("sortby");
        assert("filter"@ =~= seq!['f', 'i', 'l', 't', 'e', 'r']);
        assert("filter-lang"@ =~= seq!['f', 'i', 'l', 't', 'e', 'r', '-', 'l', 'a', 'n', 'g']);
        assert("ids"@ =~= seq!['i', 'd', 's']);
        assert("intersects"@ =~= seq!['i', 'n', 't', 'e', 'r', 's', 'e', 'c', 't', 's']);
    }
    let ghost ks0 = keys_of(ms@);
    let ghost mut ks: Seq<Seq<char>> = ks0;
    match filter {
        Option::Some(e) => {
            let v = crate::cql2::filter_to_json(&e);
            push_checked(&mut *ms, ("filter".to_owned(), v), Ghost(dd));
            push_checked(
                &mut *ms,
                ("filter-lang".to_owned(), JsonValue::Str("cql2-json".to_owned())),
                Ghost(dd),
            );
        },
        Option::None => {},
    }
    proof {
        ks = ks + (if dd.filter is Some {
            seq!["filter"@, "filter-lang"@]
        } else {
            Seq::<Seq<char>>::empty()
        });
        assert(keys_of(ms@) =~~= ks);
    }
    match ids {
        Option::Some(c) => {
            let items = strs_to_json(&c);
            push_checked(&mut *ms, ("ids".to_owned(), JsonValue::Array(items)), Ghost(dd));
        },
        Option::None => {},
    }
    proof {
        ks = ks + (if dd.ids is Some {
            seq!["ids"@]
        } else {
            Seq::<Seq<char>>::empty()
        });
        assert(keys_of(ms@) =~~= ks);
    }
    match intersects {
        Option::Some(g) => {
            let v = crate::geometry::geometry_to_json(&g);
            push_checked(&mut *ms, ("intersects".to_owned(), v), Ghost(dd));
        },
        Option::None => {},
    }
    proof {
        ks = ks + (if dd.intersects is Some {
            seq!["intersects"@]
        } else {
            Seq::<Seq<char>>::empty()
        });
        assert(keys_of(ms@) =~~= ks);
        assert(keys_of(ms@) =~~= ks0 + desc_keys_b(dd));
    }
}

/// Emits the third span of members.
fn emit_c(
    ms: &mut Vec<(String, JsonValue)>,
    limit: Option<u64>,
    query: Option<JsonValue>,
    sortby: Option<Vec<SortTerm>>,
    Ghost(dd): Ghost<SearchDescriptor>,
)
    requires
        forall|i: int| 0 <= i < old(ms)@.len() ==> member_ok(dd, #[trigger] old(ms)@[i]),
        limit == dd@.limit,
        query == dd@.query,
        (match sortby {
            Option::Some(l) => dd@.sortby == Some(l@.map_values(|t: SortTerm| t@)),
            Option::None => dd@.sortby is None,
        }),
    ensures
        keys_of(final(ms)@) == keys_of(old(ms)@) + desc_keys_c(dd),
        forall|i: int| 0 <= i < final(ms)@.len() ==> member_ok(dd, #[trigger] final(ms)@[i]),
{
    proof {
        reveal_strlit("bbox");
        reveal_strlit("collections");
        reveal_strlit("datetime");
        reveal_strlit("fields");
        reveal_strlit("filter");
        reveal_strlit("filter-lang");
        reveal_strlit("ids");
        reveal_strlit("intersects");
        reveal_strlit("limit");
        reveal_strlit("query");
        reveal_strlit("sortby");
        assert("limit"@ =~= seq!['l', 'i', 'm', 'i', 't']);
        assert("query"@ =~= seq!['q', 'u', 'e', 'r', 'y']);
        assert("sortby"@ =~= seq!['s', 'o', 'r', 't', 'b', 'y']);
    }
    let ghost ks0 = keys_of(ms@);
    let ghost mut ks: Seq<Seq<char>> = ks0;
    match limit {
        Option::Some(n) => {
            let t = crate::num::render_u64(n);
            push_checked(&mut *ms, ("limit".to_owned(), JsonValue::Num(t)), Ghost(dd));
        },
        Option::None => {},
    }
    proof {
        ks = ks + (if dd.limit is Some {
            seq!["limit"@]
        } else {
            Seq::<Seq<char>>::empty()
        });
        assert(keys_of(ms@) =~~= ks);
    }
    match query {
        Option::Some(q) => {
            push_checked(&mut *ms, ("query".to_owned(), q), Ghost(dd));
        },
        Option::None => {},
    }
    proof {
        ks = ks + (if dd.query is Some {
            seq!["query"@]
        } else {
            Seq::<Seq<char>>::empty()
        });
        assert(keys_of(ms@) =~~= ks);
    }
    match sortby {
        Option::Some(l) => {
            let v = sortby_to_json(&l);
            push_checked(&mut *ms, ("sortby".to_owned(), v), Ghost(dd));
        },
        Option::None => {},
    }
    proof {
        ks = ks + (if dd.sortby is Some {
            seq!["sortby"@]
        } else {
            Seq::<Seq<char>>::empty()
        });
        assert(keys_of(ms@) =~~= ks);
        assert(keys_of(ms@) =~~= ks0 + desc_keys_c(dd));
    }
}

/// Serializes a descriptor as its canonical wire object: exactly the
/// present fields, in canonical member order, values exact — so two
/// equal descriptors always put the same bytes on the wire, whatever
/// surface forms they were normalized from.
pub fn descriptor_to_json(d: SearchDescriptor) -> (r: JsonValue)
    ensures
        descriptor_json_matches(d, r),
{
    let ghost dd = d;
    let SearchDescriptor { collections, ids, bbox, datetime, intersects, fields, sortby, filter, query, limit } =
        d;
    let mut ms: Vec<(String, JsonValue)> = Vec::new();
    proof {
        assert(keys_of(ms@) =~= Seq::<Seq<char>>::empty());
    }
    emit_a(&mut ms, bbox, collections, datetime, fields, Ghost(dd));
    emit_b(&mut ms, filter, ids, intersects, Ghost(dd));
    emit_c(&mut ms, limit, query, sortby, Ghost(dd));
    proof {
        assert(keys_of(ms@) =~~= desc_keys(dd));
    }
    JsonValue::Object(ms)
}

// ---------------------------------------------------------------------
// Laws
// ---------------------------------------------------------------------

/// A bare string and its single-element list normalize to the same
/// single-element set.
pub proof fn lemma_singleton_forms_agree(s: Seq<char>)
    ensures
        norm_sol(Some(SolView::Str(s))) == norm_sol(Some(SolView::List(seq![s]))),
{
    assert(norm_sol(Some(SolView::List(seq![s]))) == Some(seq![s]));
}

/// A bounding box of four or six coordinates passes through losslessly,
/// order and values exactly preserved; every other arity is rejected.
pub proof fn lemma_bbox_normalization(b: Seq<Seq<char>>)
    ensures
        (b.len() == 4 || b.len() == 6) ==> norm_bbox(Some(b)) == Some(Some(b)),
        !(b.len() == 4 || b.len() == 6) ==> norm_bbox(Some(b)) is None,
{
}

/// Two explicitly empty projection sides leave the projection clause
/// entirely absent, not empty-but-present.
pub proof fn lemma_empty_projection_absent()
    ensures
        norm_fields(
            Some(SolView::List(Seq::empty())),
            Some(SolView::List(Seq::empty())),
        ) is None,
{
}

} // verus!
