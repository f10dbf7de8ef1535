//! The generic invocation layer: planning one catalog procedure call and
//! decoding its single-row outcome.
//!
//! A plan is the whole call, made first and executed elsewhere: statement
//! text with one positional placeholder per parameter (values are never
//! interpolated into the text), the ordered parameter list, and the declared
//! result shape.  The executor hands back a [`CallOutcome`] as plain values,
//! and [`decode`] turns it into the declared shape or into exactly one error
//! kind: acquire trouble is pool or connectivity, everything that failed
//! during the statement itself is a database error, and no outcome is ever
//! retried here.

use vstd::prelude::*;

use crate::error::Error;
use crate::json::JsonValue;
use crate::num::dec_rep;

verus! {

/// The declared shape of a call's single-row, single-column result.
#[derive(Debug, Clone, Copy, PartialEq, Eq, Structural)]
pub enum ResultShape {
    /// Exactly one row, one column, decoded as text.
    Scalar,
    /// Exactly one row, one column, decoded as a JSON value.
    JsonScalar,
    /// Exactly one row, one column, decoded as JSON-or-absent; a database
    /// null means "not found", not an error.
    OptionalJson,
    /// Executed for its side effect; whatever the row holds is discarded.
    Void,
}

/// One positional parameter, typed as the procedure surface expects it.
#[derive(Debug)]
pub enum Param {
    /// A text parameter.
    Text(String),
    /// A text parameter that may be database null.
    NullableText(Option<String>),
    /// A JSON document parameter.
    Json(JsonValue),
}

/// A planned call: everything the executor needs, and nothing it may
/// reinterpret.
#[derive(Debug)]
pub struct StatementPlan {
    /// The statement text, with `$1 .. $n` placeholders in order.
    pub sql: String,
    /// The parameters, in placeholder order.
    pub params: Vec<Param>,
    /// The declared result shape.
    pub shape: ResultShape,
    /// The name of the one result column to read when the shape is not
    /// [`ResultShape::Void`]; the procedure surface names it after the
    /// procedure.
    pub result_column: String,
}

/// `"$1, $2, ..., $n"`.
pub open spec fn placeholders_text(n: nat) -> Seq<char>
    decreases n,
{
    if n == 0 {
        Seq::empty()
    } else if n == 1 {
        seq!['$'] + dec_rep(1)
    } else {
        placeholders_text((n - 1) as nat) + seq![',', ' ', '$'] + dec_rep(n)
    }
}

/// `"SELECT * FROM "`.
pub open spec fn stmt_prefix() -> Seq<char> {
    seq!['S', 'E', 'L', 'E', 'C', 'T', ' ', '*', ' ', 'F', 'R', 'O', 'M', ' ']
}

/// The text of a call of the named procedure with `n` positional
/// placeholders.  Names are left unqualified: the pool's session setup has
/// already put the catalog schema on the connection's search path, and the
/// planner never mixes that with explicit qualification.
pub open spec fn stmt_text_of(name: Seq<char>, n: nat) -> Seq<char> {
    stmt_prefix() + name + seq!['('] + placeholders_text(n) + seq![')']
}

/// Builds the statement text for `name` with `n` placeholders.
pub fn build_statement(name: &str, n: usize) -> (r: String)
    requires
        n <= 0xffff_ffff,
    ensures
        r@ == stmt_text_of(name@, n as nat),
{
    let mut out = "SELECT * FROM ".to_owned();
    proof {
        reveal_strlit("SELECT * FROM ");
        assert(out@ =~= stmt_prefix());
    }
    out.append(name);
    out.append("(");
    proof {
        reveal_strlit("(");
        assert(out@ =~= stmt_prefix() + name@ + seq!['('] + placeholders_text(0));
    }
    let mut k: usize = 0;
    while k < n
        invariant
            k <= n,
            out@ == stmt_prefix() + name@ + seq!['('] + placeholders_text(k as nat),
        decreases n - k,
    {
        if k > 0 {
            out.append(", ");
        }
        out.append("$");
        let digits = crate::num::render_u64((k as u64) + 1);
        out.append(digits.as_str());
        proof {
            reveal_strlit(", ");
            reveal_strlit("$");
            reveal_strlit("(");
            assert(out@ =~= stmt_prefix() + name@ + seq!['('] + placeholders_text(
                (k + 1) as nat,
            ));
        }
        k = k + 1;
    }
    out.append(")");
    proof {
        reveal_strlit("(");
        reveal_strlit(")");
        assert(out@ =~= stmt_text_of(name@, n as nat));
    }
    out
}

/// Plans a call of the named procedure: placeholder text in parameter
/// order, the parameters as given, the declared shape, and the procedure's
/// name as the column to read.
pub fn plan_procedure(name: &str, params: Vec<Param>, shape: ResultShape) -> (r: StatementPlan)
    requires
        params@.len() <= 0xffff_ffff,
    ensures
        r.sql@ == stmt_text_of(name@, params@.len()),
        r.params == params,
        r.shape == shape,
        r.result_column@ == name@,
{
    let sql = build_statement(name, params.len());
    StatementPlan { sql, params, shape, result_column: name.to_owned() }
}

/// What one executed call came to, as the executor saw it: either the one
/// row's one column, or the phase that failed with its diagnostic text.
#[derive(Debug)]
pub enum CallOutcome {
    /// The statement ran and returned its row; this is the declared
    /// column's content, with database null kept apart.
    Row(Cell),
    /// No connection could be had in time: exhaustion or acquire timeout.
    AcquireTimeout(String),
    /// Acquiring a connection failed outright: transport, TLS, or
    /// authentication.
    AcquireFailure(String),
    /// The statement itself failed: a procedure-raised exception, a
    /// constraint violation, or a missing row or column.
    StatementFailure(String),
}

/// The content of the one result column.
#[derive(Debug)]
pub enum Cell {
    /// Database null.
    Null,
    /// A text column.
    Text(String),
    /// A JSON column.
    Json(JsonValue),
}

/// A decoded result, one variant per shape.
#[derive(Debug)]
pub enum CallValue {
    /// What a [`ResultShape::Scalar`] call returns.
    Text(String),
    /// What a [`ResultShape::JsonScalar`] call returns.
    Json(JsonValue),
    /// What a [`ResultShape::OptionalJson`] call returns: `None` is "not
    /// found".
    OptJson(Option<JsonValue>),
    /// What a [`ResultShape::Void`] call returns.
    Done,
}

/// Whether a returned cell fits the declared shape.
pub open spec fn cell_fits(shape: ResultShape, cell: Cell) -> bool {
    match shape {
        ResultShape::Scalar => cell is Text,
        ResultShape::JsonScalar => cell is Json,
        ResultShape::OptionalJson => cell is Null || cell is Json,
        ResultShape::Void => true,
    }
}

/// The decoded value of a fitting cell.
pub open spec fn decoded_of(shape: ResultShape, cell: Cell) -> CallValue {
    match shape {
        ResultShape::Scalar => match cell {
            Cell::Text(s) => CallValue::Text(s),
            _ => CallValue::Done,
        },
        ResultShape::JsonScalar => match cell {
            Cell::Json(v) => CallValue::Json(v),
            _ => CallValue::Done,
        },
        ResultShape::OptionalJson => match cell {
            Cell::Null => CallValue::OptJson(None),
            Cell::Json(v) => CallValue::OptJson(Some(v)),
            _ => CallValue::Done,
        },
        ResultShape::Void => CallValue::Done,
    }
}

/// Decodes one outcome against the declared shape.
///
/// Succeeds exactly when a row came back whose column fits the shape.  A
/// failed acquire is pool or connectivity trouble, kept apart so a caller
/// can tell "too many concurrent callers" from "unreachable"; everything
/// that failed during the statement, a mismatched column included, is a
/// database error carrying the diagnostic text verbatim.
pub fn decode(shape: ResultShape, outcome: CallOutcome) -> (r: Result<CallValue, Error>)
    ensures
        r is Ok <==> (outcome matches CallOutcome::Row(cell) && cell_fits(shape, cell)),
        (outcome matches CallOutcome::Row(cell) ==> if cell_fits(shape, cell) {
            r == Ok::<CallValue, Error>(decoded_of(shape, cell))
        } else {
            r matches Err(e) && e is Database
        }),
        (outcome matches CallOutcome::AcquireTimeout(m) ==> r == Err::<CallValue, Error>(
            Error::Pool(m),
        )),
        (outcome matches CallOutcome::AcquireFailure(m) ==> r == Err::<CallValue, Error>(
            Error::Connectivity(m),
        )),
        (outcome matches CallOutcome::StatementFailure(m) ==> r == Err::<CallValue, Error>(
            Error::Database(m),
        )),
{
    match outcome {
        CallOutcome::AcquireTimeout(m) => Err(Error::Pool(m)),
        CallOutcome::AcquireFailure(m) => Err(Error::Connectivity(m)),
        CallOutcome::StatementFailure(m) => Err(Error::Database(m)),
        CallOutcome::Row(cell) => match shape {
            ResultShape::Void => Ok(CallValue::Done),
            ResultShape::Scalar => match cell {
                Cell::Text(s) => Ok(CallValue::Text(s)),
                _ => Err(Error::Database("scalar result was not text".to_owned())),
            },
            ResultShape::JsonScalar => match cell {
                Cell::Json(v) => Ok(CallValue::Json(v)),
                _ => Err(Error::Database("result held no JSON value".to_owned())),
            },
            ResultShape::OptionalJson => match cell {
                Cell::Null => Ok(CallValue::OptJson(None)),
                Cell::Json(v) => Ok(CallValue::OptJson(Some(v))),
                Cell::Text(_) => Err(
                    Error::Database("optional result was not JSON or null".to_owned()),
                ),
            },
        },
    }
}

} // verus!
