//! The error taxonomy that every operation of this crate reports.
//!
//! Five distinct, inspectable kinds, none ever swallowed or retried:
//! configuration problems are rejected before any network work, pool
//! exhaustion is kept apart from transport failures, malformed search input
//! is rejected synchronously, and anything the catalog itself raises keeps
//! its diagnostic text verbatim.

use vstd::prelude::*;

verus! {

/// One error value per failure category, each carrying the original
/// diagnostic text.
#[derive(Debug)]
pub enum Error {
    /// The connection configuration text was malformed; raised before any
    /// I/O is attempted.
    Config(String),
    /// The pool could not hand out a connection in time: exhaustion or an
    /// acquire timeout, distinct from the database being unreachable.
    Pool(String),
    /// Transport, TLS, or authentication failure while dialing or probing.
    Connectivity(String),
    /// Malformed search or batch input, rejected before any database call.
    Validation(String),
    /// A failure during statement execution: a procedure-raised exception,
    /// a constraint violation, or a result that did not match the declared
    /// shape.  Carries the underlying message verbatim.
    Database(String),
}

impl Error {
    /// The diagnostic text this error carries.
    pub fn message(&self) -> (r: String)
        ensures
            r@ == self.message_spec(),
    {
        match self {
            Error::Config(m) => m.clone(),
            Error::Pool(m) => m.clone(),
            Error::Connectivity(m) => m.clone(),
            Error::Validation(m) => m.clone(),
            Error::Database(m) => m.clone(),
        }
    }

    /// The diagnostic text, at the specification level.
    pub open spec fn message_spec(&self) -> Seq<char> {
        match self {
            Error::Config(m) => m@,
            Error::Pool(m) => m@,
            Error::Connectivity(m) => m@,
            Error::Validation(m) => m@,
            Error::Database(m) => m@,
        }
    }
}

} // verus!
