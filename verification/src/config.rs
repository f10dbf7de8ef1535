//! Connection configuration: parsed once, before any I/O.
//!
//! The one text parameter a caller opens the client with follows the
//! standard database-connection URI and keyword syntax.  The outside
//! driver owns that grammar, so the parse itself is a trusted call; what
//! this crate guarantees is that a malformed text is rejected here, as a
//! configuration error, before anything dials the network.

use vstd::prelude::*;

use crate::error::Error;

verus! {

/// The outside driver's parsed connection configuration, opaque here;
/// the executor dials with it.
#[verifier::external_type_specification]
#[verifier::external_body]
pub struct ExPgConfig(tokio_postgres::Config);

/// Whether the outside driver's grammar accepts this connection text.
pub uninterp spec fn config_accepts(s: Seq<char>) -> bool;

/// Relies on tokio_postgres's `Config` parser (`FromStr`): it accepts or
/// rejects the text on its content alone and never panics; the error
/// case carries the parser's own diagnostic text.
#[verifier::external_body]
fn parse_config_raw(s: &str) -> (r: Result<tokio_postgres::Config, String>)
    ensures
        r is Ok <==> config_accepts(s@),
{
    s.parse::<tokio_postgres::Config>().map_err(|e| e.to_string())
}

/// Parses the connection text, or rejects it with a configuration error
/// before any I/O could happen: the result is `Ok` exactly when the
/// driver's grammar accepts the text.
pub fn parse_connection_config(s: &str) -> (r: Result<tokio_postgres::Config, Error>)
    ensures
        r is Ok <==> config_accepts(s@),
        (r matches Err(e) ==> e is Config),
{
    match parse_config_raw(s) {
        Ok(c) => Ok(c),
        Err(m) => Err(Error::Config(m)),
    }
}

} // verus!
