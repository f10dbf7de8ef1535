//! Client-side core for a geospatial catalog stored behind database
//! procedures.
//!
//! The crate has two centerpieces: a search parameter normalizer that turns
//! loosely-typed, optional query inputs into one canonical, serializable
//! search descriptor, and a generic invocation layer that plans a stored
//! procedure call (statement text, ordered parameters, expected result
//! shape) and decodes the single-row outcome uniformly.  Everything here is
//! synchronous and pure; the surrounding binary owns the connection pool and
//! the network, hands outcomes back as plain values, and lets this crate do
//! the deciding.

pub mod config;
pub mod cql2;
pub mod error;
pub mod geometry;
pub mod invoke;
pub mod json;
pub mod num;
pub mod ops;
pub mod search;

pub use error::Error;
