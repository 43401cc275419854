//! Query-construction and data-access layer for a small sensor-reading
//! service.
//!
//! The library covers the parts of the service with real design content:
//! decoding the fixed-width binary identifier column into its canonical
//! hyphenated text form, parsing a raw query string into a filter mapping,
//! composing a parameterized SQL statement from the recognized filters, and
//! decoding result rows into typed `Sample` records. The surrounding HTTP
//! plumbing and the database driver calls live outside the library and hand
//! it plain values.

pub mod codec;
pub mod filter;
pub mod query;
pub mod repo;
pub mod sample;

use vstd::prelude::*;

verus! {

/// Failure of query construction: the raw filter expression was rejected
/// before any statement reached the database.
#[derive(Debug, Clone, Copy, PartialEq, Eq, Structural)]
pub enum QueryError {
    /// A candidate `key=value` pair carried no `=` delimiter.
    MalformedPair,
    /// The `limit` value was not a non-negative integer within machine range.
    InvalidLimit,
}

} // verus!
