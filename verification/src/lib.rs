//! Snake-case canonicalization of CSV header rows.
//!
//! The crate turns the first record of a delimiter-separated byte stream into
//! canonical snake_case field names and passes every other record through
//! untouched, writing the result through a column-aligning formatter.

pub mod convert;
pub mod csvio;
pub mod pipeline;
