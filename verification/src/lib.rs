//! Transcoding between tabular records and semi-structured JSON values.
//!
//! [`cmd::json`] turns a flat JSON object, or an array of flat objects that share their
//! keys, into CSV whose columns stand in the order of the first record's keys.
//! [`cmd::tojsonl`] turns CSV into newline-delimited JSON, with a type for each column that
//! is fixed from a profile of the whole data set before the first record is emitted.
//!
//! Parsing and writing CSV, parsing JSON, flattening records and evaluating filters are
//! the work of the `csv`, `serde_json`, `json_objects_to_csv` and `jaq` crates; what they
//! return is named in the contracts, and every rule of the converters around them is
//! proved against those names. [`filter`] hands to `jaq` only the expressions on which it
//! is known to return.

pub mod cmd;
pub mod error;
pub mod filter;
pub mod table;
pub mod text;
pub mod value;
