//! The two converters.

pub mod json;
pub mod tojsonl;
