//! Helpers around the parser.

pub mod query_format;
