//! Reads the execution trace of a database broker into log entries, and puts
//! the values that the trace binds into the placeholders of each query.
//!
//! [`parser`] turns the text of a trace into entries; [`parser::log_entry`]
//! holds the entries and the substitution; [`db`] makes the rows that are
//! stored; [`shell`] and [`utils`] serve the programs around the library.
//! [`pattern`] is the one place that calls the regex engine.

pub mod db;
pub mod encoding;
pub mod lines;
pub mod parser;
pub mod pattern;
pub mod shell;
pub mod text;
pub mod utils;
