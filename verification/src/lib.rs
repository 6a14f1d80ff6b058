//! Query subsystem for a vault of markdown notes: a small boolean expression
//! language over note metadata (tags, date, title), with a tokenizer, a
//! recursive-descent parser, a native in-memory evaluator, and a compiler to
//! the syntax of an external structured-data filter tool.

pub mod filter_model;
pub mod paths;
pub mod query_native;
pub mod query_parser;
pub mod tags;
pub mod text;
pub mod titles;

pub use text::regex_escape;
