//! Parsing and output primitives of the Hurl HTTP runner: a positioned
//! character reader, the query grammar, configuration-file whitespace
//! handling, and the rules that decide where and what a run writes.

pub mod reader;
pub mod chars;
pub mod config_file;
pub mod error;
pub mod ast;
pub mod primitives;
pub mod regex;
pub mod template;
pub mod cookiepath;
pub mod combinators;
pub mod filter;
pub mod query;
pub mod path;
pub mod http;
pub mod term;
pub mod runner;
pub mod output;
pub mod pretty;
