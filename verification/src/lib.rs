//! A small SQL-like query engine over in-memory tables of strings.
//!
//! The library parses a restricted `SELECT` dialect into an abstract syntax
//! tree, evaluates boolean predicates over rows, and executes the query
//! pipeline (filter, group, aggregate or project, deduplicate, sort) against
//! headers and rows supplied by the caller. Loading a table from a file and
//! writing results out are left to the surrounding application.

pub mod ast;
pub mod bitsexpr;
pub mod engine;
pub mod eval;
pub mod like;
pub mod netpkt;
pub mod numbers;
pub mod parser;
pub mod strings;
pub mod sysfmt;
pub mod timespan;
