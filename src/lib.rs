//! A record search engine for Kafka topics: a small query language, its
//! evaluator over decoded records, the start-position policy derived from a
//! query, a bounded buffer of matches and the decisions of the search pipeline.
pub mod ast;
pub mod buffer;
pub mod config;
pub mod eval;
pub mod filters;
pub mod lexer;
pub mod offset;
pub mod parser;
pub mod pipeline;
pub mod record;
pub mod roundtrip;
pub mod text;
pub mod topics;
pub mod ui;
