//! A streaming log analyzer: parsers for Apache, Nginx and JSON access logs, a filter engine,
//! an aggregating analyzer and renderers for its summary.
pub mod analyzer;
pub mod cli;
pub mod counts;
pub mod error;
pub mod filter;
pub mod ip;
pub mod output;
pub mod parser;
pub mod pipeline;
pub mod reader;
pub mod text;
pub mod time;
pub mod types;
