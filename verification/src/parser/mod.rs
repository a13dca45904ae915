//! Parsers that turn a log line into a `LogEntry`.
pub mod apache;
pub mod combined;
pub mod detector;
pub mod json;
pub mod nginx;

use crate::types::LogEntry;
use vstd::prelude::*;

verus! {

/// A parser for one log format.
pub trait LogParser {
    /// Reads one line, or says why it cannot.
    fn parse(&self, line: &str) -> Result<LogEntry, String>;
}

} // verus!
