//! The records that flow through the pipeline and the counters it folds them into.
use crate::counts::PathCounts;
use std::collections::HashMap;
use vstd::prelude::*;

verus! {

/// An instant with the UTC offset it was written in, as plain numbers: `seconds` since the Unix
/// epoch (UTC, leap seconds not counted), `nanos` since that second (above 999,999,999 only during
/// a leap second) and `offset_seconds` east of UTC.
#[derive(Debug, Clone, Copy, PartialEq, Eq, Structural)]
pub struct Timestamp {
    pub seconds: i64,
    pub nanos: u32,
    pub offset_seconds: i32,
}

/// Whether `a` is an earlier instant than `b`; the offsets play no part.
pub open spec fn instant_before(a: Timestamp, b: Timestamp) -> bool {
    a.seconds < b.seconds || (a.seconds == b.seconds && a.nanos < b.nanos)
}

impl Timestamp {
    /// Whether `self` is an earlier instant than `other`.
    pub fn is_before(&self, other: &Timestamp) -> (b: bool)
        ensures
            b == instant_before(*self, *other),
    {
        self.seconds < other.seconds || (self.seconds == other.seconds && self.nanos < other.nanos)
    }
}

/// One log line, normalised. Everything but `message` and `raw` may be missing.
#[derive(Debug, Clone)]
pub struct LogEntry {
    pub ip: Option<String>,
    pub method: Option<String>,
    pub path: Option<String>,
    pub status: Option<u16>,
    pub timestamp: Option<Timestamp>,
    pub message: String,
    pub raw: String,
}

/// The characters of an optional string.
pub open spec fn opt_view(o: Option<String>) -> Option<Seq<char>> {
    match o {
        Some(s) => Some(s@),
        None => None,
    }
}

/// The format of a log file; `Auto` asks for it to be detected.
#[derive(Debug, Clone, Copy, PartialEq, Eq, Structural)]
pub enum LogFormat {
    Auto,
    Apache,
    Nginx,
    Json,
}

/// The shape of the rendered summary.
#[derive(Debug, Clone, Copy, PartialEq, Eq, Structural)]
pub enum OutputFormat {
    Table,
    Json,
    Csv,
}

/// The counters a run folds its lines into.
pub struct Stats {
    pub total_lines: usize,
    pub parsed_lines: usize,
    pub parse_errors: usize,
    pub status_counts: HashMap<u16, usize>,
    pub top_paths: PathCounts,
    pub error_samples: Vec<(usize, String)>,
}

impl Default for Stats {
    fn default() -> (s: Self)
        ensures
            s.total_lines == 0,
            s.parsed_lines == 0,
            s.parse_errors == 0,
            s.status_counts@ == Map::<u16, usize>::empty(),
            s.top_paths.wf(),
            s.top_paths@ == Map::<Seq<char>, usize>::empty(),
            s.error_samples@ == Seq::<(usize, String)>::empty(),
            s.consistent(),
    {
        proof {
            crate::analyzer::lemma_total_empty::<u16>();
            crate::analyzer::lemma_total_empty::<Seq<char>>();
        }
        Stats {
            total_lines: 0,
            parsed_lines: 0,
            parse_errors: 0,
            status_counts: HashMap::new(),
            top_paths: PathCounts::new(),
            error_samples: Vec::new(),
        }
    }
}

} // verus!
