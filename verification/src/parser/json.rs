//! Structured JSON log lines. Reading the JSON text itself is left to a JSON decoder (the
//! binary uses `serde_json`); this parser turns what the decoder read into a `LogEntry`.
use crate::time::parsed_rfc3339;
use crate::types::{opt_view, LogEntry, Timestamp};
use vstd::prelude::*;

verus! {

/// The fields of a JSON log record, each of them optional.
pub struct JsonLogEntry {
    pub ip: Option<String>,
    pub method: Option<String>,
    pub path: Option<String>,
    pub status: Option<u16>,
    pub timestamp: Option<String>,
    pub message: Option<String>,
}

/// What building the entry for `line` from `decoded` gives: the error `invalid json log line`
/// where nothing was decoded, else the decoded fields, the timestamp read as RFC 3339 (left out
/// where it is not one) and a missing message left empty.
pub open spec fn json_result(line: Seq<char>, decoded: Option<JsonLogEntry>, r: Result<LogEntry, String>) -> bool {
    match decoded {
        None => r matches Err(m) && m@ == "invalid json log line"@,
        Some(d) => r matches Ok(e) && {
            &&& opt_view(e.ip) == opt_view(d.ip)
            &&& opt_view(e.method) == opt_view(d.method)
            &&& opt_view(e.path) == opt_view(d.path)
            &&& e.status == d.status
            &&& e.timestamp == (match d.timestamp {
                Some(t) => parsed_rfc3339(t@),
                None => None,
            })
            &&& e.message@ == (match d.message {
                Some(m) => m@,
                None => Seq::<char>::empty(),
            })
            &&& e.raw@ == line
        },
    }
}

/// A decoded record always gives an entry, and the entry carries the record's address, method,
/// path and status exactly as they were decoded, whatever their values, with the line as its
/// raw text.
pub proof fn lemma_json_fields_pass_through(line: Seq<char>, d: JsonLogEntry, r: Result<LogEntry, String>)
    requires
        json_result(line, Some(d), r),
    ensures
        r is Ok,
        r matches Ok(e) ==> e.status == d.status && opt_view(e.ip) == opt_view(d.ip) && opt_view(
            e.method,
        ) == opt_view(d.method) && opt_view(e.path) == opt_view(d.path) && e.raw@ == line,
{
}

/// Parser for JSON log records.
pub struct JsonParser;

fn clone_opt(o: &Option<String>) -> (r: Option<String>)
    ensures
        opt_view(r) == opt_view(*o),
{
    match o {
        Some(s) => Some(s.clone()),
        None => None,
    }
}

impl JsonParser {
    /// A parser for JSON log records.
    pub fn new() -> (p: Self) {
        JsonParser
    }

    /// Builds the entry for `line` from `decoded`, the record a JSON decoder read from it
    /// (`None` where the line is not a JSON log record). The timestamp is read as RFC 3339 and
    /// left out where it is not one; a missing message is empty.
    pub fn parse(&self, line: &str, decoded: &Option<JsonLogEntry>) -> (r: Result<LogEntry, String>)
        ensures
            json_result(line@, *decoded, r),
    {
        match decoded {
            None => Err("invalid json log line".to_owned()),
            Some(d) => {
                let timestamp = match &d.timestamp {
                    Some(t) => Timestamp::from_rfc3339(t.as_str()),
                    None => None,
                };
                let message = match &d.message {
                    Some(m) => m.clone(),
                    None => String::new(),
                };
                Ok(LogEntry {
                    ip: clone_opt(&d.ip),
                    method: clone_opt(&d.method),
                    path: clone_opt(&d.path),
                    status: d.status,
                    timestamp,
                    message,
                    raw: line.to_owned(),
                })
            },
        }
    }
}

} // verus!
