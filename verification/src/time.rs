//! Reading timestamps, by way of `chrono`.
use crate::types::Timestamp;
use vstd::prelude::*;

verus! {

/// `chrono`'s error for text that is not a timestamp.
#[verifier::external_type_specification]
#[verifier::external_body]
pub struct ExChronoParseError(chrono::ParseError);

/// The instant that `chrono::DateTime::parse_from_str` reads from `text` under the strftime-style
/// `format`, or `None` where it reports an error.
pub uninterp spec fn parsed_with_format(text: Seq<char>, format: Seq<char>) -> Option<Timestamp>;

/// The instant that `chrono::DateTime::parse_from_rfc3339` reads from `text`, or `None` where it
/// reports an error.
pub uninterp spec fn parsed_rfc3339(text: Seq<char>) -> Option<Timestamp>;

/// Calls `chrono::DateTime::<FixedOffset>::parse_from_str(text, format)` and gives the result as
/// a `Timestamp` (`timestamp()`, `timestamp_subsec_nanos()`, `offset().local_minus_utc()`).
/// The contract claims only that the outcome is the one named by `parsed_with_format` for these
/// two arguments: the result depends on them alone.
#[verifier::external_body]
fn chrono_parse_from_str(text: &str, format: &str) -> (r: Result<Timestamp, chrono::ParseError>)
    ensures
        match r {
            Ok(t) => parsed_with_format(text@, format@) == Some(t),
            Err(_) => parsed_with_format(text@, format@) is None,
        },
{
    match chrono::DateTime::parse_from_str(text, format) {
        Ok(dt) => Ok(Timestamp {
            seconds: dt.timestamp(),
            nanos: dt.timestamp_subsec_nanos(),
            offset_seconds: dt.offset().local_minus_utc(),
        }),
        Err(e) => Err(e),
    }
}

/// Calls `chrono::DateTime::parse_from_rfc3339(text)` and gives the result as a `Timestamp`.
/// The contract claims only that the outcome is the one named by `parsed_rfc3339` for `text`.
#[verifier::external_body]
pub(crate) fn chrono_parse_rfc3339(text: &str) -> (r: Result<Timestamp, chrono::ParseError>)
    ensures
        match r {
            Ok(t) => parsed_rfc3339(text@) == Some(t),
            Err(_) => parsed_rfc3339(text@) is None,
        },
{
    match chrono::DateTime::parse_from_rfc3339(text) {
        Ok(dt) => Ok(Timestamp {
            seconds: dt.timestamp(),
            nanos: dt.timestamp_subsec_nanos(),
            offset_seconds: dt.offset().local_minus_utc(),
        }),
        Err(e) => Err(e),
    }
}

/// The format of the time field of a combined access log line, e.g. `10/Oct/2023:13:55:36 +0000`.
pub open spec fn access_log_time_format() -> Seq<char> {
    "%d/%b/%Y:%H:%M:%S %z"@
}

/// The instant written in the time field of an access log line, if it is one.
pub open spec fn access_log_time(text: Seq<char>) -> Option<Timestamp> {
    parsed_with_format(text, access_log_time_format())
}

impl Timestamp {
    /// Reads an RFC 3339 timestamp such as `2023-10-10T13:55:36+00:00`.
    pub fn from_rfc3339(text: &str) -> (r: Option<Timestamp>)
        ensures
            r == parsed_rfc3339(text@),
    {
        match chrono_parse_rfc3339(text) {
            Ok(t) => Some(t),
            Err(_) => None,
        }
    }

    /// Reads the time field of an access log line, such as `10/Oct/2023:13:55:36 +0000`.
    pub fn from_access_log(text: &str) -> (r: Option<Timestamp>)
        ensures
            r == access_log_time(text@),
    {
        match chrono_parse_from_str(text, "%d/%b/%Y:%H:%M:%S %z") {
            Ok(t) => Some(t),
            Err(_) => None,
        }
    }
}

} // verus!
