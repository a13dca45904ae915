//! Nginx access log lines: the combined shape with `-` for both the identity and the user.
use crate::parser::apache::{entry_from_fields, entry_from_spans};
use crate::parser::combined::{
    combined_fields, lemma_combined_fields_unique, scan_combined, span_fields, CombinedFields,
};
use crate::parser::LogParser;
use crate::text::chars_of;
use crate::time::access_log_time;
use crate::types::{LogEntry, Timestamp};
use vstd::prelude::*;
use vstd::string::StrSliceExecFns;

verus! {

/// `f` reads `line` as a combined line whose identity and user fields are both `-`.
pub open spec fn nginx_fields(line: Seq<char>, f: CombinedFields) -> bool {
    combined_fields(line, f) && f.ident == seq!['-'] && f.user == seq!['-']
}

/// Whether `line` has the Nginx shape.
pub open spec fn is_nginx_line(line: Seq<char>) -> bool {
    exists|f: CombinedFields| #[trigger] nginx_fields(line, f)
}

/// What parsing `line` as an Nginx line gives: the entry for its fields, time included, or the
/// error `invalid nginx line` where it is not of that shape.
pub open spec fn nginx_result(line: Seq<char>, r: Result<LogEntry, String>) -> bool {
    match r {
        Ok(e) => exists|f: CombinedFields| #[trigger]
            nginx_fields(line, f) && entry_from_fields(e, line, f, access_log_time(f.time)),
        Err(m) => !is_nginx_line(line) && m@ == "invalid nginx line"@,
    }
}

/// The status of an entry read from an Nginx line is the number that the line's status field
/// writes in decimal when its three digits are ASCII, and missing otherwise.
pub proof fn lemma_nginx_status_is_field_value(line: Seq<char>, e: LogEntry, f: CombinedFields)
    requires
        line.len() <= usize::MAX,
        nginx_result(line, Ok(e)),
        nginx_fields(line, f),
    ensures
        crate::parser::apache::ascii_status(f.status) ==> e.status == Some(
            crate::ip::digits_value(f.status, 10) as u16,
        ),
        !crate::parser::apache::ascii_status(f.status) ==> e.status is None,
{
    let g = choose|g: CombinedFields| #[trigger]
        nginx_fields(line, g) && entry_from_fields(e, line, g, access_log_time(g.time));
    lemma_combined_fields_unique(line, f, g);
    crate::parser::apache::lemma_entry_status_is_field_value(e, line, g, access_log_time(g.time));
}

/// Parser for the Nginx access log format.
pub struct NginxParser {}

impl NginxParser {
    /// A parser for Nginx access lines.
    pub fn new() -> (p: Self) {
        NginxParser {  }
    }
}

impl LogParser for NginxParser {
    /// Reads a line of the Nginx shape, time included.
    fn parse(&self, line: &str) -> (r: Result<LogEntry, String>)
        ensures
            nginx_result(line@, r),
    {
        let v = chars_of(line);
        match scan_combined(&v) {
            None => {
                assert forall|f: CombinedFields| !#[trigger] nginx_fields(line@, f) by {
                    if nginx_fields(line@, f) {
                        assert(combined_fields(v@, f));
                    }
                }
                Err("invalid nginx line".to_owned())
            },
            Some(sp) => {
                let ghost f = span_fields(v@, sp);
                assert(v@.len() == v.len());
                assert(f.ident =~= v@.subrange(sp.ip_end + 1, sp.ident_end as int));
                let dashes = sp.ident_end == sp.ip_end + 2 && v[sp.ip_end + 1] == '-'
                    && sp.user_end == sp.ident_end + 2 && v[sp.ident_end + 1] == '-';
                if !dashes {
                    assert forall|g: CombinedFields| !#[trigger] nginx_fields(line@, g) by {
                        if nginx_fields(line@, g) {
                            lemma_combined_fields_unique(v@, f, g);
                            assert(f.ident[0] == v@[sp.ip_end + 1]);
                            assert(f.user[0] == v@[sp.ident_end + 1]);
                        }
                    }
                    return Err("invalid nginx line".to_owned());
                }
                assert(f.ident =~= seq!['-']);
                assert(f.user =~= seq!['-']);
                let time = line.substring_char(sp.user_end + 2, sp.time_end);
                let timestamp = Timestamp::from_access_log(time);
                let e = entry_from_spans(line, &v, &sp, timestamp);
                assert(nginx_fields(line@, f));
                Ok(e)
            },
        }
    }
}

} // verus!
