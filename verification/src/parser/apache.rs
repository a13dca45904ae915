//! Apache combined access log lines.
use crate::parser::combined::{
    combined_fields, is_combined_line, lemma_combined_fields_unique, scan_combined, span_fields,
    spans_in_order, CombinedFields,
    CombinedSpans,
};
use crate::parser::LogParser;
use crate::text::chars_of;
use crate::time::access_log_time;
use crate::types::{opt_view, LogEntry, Timestamp};
use vstd::prelude::*;
use vstd::string::StrSliceExecFns;

verus! {

/// The value of an ASCII decimal digit.
pub open spec fn ascii_digit_value(c: char) -> int {
    (c as u32) - ('0' as u32)
}

/// Whether `c` is one of the ASCII digits `0` to `9`.
pub open spec fn is_ascii_digit(c: char) -> bool {
    '0' <= c && c <= '9'
}

/// What `str::parse::<u16>` gives for a status of three decimal digits: its value if all three
/// are ASCII digits, nothing if any is a digit of another script.
pub open spec fn status_value(s: Seq<char>) -> Option<u16> {
    if s.len() == 3 && is_ascii_digit(s[0]) && is_ascii_digit(s[1]) && is_ascii_digit(s[2]) {
        Some((100 * ascii_digit_value(s[0]) + 10 * ascii_digit_value(s[1]) + ascii_digit_value(
            s[2],
        )) as u16)
    } else {
        None
    }
}

/// `e` holds the fields `f` of `line`, with `timestamp` for its time.
pub open spec fn entry_from_fields(
    e: LogEntry,
    line: Seq<char>,
    f: CombinedFields,
    timestamp: Option<Timestamp>,
) -> bool {
    &&& opt_view(e.ip) == Some(f.ip)
    &&& opt_view(e.method) == Some(f.method)
    &&& opt_view(e.path) == Some(f.path)
    &&& e.status == status_value(f.status)
    &&& e.timestamp == timestamp
    &&& e.message@ == Seq::<char>::empty()
    &&& e.raw@ == line
}

/// What parsing `line` as an Apache line gives, reading the time only when `timestamps` holds:
/// the entry for its fields, or the error `invalid apache line` where it is not of that shape.
pub open spec fn apache_result(timestamps: bool, line: Seq<char>, r: Result<LogEntry, String>) -> bool {
    match r {
        Ok(e) => exists|f: CombinedFields| #[trigger]
            combined_fields(line, f) && entry_from_fields(
                e,
                line,
                f,
                if timestamps { access_log_time(f.time) } else { None },
            ),
        Err(m) => !is_combined_line(line) && m@ == "invalid apache line"@,
    }
}

/// The three characters of a status field are ASCII digits.
pub open spec fn ascii_status(s: Seq<char>) -> bool {
    s.len() == 3 && forall|i: int| 0 <= i < 3 ==> crate::ip::is_dec_digit(#[trigger] s[i])
}

proof fn lemma_status_value_is_digits(s: Seq<char>)
    ensures
        ascii_status(s) ==> status_value(s) == Some(crate::ip::digits_value(s, 10) as u16)
            && crate::ip::digits_value(s, 10) < 1000,
        !ascii_status(s) ==> status_value(s) is None,
{
    if ascii_status(s) {
        assert(crate::ip::is_dec_digit(s[0]) && crate::ip::is_dec_digit(s[1])
            && crate::ip::is_dec_digit(s[2]));
        let s2 = s.drop_last();
        let s1 = s2.drop_last();
        let s0 = s1.drop_last();
        assert(s0 =~= Seq::<char>::empty());
        assert(s1.last() == s[0] && s2.last() == s[1] && s.last() == s[2]);
        assert(crate::ip::digits_value(s0, 10) == 0);
        assert(crate::ip::digits_value(s1, 10) == crate::ip::digits_value(s0, 10) * 10
            + crate::ip::digit_value(s1.last()));
        assert(crate::ip::digits_value(s2, 10) == crate::ip::digits_value(s1, 10) * 10
            + crate::ip::digit_value(s2.last()));
        assert(crate::ip::digits_value(s, 10) == crate::ip::digits_value(s2, 10) * 10
            + crate::ip::digit_value(s.last()));
    } else if s.len() == 3 {
        if !crate::ip::is_dec_digit(s[0]) {
        } else if !crate::ip::is_dec_digit(s[1]) {
        } else {
            assert(!crate::ip::is_dec_digit(s[2]));
        }
    }
}

/// The status of an entry read from an Apache line is the number that the line's status field
/// writes in decimal (its value as `str::parse::<u16>` reads it) when its three digits are ASCII,
/// and missing when any of them is a digit of another script.
pub proof fn lemma_apache_status_is_field_value(
    timestamps: bool,
    line: Seq<char>,
    e: LogEntry,
    f: CombinedFields,
)
    requires
        line.len() <= usize::MAX,
        apache_result(timestamps, line, Ok(e)),
        combined_fields(line, f),
    ensures
        ascii_status(f.status) ==> e.status == Some(crate::ip::digits_value(f.status, 10) as u16)
            && crate::ip::digits_value(f.status, 10) < 1000,
        !ascii_status(f.status) ==> e.status is None,
{
    let g = choose|g: CombinedFields| #[trigger]
        combined_fields(line, g) && entry_from_fields(
            e,
            line,
            g,
            if timestamps { access_log_time(g.time) } else { None },
        );
    lemma_combined_fields_unique(line, f, g);
    lemma_status_value_is_digits(f.status);
}

/// The same for a status read through the shared shape of the Apache and Nginx lines: where `e`
/// holds the fields `f` of `line`, its status is the decimal value of `f`'s ASCII status digits.
pub proof fn lemma_entry_status_is_field_value(
    e: LogEntry,
    line: Seq<char>,
    f: CombinedFields,
    timestamp: Option<Timestamp>,
)
    requires
        entry_from_fields(e, line, f, timestamp),
    ensures
        ascii_status(f.status) ==> e.status == Some(crate::ip::digits_value(f.status, 10) as u16),
        !ascii_status(f.status) ==> e.status is None,
{
    lemma_status_value_is_digits(f.status);
}

/// Whether `a` and `b` hold the same fields, the timestamp aside.
pub open spec fn same_but_timestamp(a: LogEntry, b: LogEntry) -> bool {
    &&& opt_view(a.ip) == opt_view(b.ip)
    &&& opt_view(a.method) == opt_view(b.method)
    &&& opt_view(a.path) == opt_view(b.path)
    &&& a.status == b.status
    &&& a.message@ == b.message@
    &&& a.raw@ == b.raw@
}

/// Reading the time field changes nothing but the timestamp: a line parses with timestamps on
/// exactly when it parses with them off, to the same fields, and with them off the timestamp
/// is left out.
pub proof fn lemma_timestamps_touch_only_the_timestamp(
    line: Seq<char>,
    with_time: Result<LogEntry, String>,
    without_time: Result<LogEntry, String>,
)
    requires
        line.len() <= usize::MAX,
        apache_result(true, line, with_time),
        apache_result(false, line, without_time),
    ensures
        with_time is Ok <==> without_time is Ok,
        with_time matches Ok(a) ==> without_time matches Ok(b) && same_but_timestamp(a, b)
            && b.timestamp is None,
{
    if with_time is Ok && without_time is Ok {
        let a = with_time->Ok_0;
        let b = without_time->Ok_0;
        let f = choose|f: CombinedFields| #[trigger] combined_fields(line, f) && entry_from_fields(
            a,
            line,
            f,
            access_log_time(f.time),
        );
        let g = choose|g: CombinedFields| #[trigger] combined_fields(line, g) && entry_from_fields(
            b,
            line,
            g,
            None,
        );
        lemma_combined_fields_unique(line, f, g);
    }
}

/// Reads the status field at `v[start..start + 3]`.
pub(crate) fn status_at(v: &Vec<char>, start: usize) -> (r: Option<u16>)
    requires
        start + 3 <= v.len(),
    ensures
        r == status_value(v@.subrange(start as int, start + 3)),
{
    let ghost s = v@.subrange(start as int, start + 3);
    let a = v[start];
    let b = v[start + 1];
    let c = v[start + 2];
    assert(s[0] == a && s[1] == b && s[2] == c);
    if '0' <= a && a <= '9' && '0' <= b && b <= '9' && '0' <= c && c <= '9' {
        let va: u16 = (a as u32 - '0' as u32) as u16;
        let vb: u16 = (b as u32 - '0' as u32) as u16;
        let vc: u16 = (c as u32 - '0' as u32) as u16;
        Some(100 * va + 10 * vb + vc)
    } else {
        None
    }
}

/// Builds the entry for a line whose fields `sp` marks out.
pub(crate) fn entry_from_spans(
    line: &str,
    v: &Vec<char>,
    sp: &CombinedSpans,
    timestamp: Option<Timestamp>,
) -> (e: LogEntry)
    requires
        v@ == line@,
        combined_fields(v@, span_fields(v@, *sp)),
        spans_in_order(*sp, v@.len()),
    ensures
        entry_from_fields(e, line@, span_fields(v@, *sp), timestamp),
{
    assert(v.len() == v@.len());
    let ip = line.substring_char(0, sp.ip_end).to_owned();
    let method = line.substring_char(sp.time_end + 3, sp.method_end).to_owned();
    let path = line.substring_char(sp.method_end + 1, sp.path_end).to_owned();
    let status = status_at(v, sp.protocol_end + 2);
    LogEntry {
        ip: Some(ip),
        method: Some(method),
        path: Some(path),
        status,
        timestamp,
        message: String::new(),
        raw: line.to_owned(),
    }
}

/// Parser for the Apache combined log format.
pub struct ApacheParser {
    parse_timestamp: bool,
}

impl ApacheParser {
    /// Whether parsing reads the time field into `timestamp`.
    pub closed spec fn timestamps_enabled(&self) -> bool {
        self.parse_timestamp
    }

    /// A parser that reads timestamps.
    pub fn new() -> (p: Self)
        ensures
            p.timestamps_enabled(),
    {
        ApacheParser { parse_timestamp: true }
    }

    /// Turns reading the time field on or off. The time filters are the only consumer of the
    /// timestamp, so it pays to leave it off when they are not in use.
    pub fn with_timestamps(self, enabled: bool) -> (p: Self)
        ensures
            p.timestamps_enabled() == enabled,
    {
        ApacheParser { parse_timestamp: enabled }
    }
}

impl Default for ApacheParser {
    fn default() -> (p: Self)
        ensures
            p.timestamps_enabled(),
    {
        Self::new()
    }
}

impl LogParser for ApacheParser {
    /// Reads a line of the combined shape; the time is read only when timestamps are enabled.
    fn parse(&self, line: &str) -> (r: Result<LogEntry, String>)
        ensures
            apache_result(self.timestamps_enabled(), line@, r),
    {
        let v = chars_of(line);
        match scan_combined(&v) {
            None => Err("invalid apache line".to_owned()),
            Some(sp) => {
                let timestamp = if self.parse_timestamp {
                    let time = line.substring_char(sp.user_end + 2, sp.time_end);
                    Timestamp::from_access_log(time)
                } else {
                    None
                };
                let e = entry_from_spans(line, &v, &sp, timestamp);
                assert(combined_fields(line@, span_fields(v@, sp)));
                Ok(e)
            },
        }
    }
}

} // verus!
