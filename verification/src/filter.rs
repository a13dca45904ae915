//! Which parsed entries a run keeps: by status, substring, regex, time range, IP and subnet.
use crate::ip::{ip_value, network_contains, parse_ip, prefix_fits, IpAddress, IpNetwork};
use crate::text::{contains_seq, str_contains};
use crate::parser::apache::same_but_timestamp;
use crate::time::{chrono_parse_rfc3339, parsed_rfc3339};
use crate::types::{instant_before, LogEntry, Timestamp};
use vstd::prelude::*;

verus! {

/// `regex`'s compiled pattern.
#[verifier::external_type_specification]
#[verifier::external_body]
pub struct ExRegex(regex::Regex);

/// `regex`'s error for a pattern it cannot compile.
#[verifier::external_type_specification]
#[verifier::external_body]
pub struct ExRegexError(regex::Error);

/// Whether `regex::Regex::new` compiles `pattern` (it refuses bad syntax and patterns over its
/// default size limit).
pub uninterp spec fn regex_compiles(pattern: Seq<char>) -> bool;

/// Whether the regex compiled from `pattern` matches somewhere in `text` (`Regex::is_match`).
pub uninterp spec fn regex_finds(pattern: Seq<char>, text: Seq<char>) -> bool;

/// A compiled regex together with the pattern it was compiled from. Only `compile_regex` makes
/// one, so the two always belong together.
pub struct CompiledRegex {
    pattern: String,
    regex: regex::Regex,
}

impl CompiledRegex {
    /// The pattern this regex was compiled from.
    pub closed spec fn pattern(&self) -> Seq<char> {
        self.pattern@
    }
}

/// Calls `regex::Regex::new(pattern)` and keeps the pattern beside the compiled regex. The
/// contract claims that it succeeds exactly where `regex_compiles` holds of the pattern.
#[verifier::external_body]
fn compile_regex(pattern: &str) -> (r: Result<CompiledRegex, regex::Error>)
    ensures
        match r {
            Ok(c) => regex_compiles(pattern@) && c.pattern() == pattern@,
            Err(_) => !regex_compiles(pattern@),
        },
{
    match regex::Regex::new(pattern) {
        Ok(regex) => Ok(CompiledRegex { pattern: pattern.to_string(), regex }),
        Err(e) => Err(e),
    }
}

/// Calls `Regex::is_match(text)` on the compiled regex. The contract claims that the answer is
/// the one named by `regex_finds` for the pattern it was compiled from and `text`.
#[verifier::external_body]
fn regex_is_match(c: &CompiledRegex, text: &str) -> (b: bool)
    ensures
        b == regex_finds(c.pattern(), text@),
{
    c.regex.is_match(text)
}

/// The criteria a run filters by, each optional, as they are given on the command line.
pub struct FilterConfig {
    pub status: Option<u16>,
    pub contains: Option<String>,
    pub regex: Option<String>,
    pub from: Option<String>,
    pub to: Option<String>,
    pub ip: Option<String>,
    pub cidr: Option<String>,
}

impl Default for FilterConfig {
    fn default() -> (c: Self)
        ensures
            c.status is None,
            c.contains is None,
            c.regex is None,
            c.from is None,
            c.to is None,
            c.ip is None,
            c.cidr is None,
    {
        FilterConfig { status: None, contains: None, regex: None, from: None, to: None, ip: None, cidr: None }
    }
}

/// Why a filter configuration was refused: the first criterion that could not be read, in the
/// order regex, from, to, ip, cidr.
#[derive(Debug)]
pub enum FilterError {
    Regex(regex::Error),
    From(chrono::ParseError),
    To(chrono::ParseError),
    Ip,
    Cidr(ipnet::AddrParseError),
}

/// The criteria once read, as plain values.
pub struct FilterRules {
    pub status: Option<u16>,
    pub contains: Option<Seq<char>>,
    pub regex: Option<Seq<char>>,
    pub from: Option<Timestamp>,
    pub to: Option<Timestamp>,
    pub ip: Option<IpAddress>,
    pub cidr: Option<IpNetwork>,
}

/// A filter with its criteria read: the regex compiled, the time bounds, the address and the
/// network parsed.
pub struct FilterEngine {
    status: Option<u16>,
    contains: Option<String>,
    regex: Option<CompiledRegex>,
    from: Option<Timestamp>,
    to: Option<Timestamp>,
    ip: Option<IpAddress>,
    cidr: Option<IpNetwork>,
}

/// The characters of an optional string.
pub open spec fn opt_chars(o: Option<String>) -> Option<Seq<char>> {
    match o {
        Some(s) => Some(s@),
        None => None,
    }
}

impl View for FilterEngine {
    type V = FilterRules;

    closed spec fn view(&self) -> FilterRules {
        FilterRules {
            status: self.status,
            contains: opt_chars(self.contains),
            regex: match self.regex {
                Some(c) => Some(c.pattern()),
                None => None,
            },
            from: self.from,
            to: self.to,
            ip: self.ip,
            cidr: self.cidr,
        }
    }
}

impl FilterEngine {
    /// The network's prefix length fits its family.
    pub closed spec fn wf(&self) -> bool {
        self.cidr matches Some(n) ==> prefix_fits(n)
    }
}

/// The regex criterion can be compiled, or there is none.
pub open spec fn regex_ok(c: FilterConfig) -> bool {
    c.regex matches Some(p) ==> regex_compiles(p@)
}

/// The `from` bound is an RFC 3339 timestamp, or there is none.
pub open spec fn from_ok(c: FilterConfig) -> bool {
    c.from matches Some(t) ==> parsed_rfc3339(t@) is Some
}

/// The `to` bound is an RFC 3339 timestamp, or there is none.
pub open spec fn to_ok(c: FilterConfig) -> bool {
    c.to matches Some(t) ==> parsed_rfc3339(t@) is Some
}

/// The address criterion is an IP address literal, or there is none.
pub open spec fn ip_ok(c: FilterConfig) -> bool {
    c.ip matches Some(t) ==> ip_value(t@) is Some
}

/// The network criterion is in CIDR notation, or there is none.
pub open spec fn cidr_ok(c: FilterConfig) -> bool {
    c.cidr matches Some(t) ==> crate::ip::parsed_network(t@) is Some
}

/// What an optional text reads as, by `read`.
pub open spec fn read_opt<T>(o: Option<String>, read: spec_fn(Seq<char>) -> Option<T>) -> Option<T> {
    match o {
        Some(t) => read(t@),
        None => None,
    }
}

/// The criteria a valid configuration reads as.
pub open spec fn rules_of(c: FilterConfig) -> FilterRules {
    FilterRules {
        status: c.status,
        contains: opt_chars(c.contains),
        regex: opt_chars(c.regex),
        from: read_opt(c.from, |t: Seq<char>| parsed_rfc3339(t)),
        to: read_opt(c.to, |t: Seq<char>| parsed_rfc3339(t)),
        ip: read_opt(c.ip, |t: Seq<char>| ip_value(t)),
        cidr: read_opt(c.cidr, |t: Seq<char>| crate::ip::parsed_network(t)),
    }
}

/// The address an entry's `ip` field writes, if it has one and it is an address.
pub open spec fn entry_address(e: LogEntry) -> Option<IpAddress> {
    match e.ip {
        Some(s) => ip_value(s@),
        None => None,
    }
}

/// Whether rules `r` keep entry `e`: each criterion that is set holds. A time bound needs the
/// entry to carry a timestamp no earlier than `from` and no later than `to`; an address or
/// network criterion needs the entry's `ip` to be an address, equal to the one given and inside
/// the network given.
pub open spec fn accepts(r: FilterRules, e: LogEntry) -> bool {
    &&& (r.status matches Some(s) ==> e.status == Some(s))
    &&& (r.contains matches Some(n) ==> contains_seq(e.raw@, n))
    &&& (r.regex matches Some(p) ==> regex_finds(p, e.raw@))
    &&& ((r.from is Some || r.to is Some) ==> e.timestamp is Some)
    &&& (r.from matches Some(f) ==> (e.timestamp matches Some(t) ==> !instant_before(t, f)))
    &&& (r.to matches Some(u) ==> (e.timestamp matches Some(t) ==> !instant_before(u, t)))
    &&& ((r.ip is Some || r.cidr is Some) ==> match entry_address(e) {
        None => false,
        Some(a) => (r.ip matches Some(x) ==> a == x) && (r.cidr matches Some(n) ==> network_contains(n, a)),
    })
}

/// Rules that set no criterion.
pub open spec fn no_rules() -> FilterRules {
    FilterRules { status: None, contains: None, regex: None, from: None, to: None, ip: None, cidr: None }
}

/// The criteria of `r` taken one kind at a time: the status alone, the substring alone, the
/// regex alone, the time range alone, and the address and network alone.
pub open spec fn single_criteria(r: FilterRules) -> Seq<FilterRules> {
    seq![
        FilterRules { status: r.status, ..no_rules() },
        FilterRules { contains: r.contains, ..no_rules() },
        FilterRules { regex: r.regex, ..no_rules() },
        FilterRules { from: r.from, to: r.to, ..no_rules() },
        FilterRules { ip: r.ip, ..no_rules() },
        FilterRules { cidr: r.cidr, ..no_rules() },
    ]
}

/// A filter with no criterion keeps every entry, and the empty configuration is valid and reads
/// as no criterion.
pub proof fn lemma_empty_filter_keeps_everything(c: FilterConfig, e: LogEntry)
    requires
        c.status is None,
        c.contains is None,
        c.regex is None,
        c.from is None,
        c.to is None,
        c.ip is None,
        c.cidr is None,
    ensures
        regex_ok(c) && from_ok(c) && to_ok(c) && ip_ok(c) && cidr_ok(c),
        rules_of(c) == no_rules(),
        accepts(no_rules(), e),
{
}

/// Criteria combine by conjunction: a filter keeps an entry exactly when each of its criteria,
/// taken alone, would keep it.
pub proof fn lemma_criteria_combine_by_and(r: FilterRules, e: LogEntry)
    ensures
        accepts(r, e) <==> forall|i: int| 0 <= i < 6 ==> accepts(#[trigger] single_criteria(r)[i], e),
{
    let s = single_criteria(r);
    if accepts(r, e) {
        assert forall|i: int| 0 <= i < 6 implies accepts(#[trigger] s[i], e) by {
            if i == 0 {} else if i == 1 {} else if i == 2 {} else if i == 3 {} else if i == 4 {} else {}
        }
    } else {
        if forall|i: int| 0 <= i < 6 ==> accepts(#[trigger] s[i], e) {
            assert(accepts(s[0], e));
            assert(accepts(s[1], e));
            assert(accepts(s[2], e));
            assert(accepts(s[3], e));
            assert(accepts(s[4], e));
            assert(accepts(s[5], e));
        }
    }
}

/// A time range whose `from` lies after its `to` keeps no entry.
pub proof fn lemma_inverted_range_keeps_nothing(r: FilterRules, e: LogEntry)
    requires
        r.from matches Some(f) && r.to matches Some(u) && instant_before(u, f),
    ensures
        !accepts(r, e),
{
}

/// Without a time bound the verdict does not depend on the timestamp: reading timestamps or
/// not keeps the same entries.
pub proof fn lemma_verdict_ignores_timestamp_without_bounds(r: FilterRules, a: LogEntry, b: LogEntry)
    requires
        r.from is None,
        r.to is None,
        same_but_timestamp(a, b),
    ensures
        accepts(r, a) == accepts(r, b),
{
    assert(entry_address(a) == entry_address(b));
}

/// A regex criterion alone keeps an entry exactly when the regex finds a match somewhere in the
/// entry's raw line, whatever its parsed fields hold.
pub proof fn lemma_regex_alone_reads_raw_line(p: Seq<char>, e: LogEntry)
    ensures
        accepts(FilterRules { regex: Some(p), ..no_rules() }, e) == regex_finds(p, e.raw@),
{
}

/// The verdict reads an entry only through its status, its raw line, its timestamp and its
/// address field: entries that agree on these are kept or dropped together, whatever their
/// method, path or message.
pub proof fn lemma_verdict_reads_status_raw_time_ip(r: FilterRules, a: LogEntry, b: LogEntry)
    requires
        a.status == b.status,
        a.raw@ == b.raw@,
        a.timestamp == b.timestamp,
        opt_chars(a.ip) == opt_chars(b.ip),
    ensures
        accepts(r, a) == accepts(r, b),
{
    assert(entry_address(a) == entry_address(b));
}

fn clone_text(o: &Option<String>) -> (r: Option<String>)
    ensures
        opt_chars(r) == opt_chars(*o),
{
    match o {
        Some(s) => Some(s.clone()),
        None => None,
    }
}

impl FilterEngine {
    /// Reads the criteria of `config`. The first that cannot be read, in the order regex, from,
    /// to, ip, cidr, is the error.
    pub fn new(config: FilterConfig) -> (r: Result<FilterEngine, FilterError>)
        ensures
            r is Ok <==> (regex_ok(config) && from_ok(config) && to_ok(config) && ip_ok(config)
                && cidr_ok(config)),
            r matches Ok(e) ==> e.wf() && e@ == rules_of(config),
            r matches Err(FilterError::Regex(_)) ==> !regex_ok(config),
            r matches Err(FilterError::From(_)) ==> regex_ok(config) && !from_ok(config),
            r matches Err(FilterError::To(_)) ==> regex_ok(config) && from_ok(config) && !to_ok(config),
            r matches Err(FilterError::Ip) ==> regex_ok(config) && from_ok(config) && to_ok(config)
                && !ip_ok(config),
            r matches Err(FilterError::Cidr(_)) ==> regex_ok(config) && from_ok(config) && to_ok(config)
                && ip_ok(config) && !cidr_ok(config),
    {
        let regex = match &config.regex {
            Some(pattern) => match compile_regex(pattern.as_str()) {
                Ok(c) => Some(c),
                Err(e) => {
                    return Err(FilterError::Regex(e));
                },
            },
            None => None,
        };
        let from = match &config.from {
            Some(text) => match chrono_parse_rfc3339(text.as_str()) {
                Ok(t) => Some(t),
                Err(e) => {
                    return Err(FilterError::From(e));
                },
            },
            None => None,
        };
        let to = match &config.to {
            Some(text) => match chrono_parse_rfc3339(text.as_str()) {
                Ok(t) => Some(t),
                Err(e) => {
                    return Err(FilterError::To(e));
                },
            },
            None => None,
        };
        let ip = match &config.ip {
            Some(text) => match parse_ip(text.as_str()) {
                Some(a) => Some(a),
                None => {
                    return Err(FilterError::Ip);
                },
            },
            None => None,
        };
        let cidr = match &config.cidr {
            Some(text) => match crate::ip::ipnet_parse(text.as_str()) {
                Ok(n) => Some(n),
                Err(e) => {
                    return Err(FilterError::Cidr(e));
                },
            },
            None => None,
        };
        let engine = FilterEngine {
            status: config.status,
            contains: clone_text(&config.contains),
            regex,
            from,
            to,
            ip,
            cidr,
        };
        assert(engine@.regex == opt_chars(config.regex));
        Ok(engine)
    }

    /// Whether `entry` meets every criterion of this filter.
    pub fn accept(&self, entry: &LogEntry) -> (b: bool)
        requires
            self.wf(),
        ensures
            b == accepts(self@, *entry),
    {
        if let Some(status) = self.status {
            match entry.status {
                Some(s) => {
                    if s != status {
                        return false;
                    }
                },
                None => {
                    return false;
                },
            }
        }
        if let Some(needle) = &self.contains {
            if !str_contains(entry.raw.as_str(), needle.as_str()) {
                return false;
            }
        }
        if let Some(re) = &self.regex {
            if !regex_is_match(re, entry.raw.as_str()) {
                return false;
            }
        }
        if (self.from.is_some() || self.to.is_some()) && entry.timestamp.is_none() {
            return false;
        }
        if let Some(from) = &self.from {
            if let Some(ts) = &entry.timestamp {
                if ts.is_before(from) {
                    return false;
                }
            }
        }
        if let Some(to) = &self.to {
            if let Some(ts) = &entry.timestamp {
                if to.is_before(ts) {
                    return false;
                }
            }
        }
        if self.ip.is_some() || self.cidr.is_some() {
            let address = match &entry.ip {
                Some(text) => parse_ip(text.as_str()),
                None => None,
            };
            let a = match address {
                Some(a) => a,
                None => {
                    return false;
                },
            };
            if let Some(ip) = &self.ip {
                if a != *ip {
                    return false;
                }
            }
            if let Some(net) = &self.cidr {
                if !net.contains(&a) {
                    return false;
                }
            }
        }
        true
    }
}

} // verus!
