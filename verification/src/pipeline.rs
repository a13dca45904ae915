//! One run's decisions: which parser reads the lines, which lines sample the format, and how
//! each line's outcome is folded into `Stats`.
use crate::analyzer::{bump, samples_view, total, MAX_ERROR_SAMPLES};
use crate::filter::{accepts, FilterEngine};
use crate::parser::apache::{apache_result, ApacheParser};
use crate::parser::json::{json_result, JsonLogEntry, JsonParser};
use crate::parser::nginx::{nginx_result, NginxParser};
use crate::parser::LogParser;
use crate::text::{blank, is_blank};
use crate::types::{LogEntry, LogFormat, Stats};
use vstd::prelude::*;

verus! {

broadcast use vstd::std_specs::hash::group_hash_axioms;

/// How many non-blank lines from the start of a log are read to guess its format.
pub const DETECTION_SAMPLE_SIZE: usize = 50;

/// The parser a run uses, once the format is known.
pub enum LineParser {
    Apache(ApacheParser),
    Nginx(NginxParser),
    Json(JsonParser),
}

/// What `parser` gives for `line`, where `decoded` is what a JSON decoder read from it.
pub open spec fn line_result(
    parser: LineParser,
    line: Seq<char>,
    decoded: Option<JsonLogEntry>,
    r: Result<LogEntry, String>,
) -> bool {
    match parser {
        LineParser::Apache(p) => apache_result(p.timestamps_enabled(), line, r),
        LineParser::Nginx(_) => nginx_result(line, r),
        LineParser::Json(_) => json_result(line, decoded, r),
    }
}

impl LineParser {
    /// The parser for `format`; an Apache parser reads timestamps only when `parse_timestamp`
    /// holds. The format must have been resolved (it is not `Auto`).
    pub fn for_format(format: LogFormat, parse_timestamp: bool) -> (p: LineParser)
        requires
            format != LogFormat::Auto,
        ensures
            match p {
                LineParser::Apache(a) => format == LogFormat::Apache && a.timestamps_enabled()
                    == parse_timestamp,
                LineParser::Nginx(_) => format == LogFormat::Nginx,
                LineParser::Json(_) => format == LogFormat::Json,
            },
    {
        match format {
            LogFormat::Apache => LineParser::Apache(ApacheParser::new().with_timestamps(parse_timestamp)),
            LogFormat::Nginx => LineParser::Nginx(NginxParser::new()),
            _ => LineParser::Json(JsonParser::new()),
        }
    }

    /// Reads `line` with this parser; `decoded` is what a JSON decoder read from it, and only
    /// the JSON parser looks at it.
    pub fn parse(&self, line: &str, decoded: &Option<JsonLogEntry>) -> (r: Result<LogEntry, String>)
        ensures
            line_result(*self, line@, *decoded, r),
    {
        match self {
            LineParser::Apache(p) => p.parse(line),
            LineParser::Nginx(p) => p.parse(line),
            LineParser::Json(p) => p.parse(line, decoded),
        }
    }
}

impl Stats {
    /// What the counters always satisfy when they are only changed line by line: no more
    /// parsed and failed lines than lines read; every status code and path counted at least
    /// once and at most once per parsed line, and the counts of each kind summing to no more
    /// than the parsed lines; at most `MAX_ERROR_SAMPLES` samples, no more than
    /// failures, on distinct lines already read, in the order they were read.
    pub open spec fn consistent(&self) -> bool {
        &&& self.wf()
        &&& self.parsed_lines + self.parse_errors <= self.total_lines
        &&& forall|c: u16| #[trigger]
            self.status_counts@.contains_key(c) ==> 1 <= self.status_counts@[c] <= self.parsed_lines
        &&& forall|p: Seq<char>| #[trigger]
            self.top_paths@.contains_key(p) ==> 1 <= self.top_paths@[p] <= self.parsed_lines
        &&& total(self.status_counts@) <= self.parsed_lines
        &&& total(self.top_paths@) <= self.parsed_lines
        &&& self.error_samples.len() <= MAX_ERROR_SAMPLES
        &&& self.error_samples.len() <= self.parse_errors
        &&& forall|i: int|
            0 <= i < self.error_samples.len() ==> 1 <= (#[trigger] self.error_samples@[i]).0
                <= self.total_lines
        &&& forall|i: int, j: int|
            0 <= i < j < self.error_samples.len() ==> (#[trigger] self.error_samples@[i]).0
                < (#[trigger] self.error_samples@[j]).0
    }

    /// Folds one line into the counters: the line is counted; an entry that the filter keeps is
    /// counted with its status and path; a parse failure is counted and sampled with this
    /// line's number while there is room.
    pub fn record_line(&mut self, outcome: &Result<LogEntry, String>, filters: &FilterEngine)
        requires
            old(self).consistent(),
            old(self).total_lines < usize::MAX,
            filters.wf(),
        ensures
            final(self).consistent(),
            final(self).total_lines == old(self).total_lines + 1,
            final(self).parsed_lines == old(self).parsed_lines + (match *outcome {
                Ok(e) => if accepts(filters@, e) { 1int } else { 0int },
                Err(_) => 0int,
            }),
            final(self).parse_errors == old(self).parse_errors + (if outcome is Err { 1int } else { 0int }),
            final(self).status_counts@ == (match *outcome {
                Ok(e) => if accepts(filters@, e) && e.status is Some {
                    bump(old(self).status_counts@, e.status->0)
                } else {
                    old(self).status_counts@
                },
                Err(_) => old(self).status_counts@,
            }),
            final(self).top_paths@ == (match *outcome {
                Ok(e) => if accepts(filters@, e) && e.path is Some {
                    bump(old(self).top_paths@, e.path->0@)
                } else {
                    old(self).top_paths@
                },
                Err(_) => old(self).top_paths@,
            }),
            samples_view(final(self).error_samples@) == (match *outcome {
                Err(m) => if old(self).error_samples.len() < MAX_ERROR_SAMPLES {
                    samples_view(old(self).error_samples@).push((
                        (old(self).total_lines + 1) as usize,
                        m@,
                    ))
                } else {
                    samples_view(old(self).error_samples@)
                },
                Ok(_) => samples_view(old(self).error_samples@),
            }),
    {
        let ghost before = *self;
        self.on_line_read();
        match outcome {
            Ok(entry) => {
                if filters.accept(entry) {
                    self.on_parsed_entry(entry);
                    proof {
                        assert forall|c: u16| #[trigger] self.status_counts@.contains_key(c) implies 1
                            <= self.status_counts@[c] <= self.parsed_lines by {
                            if before.status_counts@.contains_key(c) {
                            }
                        }
                        assert forall|p: Seq<char>| #[trigger] self.top_paths@.contains_key(p) implies 1
                            <= self.top_paths@[p] <= self.parsed_lines by {
                            if before.top_paths@.contains_key(p) {
                            }
                        }
                    }
                }
                proof {
                    assert(self.wf());
                    assert(self.parsed_lines + self.parse_errors <= self.total_lines);
                    assert(self.error_samples@ == before.error_samples@);
                    assert(self.error_samples.len() <= MAX_ERROR_SAMPLES);
                    assert(self.error_samples.len() <= self.parse_errors);
                }
            },
            Err(message) => {
                self.on_parse_error(message.as_str());
                proof {
                    let sv = samples_view(self.error_samples@);
                    let old_sv = samples_view(before.error_samples@);
                    let n = before.error_samples.len();
                    assert(sv.len() == self.error_samples@.len());
                    assert(old_sv.len() == n);
                    assert(self.error_samples.len() <= n + 1);
                    assert forall|i: int| 0 <= i < self.error_samples.len() implies 1 <= (
                    #[trigger] self.error_samples@[i]).0 <= self.total_lines by {
                        assert(sv[i].0 == self.error_samples@[i].0);
                        if i < n {
                            assert(old_sv[i].0 == before.error_samples@[i].0);
                            assert(sv[i] == old_sv[i]);
                        } else {
                            assert(sv[i].0 == before.total_lines + 1);
                        }
                    }
                    assert forall|i: int, j: int|
                        0 <= i < j < self.error_samples.len() implies (
                        #[trigger] self.error_samples@[i]).0 < (#[trigger] self.error_samples@[j]).0 by {
                        assert(sv[i].0 == self.error_samples@[i].0);
                        assert(sv[j].0 == self.error_samples@[j].0);
                        assert(i < n);
                        assert(old_sv[i].0 == before.error_samples@[i].0);
                        assert(sv[i] == old_sv[i]);
                        if j < n {
                            assert(old_sv[j].0 == before.error_samples@[j].0);
                            assert(sv[j] == old_sv[j]);
                        } else {
                            assert(sv[j].0 == before.total_lines + 1);
                        }
                    }
                }
            },
        }
    }
}

/// The first non-blank lines of a log, up to a limit, for guessing its format.
pub struct LineSample {
    pub lines: Vec<String>,
    pub limit: usize,
}

impl LineSample {
    /// An empty sample that will take up to `limit` lines.
    pub fn new(limit: usize) -> (s: LineSample)
        ensures
            s.lines@.len() == 0,
            s.limit == limit,
    {
        LineSample { lines: Vec::new(), limit }
    }

    /// Whether the sample still takes lines.
    pub fn wants_more(&self) -> (b: bool)
        ensures
            b == (self.lines.len() < self.limit),
    {
        self.lines.len() < self.limit
    }

    /// Offers the next line of the log: a blank line is skipped, any other is taken.
    pub fn offer(&mut self, line: String)
        ensures
            final(self).limit == old(self).limit,
            final(self).lines@ == (if is_blank(line@) { old(self).lines@ } else {
                old(self).lines@.push(line)
            }),
    {
        if !blank(line.as_str()) {
            self.lines.push(line);
        }
    }
}

} // verus!
