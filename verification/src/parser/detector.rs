//! Guessing the format of a log from a sample of its lines.
use crate::counts::string_views;
use crate::parser::apache::ApacheParser;
use crate::parser::combined::is_combined_line;
use crate::parser::json::{JsonLogEntry, JsonParser};
use crate::parser::nginx::{is_nginx_line, nginx_fields, NginxParser};
use crate::parser::LogParser;
use crate::text::{blank, is_blank};
use crate::types::LogFormat;
use vstd::prelude::*;

verus! {

/// How many of the first `k` lines are not blank and satisfy `ok` (which takes a line's index).
pub open spec fn score(lines: Seq<Seq<char>>, ok: spec_fn(int) -> bool, k: int) -> nat
    decreases k,
{
    if k <= 0 {
        0
    } else {
        score(lines, ok, k - 1) + (if !is_blank(lines[k - 1]) && ok(k - 1) { 1nat } else { 0nat })
    }
}

/// The format with the best score; Apache wins ties and is the answer when nothing scores.
pub open spec fn best_format(apache: nat, nginx: nat, json: nat) -> LogFormat {
    if apache == 0 && nginx == 0 && json == 0 {
        LogFormat::Apache
    } else if apache >= nginx && apache >= json {
        LogFormat::Apache
    } else if nginx >= json {
        LogFormat::Nginx
    } else {
        LogFormat::Json
    }
}

/// How many of the first `k` lines are non-blank lines of the combined (Apache) shape.
pub open spec fn apache_score(lines: Seq<Seq<char>>, k: int) -> nat {
    score(lines, |i: int| is_combined_line(lines[i]), k)
}

/// How many of the first `k` lines are non-blank lines of the Nginx shape.
pub open spec fn nginx_score(lines: Seq<Seq<char>>, k: int) -> nat {
    score(lines, |i: int| is_nginx_line(lines[i]), k)
}

/// How many of the first `k` lines are non-blank lines that a JSON decoder read.
pub open spec fn json_score(lines: Seq<Seq<char>>, decoded: Seq<Option<JsonLogEntry>>, k: int) -> nat {
    score(lines, |i: int| decoded[i] is Some, k)
}

/// The scores of the three formats over `lines`, where `decoded[i]` is what a JSON decoder read
/// from `lines[i]`.
pub open spec fn format_scores(lines: Seq<Seq<char>>, decoded: Seq<Option<JsonLogEntry>>) -> (
    nat,
    nat,
    nat,
) {
    (
        apache_score(lines, lines.len() as int),
        nginx_score(lines, lines.len() as int),
        json_score(lines, decoded, lines.len() as int),
    )
}

/// The format that `detect_format` picks.
pub open spec fn detected_format(lines: Seq<Seq<char>>, decoded: Seq<Option<JsonLogEntry>>) -> LogFormat {
    let (a, n, j) = format_scores(lines, decoded);
    best_format(a, n, j)
}

/// Scores each format by how many of the non-blank `lines` its parser reads, and picks the best
/// (Apache on ties, and when no line parses). `decoded[i]` is what a JSON decoder read from
/// `lines[i]`.
pub fn detect_format(lines: &[String], decoded: &[Option<JsonLogEntry>]) -> (f: LogFormat)
    requires
        lines.len() == decoded.len(),
    ensures
        f == detected_format(string_views(lines@), decoded@),
{
    let ghost views = string_views(lines@);
    let apache = ApacheParser::new();
    let nginx = NginxParser::new();
    let json = JsonParser::new();
    let mut apache_hits: usize = 0;
    let mut nginx_hits: usize = 0;
    let mut json_hits: usize = 0;
    let mut i: usize = 0;
    while i < lines.len()
        invariant
            i <= lines.len(),
            lines.len() == decoded.len(),
            views == string_views(lines@),
            apache_hits == apache_score(views, i as int),
            nginx_hits == nginx_score(views, i as int),
            json_hits == json_score(views, decoded@, i as int),
            apache_hits <= i && nginx_hits <= i && json_hits <= i,
        decreases lines.len() - i,
    {
        let line = &lines[i];
        assert(views[i as int] == line@);
        if !blank(line.as_str()) {
            let a = apache.parse(line.as_str());
            assert(a is Ok <==> is_combined_line(line@));
            if a.is_ok() {
                apache_hits = apache_hits + 1;
            }
            let n = nginx.parse(line.as_str());
            assert(n is Ok <==> is_nginx_line(line@));
            if n.is_ok() {
                nginx_hits = nginx_hits + 1;
            }
            if json.parse(line.as_str(), &decoded[i]).is_ok() {
                json_hits = json_hits + 1;
            }
        }
        i = i + 1;
    }
    if apache_hits == 0 && nginx_hits == 0 && json_hits == 0 {
        return LogFormat::Apache;
    }
    if apache_hits >= nginx_hits && apache_hits >= json_hits {
        LogFormat::Apache
    } else if nginx_hits >= json_hits {
        LogFormat::Nginx
    } else {
        LogFormat::Json
    }
}

/// Every line of the Nginx shape also has the combined (Apache) shape.
pub proof fn lemma_nginx_line_is_apache_line(line: Seq<char>)
    ensures
        is_nginx_line(line) ==> is_combined_line(line),
{
    if is_nginx_line(line) {
        let f = choose|f| nginx_fields(line, f);
        assert(crate::parser::combined::combined_fields(line, f));
    }
}

/// The Nginx score never exceeds the Apache score.
proof fn lemma_nginx_score_bounded(lines: Seq<Seq<char>>, k: int)
    ensures
        nginx_score(lines, k) <= apache_score(lines, k),
    decreases k,
{
    if k > 0 {
        lemma_nginx_score_bounded(lines, k - 1);
        lemma_nginx_line_is_apache_line(lines[k - 1]);
    }
}

/// Detection never answers Nginx (an Nginx line is an Apache line too, and Apache wins ties),
/// nor `Auto`: it answers Apache or JSON.
pub proof fn lemma_detection_is_apache_or_json(lines: Seq<Seq<char>>, decoded: Seq<Option<JsonLogEntry>>)
    ensures
        detected_format(lines, decoded) == LogFormat::Apache || detected_format(lines, decoded)
            == LogFormat::Json,
{
    lemma_nginx_score_bounded(lines, lines.len() as int);
}

} // verus!
