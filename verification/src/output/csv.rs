//! The summary as comma-separated `metric,value` rows.
use crate::analyzer::samples_view;
use crate::output::Report;
use crate::text::{decimal, lemma_decimal_writes_number, push_decimal, push_str, string_from_chars, writes_number};
use vstd::prelude::*;

verus! {

/// `s` quoted for a CSV field body: each double quote doubled.
pub open spec fn csv_escape(s: Seq<char>) -> Seq<char>
    decreases s.len(),
{
    if s.len() == 0 {
        Seq::empty()
    } else {
        csv_escape(s.drop_last()) + (if s.last() == '"' {
            seq!['"', '"']
        } else {
            seq![s.last()]
        })
    }
}

/// One `status_<code>,<count>` row per status code.
pub open spec fn csv_status_rows(rows: Seq<(u16, usize)>) -> Seq<char>
    decreases rows.len(),
{
    if rows.len() == 0 {
        Seq::empty()
    } else {
        csv_status_rows(rows.drop_last()) + "status_"@ + decimal(rows.last().0 as nat) + ","@
            + decimal(rows.last().1 as nat) + "\n"@
    }
}

/// One `error_line_<line>,"<message>"` row per kept parse failure, the message escaped.
pub open spec fn csv_sample_rows(rows: Seq<(usize, Seq<char>)>) -> Seq<char>
    decreases rows.len(),
{
    if rows.len() == 0 {
        Seq::empty()
    } else {
        csv_sample_rows(rows.drop_last()) + "error_line_"@ + decimal(rows.last().0 as nat)
            + ",\""@ + csv_escape(rows.last().1) + "\"\n"@
    }
}

/// The whole CSV rendering of `r`.
pub open spec fn csv_text(r: Report) -> Seq<char> {
    "metric,value\n"@ + "total_lines,"@ + decimal(r.total_lines as nat) + "\n"@ + "parsed_lines,"@
        + decimal(r.parsed_lines as nat) + "\n"@ + "parse_errors,"@ + decimal(r.parse_errors as nat)
        + "\n"@ + csv_status_rows(r.status_counts@) + csv_sample_rows(samples_view(r.error_samples@))
}

/// The CSV opens with its header and the three counter rows, in the order total, parsed,
/// failed, each counter written in plain decimal notation (digits only, no separators) that
/// reads back as the counter.
pub proof fn lemma_csv_counter_rows(r: Report)
    ensures
        exists|wt: Seq<char>, wp: Seq<char>, we: Seq<char>|
            #![trigger writes_number(wt, r.total_lines as nat), writes_number(wp, r.parsed_lines as nat), writes_number(we, r.parse_errors as nat)]
            writes_number(wt, r.total_lines as nat) && writes_number(wp, r.parsed_lines as nat)
                && writes_number(we, r.parse_errors as nat) && {
                let head = "metric,value\n"@ + "total_lines,"@ + wt + "\n"@ + "parsed_lines,"@ + wp
                    + "\n"@ + "parse_errors,"@ + we + "\n"@;
                head.len() <= csv_text(r).len() && csv_text(r).take(head.len() as int) == head
            },
{
    let wt = decimal(r.total_lines as nat);
    let wp = decimal(r.parsed_lines as nat);
    let we = decimal(r.parse_errors as nat);
    lemma_decimal_writes_number(r.total_lines as nat);
    lemma_decimal_writes_number(r.parsed_lines as nat);
    lemma_decimal_writes_number(r.parse_errors as nat);
    let head = "metric,value\n"@ + "total_lines,"@ + wt + "\n"@ + "parsed_lines,"@ + wp + "\n"@
        + "parse_errors,"@ + we + "\n"@;
    let rest = csv_status_rows(r.status_counts@) + csv_sample_rows(samples_view(r.error_samples@));
    assert(csv_text(r) =~= head + rest);
    assert(csv_text(r).take(head.len() as int) =~= head);
}

/// Appends `s` with each double quote doubled.
fn push_escaped(out: &mut Vec<char>, s: &str)
    ensures
        final(out)@ == old(out)@ + csv_escape(s@),
{
    for c in it: s.chars()
        invariant
            it.seq() == s@,
            out@ == old(out)@ + csv_escape(s@.take(it.index() as int)),
    {
        let ghost done = s@.take(it.index() as int);
        proof {
            assert(s@.take(it.index() + 1).drop_last() =~= done);
            assert(s@.take(it.index() + 1).last() == c);
        }
        if c == '"' {
            out.push('"');
            out.push('"');
        } else {
            out.push(c);
        }
        proof {
            assert(out@ =~= old(out)@ + csv_escape(s@.take(it.index() + 1)));
        }
    }
    proof {
        assert(s@.take(s@.len() as int) =~= s@);
    }
}

/// Renders `report` as `metric,value` rows: the three counters, one row per status code, and
/// one row per kept parse failure with its message quoted.
pub fn render_csv(report: &Report) -> (s: String)
    ensures
        s@ == csv_text(*report),
{
    let mut out: Vec<char> = Vec::new();
    push_str(&mut out, "metric,value\n");
    push_str(&mut out, "total_lines,");
    push_decimal(&mut out, report.total_lines);
    push_str(&mut out, "\n");
    push_str(&mut out, "parsed_lines,");
    push_decimal(&mut out, report.parsed_lines);
    push_str(&mut out, "\n");
    push_str(&mut out, "parse_errors,");
    push_decimal(&mut out, report.parse_errors);
    push_str(&mut out, "\n");
    let ghost head = out@;
    let rows = &report.status_counts;
    let mut i: usize = 0;
    while i < rows.len()
        invariant
            i <= rows.len(),
            out@ == head + csv_status_rows(rows@.take(i as int)),
        decreases rows.len() - i,
    {
        let (code, count) = rows[i];
        assert(rows@.take(i + 1).drop_last() =~= rows@.take(i as int));
        push_str(&mut out, "status_");
        push_decimal(&mut out, code as usize);
        push_str(&mut out, ",");
        push_decimal(&mut out, count);
        push_str(&mut out, "\n");
        assert(out@ =~= head + csv_status_rows(rows@.take(i + 1)));
        i = i + 1;
    }
    assert(rows@.take(i as int) =~= rows@);
    let ghost middle = out@;
    let samples = &report.error_samples;
    let ghost sv = samples_view(samples@);
    let mut j: usize = 0;
    while j < samples.len()
        invariant
            j <= samples.len(),
            sv == samples_view(samples@),
            out@ == middle + csv_sample_rows(sv.take(j as int)),
        decreases samples.len() - j,
    {
        let line = samples[j].0;
        let message = samples[j].1.as_str();
        assert(sv.take(j + 1).drop_last() =~= sv.take(j as int));
        assert(sv.take(j + 1).last() == (line, message@));
        push_str(&mut out, "error_line_");
        push_decimal(&mut out, line);
        push_str(&mut out, ",\"");
        push_escaped(&mut out, message);
        push_str(&mut out, "\"\n");
        assert(out@ =~= middle + csv_sample_rows(sv.take(j + 1)));
        j = j + 1;
    }
    assert(sv.take(j as int) =~= sv);
    assert(out@ =~= csv_text(*report));
    string_from_chars(&out)
}

} // verus!
