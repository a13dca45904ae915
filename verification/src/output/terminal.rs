//! The summary as a human-readable table, optionally coloured with ANSI escape codes.
use crate::analyzer::{entries_view, samples_view};
use crate::output::Report;
use crate::text::{chars_of, contains_seq, decimal, digit_char, lemma_decimal_writes_number, occurs_at, writes_number, push_chars, push_decimal, push_str, string_from_chars};
use vstd::prelude::*;

verus! {

/// Ends a coloured or bold run.
pub const RESET: &'static str = "\x1b[0m";
/// Starts a bold run.
pub const BOLD: &'static str = "\x1b[1m";
/// Starts a green run (success codes).
pub const GREEN: &'static str = "\x1b[32m";
/// Starts a yellow run (redirect codes).
pub const YELLOW: &'static str = "\x1b[33m";
/// Starts a red run (every other code).
pub const RED: &'static str = "\x1b[31m";

/// `text` wrapped in `code` and the reset code when colour is on, else `text` alone.
pub open spec fn painted(text: Seq<char>, code: Seq<char>, use_color: bool) -> Seq<char> {
    if use_color {
        code + text + RESET@
    } else {
        text
    }
}

/// The colour of a status code: green for 200-299, yellow for 300-399, red otherwise.
pub open spec fn status_color_spec(code: u16) -> Seq<char> {
    if 200 <= code <= 299 {
        GREEN@
    } else if 300 <= code <= 399 {
        YELLOW@
    } else {
        RED@
    }
}

/// One `  <code> -> <count>` row per status code, the code painted in its colour.
pub open spec fn table_status_rows(rows: Seq<(u16, usize)>, use_color: bool) -> Seq<char>
    decreases rows.len(),
{
    if rows.len() == 0 {
        Seq::empty()
    } else {
        table_status_rows(rows.drop_last(), use_color) + "  "@ + painted(
            decimal(rows.last().0 as nat),
            status_color_spec(rows.last().0),
            use_color,
        ) + " -> "@ + decimal(rows.last().1 as nat) + "\n"@
    }
}

/// One `  <path> -> <count>` row per listed path.
pub open spec fn table_path_rows(rows: Seq<(Seq<char>, usize)>) -> Seq<char>
    decreases rows.len(),
{
    if rows.len() == 0 {
        Seq::empty()
    } else {
        table_path_rows(rows.drop_last()) + "  "@ + rows.last().0 + " -> "@ + decimal(
            rows.last().1 as nat,
        ) + "\n"@
    }
}

/// One `  line <line>: <message>` row per kept parse failure.
pub open spec fn table_sample_rows(rows: Seq<(usize, Seq<char>)>) -> Seq<char>
    decreases rows.len(),
{
    if rows.len() == 0 {
        Seq::empty()
    } else {
        table_sample_rows(rows.drop_last()) + "  line "@ + decimal(rows.last().0 as nat) + ": "@
            + rows.last().1 + "\n"@
    }
}

/// The heading over the kept parse failures: how many are shown of how many there were.
pub open spec fn samples_heading(shown: nat, total: nat) -> Seq<char> {
    "\nParse errors (showing "@ + decimal(shown) + " of "@ + decimal(total) + "):"@
}

/// The whole table rendering of `r`.
pub open spec fn table_text(r: Report, use_color: bool) -> Seq<char> {
    painted("=== Summary ==="@, BOLD@, use_color) + "\n"@ + "Total lines: "@ + decimal(
        r.total_lines as nat,
    ) + "\n"@ + "Parsed lines: "@ + decimal(r.parsed_lines as nat) + "\n"@ + "Parse errors: "@
        + decimal(r.parse_errors as nat) + "\n"@ + painted("\nStatus counts:"@, BOLD@, use_color)
        + "\n"@ + table_status_rows(r.status_counts@, use_color) + painted(
        "\nTop paths:"@,
        BOLD@,
        use_color,
    ) + "\n"@ + table_path_rows(entries_view(r.top_paths@)) + (if r.error_samples.len() > 0 {
        painted(samples_heading(r.error_samples.len() as nat, r.parse_errors as nat), BOLD@, use_color)
            + "\n"@ + table_sample_rows(samples_view(r.error_samples@))
    } else {
        Seq::empty()
    })
}

/// Where parse failures were kept, the table shows the heading over them that gives first how
/// many are shown and then how many failures there were in all, each in plain decimal notation.
pub proof fn lemma_table_heading_counts(r: Report, use_color: bool)
    requires
        r.error_samples.len() > 0,
    ensures
        exists|shown: Seq<char>, all: Seq<char>|
            #![trigger writes_number(shown, r.error_samples.len() as nat), writes_number(all, r.parse_errors as nat)]
            writes_number(shown, r.error_samples.len() as nat) && writes_number(
                all,
                r.parse_errors as nat,
            ) && contains_seq(
                table_text(r, use_color),
                "\nParse errors (showing "@ + shown + " of "@ + all + "):"@,
            ),
{
    let shown = decimal(r.error_samples.len() as nat);
    let all = decimal(r.parse_errors as nat);
    lemma_decimal_writes_number(r.error_samples.len() as nat);
    lemma_decimal_writes_number(r.parse_errors as nat);
    let h = "\nParse errors (showing "@ + shown + " of "@ + all + "):"@;
    assert(samples_heading(r.error_samples.len() as nat, r.parse_errors as nat) == h);
    let pre = painted("=== Summary ==="@, BOLD@, use_color) + "\n"@ + "Total lines: "@ + decimal(
        r.total_lines as nat,
    ) + "\n"@ + "Parsed lines: "@ + decimal(r.parsed_lines as nat) + "\n"@ + "Parse errors: "@
        + decimal(r.parse_errors as nat) + "\n"@ + painted("\nStatus counts:"@, BOLD@, use_color)
        + "\n"@ + table_status_rows(r.status_counts@, use_color) + painted(
        "\nTop paths:"@,
        BOLD@,
        use_color,
    ) + "\n"@ + table_path_rows(entries_view(r.top_paths@));
    let rows = "\n"@ + table_sample_rows(samples_view(r.error_samples@));
    let p = painted(h, BOLD@, use_color);
    let tail = p + "\n"@ + table_sample_rows(samples_view(r.error_samples@));
    let t = table_text(r, use_color);
    assert(t == pre + tail);
    let off: int = if use_color { BOLD@.len() as int } else { 0 };
    assert(p.subrange(off, off + h.len()) =~= h);
    assert(tail.subrange(off, off + h.len()) =~= p.subrange(off, off + h.len()));
    let i = pre.len() + off;
    assert(t.subrange(i, i + h.len()) =~= tail.subrange(off, off + h.len()));
    assert(occurs_at(t, h, i));
}

/// Whether no character of `s` is the escape character that starts an ANSI code.
pub open spec fn escape_free(s: Seq<char>) -> bool {
    forall|i: int| 0 <= i < s.len() ==> #[trigger] s[i] != '\x1b'
}

/// A joined run is free of escape characters exactly when both parts are.
pub broadcast proof fn lemma_escape_free_concat(a: Seq<char>, b: Seq<char>)
    ensures
        #[trigger] escape_free(a + b) == (escape_free(a) && escape_free(b)),
{
    if escape_free(a + b) {
        assert forall|i: int| 0 <= i < a.len() implies #[trigger] a[i] != '\x1b' by {
            assert((a + b)[i] == a[i]);
        }
        assert forall|i: int| 0 <= i < b.len() implies #[trigger] b[i] != '\x1b' by {
            assert((a + b)[i + a.len()] == b[i]);
        }
    }
    if escape_free(a) && escape_free(b) {
        assert forall|i: int| 0 <= i < (a + b).len() implies #[trigger] (a + b)[i] != '\x1b' by {
            if i < a.len() {
                assert((a + b)[i] == a[i]);
            } else {
                assert((a + b)[i] == b[i - a.len()]);
            }
        }
    }
}

proof fn lemma_decimal_escape_free(n: nat)
    ensures
        escape_free(decimal(n)),
    decreases n,
{
    broadcast use lemma_escape_free_concat;

    if n >= 10 {
        lemma_decimal_escape_free(n / 10);
        assert(decimal(n) =~= decimal(n / 10) + seq![digit_char(n % 10)]);
    }
}

proof fn lemma_literals_escape_free()
    ensures
        escape_free("=== Summary ==="@),
        escape_free("\n"@),
        escape_free("Total lines: "@),
        escape_free("Parsed lines: "@),
        escape_free("Parse errors: "@),
        escape_free("\nStatus counts:"@),
        escape_free("\nTop paths:"@),
        escape_free("  "@),
        escape_free(" -> "@),
        escape_free("  line "@),
        escape_free(": "@),
        escape_free("\nParse errors (showing "@),
        escape_free(" of "@),
        escape_free("):"@),
{
    reveal_strlit("=== Summary ===");
    reveal_strlit("\n");
    reveal_strlit("Total lines: ");
    reveal_strlit("Parsed lines: ");
    reveal_strlit("Parse errors: ");
    reveal_strlit("\nStatus counts:");
    reveal_strlit("\nTop paths:");
    reveal_strlit("  ");
    reveal_strlit(" -> ");
    reveal_strlit("  line ");
    reveal_strlit(": ");
    reveal_strlit("\nParse errors (showing ");
    reveal_strlit(" of ");
    reveal_strlit("):");
}

proof fn lemma_plain_status_rows(rows: Seq<(u16, usize)>)
    ensures
        escape_free(table_status_rows(rows, false)),
    decreases rows.len(),
{
    broadcast use lemma_escape_free_concat;

    if rows.len() > 0 {
        lemma_plain_status_rows(rows.drop_last());
        lemma_literals_escape_free();
        lemma_decimal_escape_free(rows.last().0 as nat);
        lemma_decimal_escape_free(rows.last().1 as nat);
    }
}

proof fn lemma_plain_path_rows(rows: Seq<(Seq<char>, usize)>)
    requires
        forall|i: int| 0 <= i < rows.len() ==> escape_free(#[trigger] rows[i].0),
    ensures
        escape_free(table_path_rows(rows)),
    decreases rows.len(),
{
    broadcast use lemma_escape_free_concat;

    if rows.len() > 0 {
        assert(escape_free(rows[rows.len() - 1].0));
        lemma_plain_path_rows(rows.drop_last());
        lemma_literals_escape_free();
        lemma_decimal_escape_free(rows.last().1 as nat);
    }
}

proof fn lemma_plain_sample_rows(rows: Seq<(usize, Seq<char>)>)
    requires
        forall|i: int| 0 <= i < rows.len() ==> escape_free(#[trigger] rows[i].1),
    ensures
        escape_free(table_sample_rows(rows)),
    decreases rows.len(),
{
    broadcast use lemma_escape_free_concat;

    if rows.len() > 0 {
        assert(escape_free(rows[rows.len() - 1].1));
        lemma_plain_sample_rows(rows.drop_last());
        lemma_literals_escape_free();
        lemma_decimal_escape_free(rows.last().0 as nat);
    }
}

/// With colour off, the table holds no escape character, unless a listed path or a kept parse
/// failure message brought one in.
pub proof fn lemma_plain_table_has_no_escape(r: Report)
    requires
        forall|i: int| 0 <= i < r.top_paths@.len() ==> escape_free((#[trigger] r.top_paths@[i]).0@),
        forall|i: int|
            0 <= i < r.error_samples@.len() ==> escape_free((#[trigger] r.error_samples@[i]).1@),
    ensures
        escape_free(table_text(r, false)),
{
    broadcast use lemma_escape_free_concat;

    lemma_literals_escape_free();
    lemma_decimal_escape_free(r.total_lines as nat);
    lemma_decimal_escape_free(r.parsed_lines as nat);
    lemma_decimal_escape_free(r.parse_errors as nat);
    lemma_decimal_escape_free(r.error_samples.len() as nat);
    lemma_plain_status_rows(r.status_counts@);
    let pv = entries_view(r.top_paths@);
    assert forall|i: int| 0 <= i < pv.len() implies escape_free(#[trigger] pv[i].0) by {
        assert(pv[i].0 == r.top_paths@[i].0@);
    }
    lemma_plain_path_rows(pv);
    let sv = samples_view(r.error_samples@);
    assert forall|i: int| 0 <= i < sv.len() implies escape_free(#[trigger] sv[i].1) by {
        assert(sv[i].1 == r.error_samples@[i].1@);
    }
    lemma_plain_sample_rows(sv);
    assert(escape_free(Seq::<char>::empty()));
}

/// With colour on, the table opens with an escape code: the bold heading.
pub proof fn lemma_color_table_starts_with_escape(r: Report)
    ensures
        table_text(r, true).len() > 0,
        table_text(r, true)[0] == '\x1b',
{
    reveal_strlit("\x1b[1m");
    let t = table_text(r, true);
    let head = painted("=== Summary ==="@, BOLD@, true);
    assert(head[0] == '\x1b');
    assert(t[0] == head[0]);
}

/// Where the run of ASCII digits at `i` is closed by an `m`: the position after the `m`, or -1
/// where something else ends the run.
pub open spec fn code_close(s: Seq<char>, i: int) -> int
    decreases s.len() - i,
{
    if i < 0 || i >= s.len() {
        -1
    } else if s[i] == 'm' {
        i + 1
    } else if '0' <= s[i] && s[i] <= '9' {
        code_close(s, i + 1)
    } else {
        -1
    }
}

/// Where the colour code `ESC [ digits m` that opens `s` ends, or -1 where `s` opens with none.
pub open spec fn code_end(s: Seq<char>) -> int {
    if s.len() >= 3 && s[0] == '\x1b' && s[1] == '[' && '0' <= s[2] && s[2] <= '9' {
        code_close(s, 3)
    } else {
        -1
    }
}

/// `s` with every colour code `ESC [ digits m` taken out.
pub open spec fn strip_codes(s: Seq<char>) -> Seq<char>
    decreases s.len(),
{
    if s.len() == 0 {
        Seq::empty()
    } else if 0 < code_end(s) <= s.len() {
        strip_codes(s.subrange(code_end(s), s.len() as int))
    } else {
        seq![s[0]] + strip_codes(s.subrange(1, s.len() as int))
    }
}

/// `c` is one colour code: `ESC [`, one or more ASCII digits, `m`.
pub open spec fn is_color_code(c: Seq<char>) -> bool {
    &&& c.len() >= 4
    &&& c[0] == '\x1b'
    &&& c[1] == '['
    &&& forall|i: int| 2 <= i < c.len() - 1 ==> '0' <= #[trigger] c[i] && c[i] <= '9'
    &&& c[c.len() - 1] == 'm'
}

/// Whatever follows `x`, taking the colour codes out of `x` and what follows gives `y` and the
/// follower with its codes taken out.
#[verifier::opaque]
pub open spec fn strips_to(x: Seq<char>, y: Seq<char>) -> bool {
    forall|z: Seq<char>| #[trigger] strip_codes(x + z) == y + strip_codes(z)
}

proof fn lemma_plain_strips(a: Seq<char>)
    requires
        escape_free(a),
    ensures
        strips_to(a, a),
    decreases a.len(),
{
    reveal(strips_to);
    if a.len() > 0 {
        let rest = a.subrange(1, a.len() as int);
        assert(escape_free(rest)) by {
            assert forall|i: int| 0 <= i < rest.len() implies #[trigger] rest[i] != '\x1b' by {
                assert(rest[i] == a[i + 1]);
            }
        }
        lemma_plain_strips(rest);
        assert forall|z: Seq<char>| #[trigger] strip_codes(a + z) == a + strip_codes(z) by {
            let s = a + z;
            assert(s[0] == a[0]);
            assert(a[0] != '\x1b');
            assert(s.subrange(1, s.len() as int) =~= rest + z);
            assert(strip_codes(rest + z) == rest + strip_codes(z));
            assert(seq![a[0]] + (rest + strip_codes(z)) =~= a + strip_codes(z));
        }
    } else {
        assert forall|z: Seq<char>| #[trigger] strip_codes(a + z) == a + strip_codes(z) by {
            assert(a + z =~= z);
            assert(a + strip_codes(z) =~= strip_codes(z));
        }
    }
}

proof fn lemma_code_close(c: Seq<char>, z: Seq<char>, i: int)
    requires
        is_color_code(c),
        3 <= i <= c.len() - 1,
    ensures
        code_close(c + z, i) == c.len(),
    decreases c.len() - i,
{
    assert((c + z)[i] == c[i]);
    if i < c.len() - 1 {
        assert('0' <= c[i] && c[i] <= '9');
        lemma_code_close(c, z, i + 1);
    }
}

proof fn lemma_code_strips(c: Seq<char>)
    requires
        is_color_code(c),
    ensures
        strips_to(c, Seq::empty()),
{
    reveal(strips_to);
    assert forall|z: Seq<char>| #[trigger] strip_codes(c + z) == Seq::<char>::empty() + strip_codes(z) by {
        let s = c + z;
        assert(s[0] == c[0] && s[1] == c[1] && s[2] == c[2]);
        assert('0' <= c[2] && c[2] <= '9');
        lemma_code_close(c, z, 3);
        assert(code_end(s) == c.len());
        assert(s.subrange(c.len() as int, s.len() as int) =~= z);
        assert(Seq::<char>::empty() + strip_codes(z) =~= strip_codes(z));
    }
}

proof fn lemma_strips_concat(a: Seq<char>, a2: Seq<char>, b: Seq<char>, b2: Seq<char>)
    requires
        strips_to(a, a2),
        strips_to(b, b2),
    ensures
        strips_to(a + b, a2 + b2),
{
    reveal(strips_to);
    assert forall|z: Seq<char>| #[trigger] strip_codes((a + b) + z) == (a2 + b2) + strip_codes(z) by {
        assert((a + b) + z =~= a + (b + z));
        assert(strip_codes(a + (b + z)) == a2 + strip_codes(b + z));
        assert(strip_codes(b + z) == b2 + strip_codes(z));
        assert(a2 + (b2 + strip_codes(z)) =~= (a2 + b2) + strip_codes(z));
    }
}

proof fn lemma_strips_apply(x: Seq<char>, y: Seq<char>)
    requires
        strips_to(x, y),
    ensures
        strip_codes(x) == y,
{
    reveal(strips_to);
    assert(x + Seq::<char>::empty() =~= x);
    assert(strip_codes(x + Seq::<char>::empty()) == y + strip_codes(Seq::<char>::empty()));
    assert(y + Seq::<char>::empty() =~= y);
}

proof fn lemma_codes_in_use()
    ensures
        is_color_code(RESET@),
        is_color_code(BOLD@),
        is_color_code(GREEN@),
        is_color_code(YELLOW@),
        is_color_code(RED@),
{
    reveal_strlit("\x1b[0m");
    reveal_strlit("\x1b[1m");
    reveal_strlit("\x1b[32m");
    reveal_strlit("\x1b[33m");
    reveal_strlit("\x1b[31m");
}

proof fn lemma_painted_strips(text: Seq<char>, code: Seq<char>)
    requires
        escape_free(text),
        is_color_code(code),
    ensures
        strips_to(painted(text, code, true), painted(text, code, false)),
{
    lemma_codes_in_use();
    lemma_code_strips(code);
    lemma_plain_strips(text);
    lemma_code_strips(RESET@);
    lemma_strips_concat(code, Seq::empty(), text, text);
    lemma_strips_concat(code + text, Seq::<char>::empty() + text, RESET@, Seq::empty());
    assert(Seq::<char>::empty() + text + Seq::<char>::empty() =~= text);
}

proof fn lemma_status_rows_strip(rows: Seq<(u16, usize)>)
    ensures
        strips_to(table_status_rows(rows, true), table_status_rows(rows, false)),
    decreases rows.len(),
{
    if rows.len() == 0 {
        lemma_plain_strips(Seq::empty());
    } else {
        let (code, count) = rows.last();
        lemma_status_rows_strip(rows.drop_last());
        lemma_literals_escape_free();
        lemma_codes_in_use();
        lemma_decimal_escape_free(code as nat);
        lemma_decimal_escape_free(count as nat);
        let color = status_color_spec(code);
        assert(is_color_code(color));
        let before_on = table_status_rows(rows.drop_last(), true);
        let before_off = table_status_rows(rows.drop_last(), false);
        let d = decimal(code as nat);
        let n = decimal(count as nat);
        lemma_plain_strips("  "@);
        lemma_painted_strips(d, color);
        lemma_plain_strips(" -> "@);
        lemma_plain_strips(n);
        lemma_plain_strips("\n"@);
        lemma_strips_concat(before_on, before_off, "  "@, "  "@);
        lemma_strips_concat(before_on + "  "@, before_off + "  "@, painted(d, color, true), d);
        lemma_strips_concat(
            before_on + "  "@ + painted(d, color, true),
            before_off + "  "@ + d,
            " -> "@,
            " -> "@,
        );
        lemma_strips_concat(
            before_on + "  "@ + painted(d, color, true) + " -> "@,
            before_off + "  "@ + d + " -> "@,
            n,
            n,
        );
        lemma_strips_concat(
            before_on + "  "@ + painted(d, color, true) + " -> "@ + n,
            before_off + "  "@ + d + " -> "@ + n,
            "\n"@,
            "\n"@,
        );
    }
}

proof fn lemma_strips_plain_append(on: Seq<char>, off: Seq<char>, p: Seq<char>)
    requires
        strips_to(on, off),
        escape_free(p),
    ensures
        strips_to(on + p, off + p),
{
    lemma_plain_strips(p);
    lemma_strips_concat(on, off, p, p);
}

proof fn lemma_strips_painted_append(on: Seq<char>, off: Seq<char>, t: Seq<char>, code: Seq<char>)
    requires
        strips_to(on, off),
        escape_free(t),
        is_color_code(code),
    ensures
        strips_to(on + painted(t, code, true), off + painted(t, code, false)),
{
    lemma_painted_strips(t, code);
    lemma_strips_concat(on, off, painted(t, code, true), painted(t, code, false));
}

proof fn lemma_samples_strip(r: Report)
    requires
        forall|i: int|
            0 <= i < r.error_samples@.len() ==> escape_free((#[trigger] r.error_samples@[i]).1@),
        r.error_samples.len() > 0,
    ensures
        strips_to(
            painted(samples_heading(r.error_samples.len() as nat, r.parse_errors as nat), BOLD@, true)
                + "\n"@ + table_sample_rows(samples_view(r.error_samples@)),
            painted(samples_heading(r.error_samples.len() as nat, r.parse_errors as nat), BOLD@, false)
                + "\n"@ + table_sample_rows(samples_view(r.error_samples@)),
        ),
{
    broadcast use lemma_escape_free_concat;

    lemma_literals_escape_free();
    lemma_codes_in_use();
    lemma_decimal_escape_free(r.parse_errors as nat);
    lemma_decimal_escape_free(r.error_samples.len() as nat);
    let sv = samples_view(r.error_samples@);
    assert forall|i: int| 0 <= i < sv.len() implies escape_free(#[trigger] sv[i].1) by {
        assert(sv[i].1 == r.error_samples@[i].1@);
    }
    lemma_plain_sample_rows(sv);
    let heading = samples_heading(r.error_samples.len() as nat, r.parse_errors as nat);
    lemma_plain_strips(Seq::empty());
    lemma_strips_painted_append(Seq::empty(), Seq::empty(), heading, BOLD@);
    assert(Seq::<char>::empty() + painted(heading, BOLD@, true) =~= painted(heading, BOLD@, true));
    assert(Seq::<char>::empty() + painted(heading, BOLD@, false) =~= painted(heading, BOLD@, false));
    lemma_strips_plain_append(painted(heading, BOLD@, true), painted(heading, BOLD@, false), "\n"@);
    lemma_strips_plain_append(
        painted(heading, BOLD@, true) + "\n"@,
        painted(heading, BOLD@, false) + "\n"@,
        table_sample_rows(sv),
    );
}

/// Taking the colour codes out of the coloured table gives the plain table, unless a listed
/// path or a kept parse failure message brought an escape character of its own.
#[verifier::spinoff_prover]
pub proof fn lemma_color_table_strips_to_plain(r: Report)
    requires
        forall|i: int| 0 <= i < r.top_paths@.len() ==> escape_free((#[trigger] r.top_paths@[i]).0@),
        forall|i: int|
            0 <= i < r.error_samples@.len() ==> escape_free((#[trigger] r.error_samples@[i]).1@),
    ensures
        strip_codes(table_text(r, true)) == table_text(r, false),
{
    lemma_literals_escape_free();
    lemma_codes_in_use();
    lemma_decimal_escape_free(r.total_lines as nat);
    lemma_decimal_escape_free(r.parsed_lines as nat);
    lemma_decimal_escape_free(r.parse_errors as nat);
    let pv = entries_view(r.top_paths@);
    assert forall|i: int| 0 <= i < pv.len() implies escape_free(#[trigger] pv[i].0) by {
        assert(pv[i].0 == r.top_paths@[i].0@);
    }
    lemma_plain_path_rows(pv);
    let nl = "\n"@;
    let s0_on = painted("=== Summary ==="@, BOLD@, true);
    let s0_off = painted("=== Summary ==="@, BOLD@, false);
    lemma_painted_strips("=== Summary ==="@, BOLD@);
    lemma_strips_plain_append(s0_on, s0_off, nl);
    lemma_strips_plain_append(s0_on + nl, s0_off + nl, "Total lines: "@);
    let s1_on = s0_on + nl + "Total lines: "@;
    let s1_off = s0_off + nl + "Total lines: "@;
    lemma_strips_plain_append(s1_on, s1_off, decimal(r.total_lines as nat));
    lemma_strips_plain_append(s1_on + decimal(r.total_lines as nat), s1_off + decimal(r.total_lines as nat), nl);
    let s2_on = s1_on + decimal(r.total_lines as nat) + nl;
    let s2_off = s1_off + decimal(r.total_lines as nat) + nl;
    lemma_strips_plain_append(s2_on, s2_off, "Parsed lines: "@);
    lemma_strips_plain_append(s2_on + "Parsed lines: "@, s2_off + "Parsed lines: "@, decimal(r.parsed_lines as nat));
    let s3_on = s2_on + "Parsed lines: "@ + decimal(r.parsed_lines as nat);
    let s3_off = s2_off + "Parsed lines: "@ + decimal(r.parsed_lines as nat);
    lemma_strips_plain_append(s3_on, s3_off, nl);
    lemma_strips_plain_append(s3_on + nl, s3_off + nl, "Parse errors: "@);
    let s4_on = s3_on + nl + "Parse errors: "@;
    let s4_off = s3_off + nl + "Parse errors: "@;
    lemma_strips_plain_append(s4_on, s4_off, decimal(r.parse_errors as nat));
    lemma_strips_plain_append(s4_on + decimal(r.parse_errors as nat), s4_off + decimal(r.parse_errors as nat), nl);
    let s5_on = s4_on + decimal(r.parse_errors as nat) + nl;
    let s5_off = s4_off + decimal(r.parse_errors as nat) + nl;
    lemma_strips_painted_append(s5_on, s5_off, "\nStatus counts:"@, BOLD@);
    let s6_on = s5_on + painted("\nStatus counts:"@, BOLD@, true);
    let s6_off = s5_off + painted("\nStatus counts:"@, BOLD@, false);
    lemma_strips_plain_append(s6_on, s6_off, nl);
    lemma_status_rows_strip(r.status_counts@);
    let rows_on = table_status_rows(r.status_counts@, true);
    let rows_off = table_status_rows(r.status_counts@, false);
    lemma_strips_concat(s6_on + nl, s6_off + nl, rows_on, rows_off);
    let s7_on = s6_on + nl + rows_on;
    let s7_off = s6_off + nl + rows_off;
    lemma_strips_painted_append(s7_on, s7_off, "\nTop paths:"@, BOLD@);
    let s8_on = s7_on + painted("\nTop paths:"@, BOLD@, true);
    let s8_off = s7_off + painted("\nTop paths:"@, BOLD@, false);
    lemma_strips_plain_append(s8_on, s8_off, nl);
    lemma_strips_plain_append(s8_on + nl, s8_off + nl, table_path_rows(pv));
    let s9_on = s8_on + nl + table_path_rows(pv);
    let s9_off = s8_off + nl + table_path_rows(pv);
    if r.error_samples.len() > 0 {
        lemma_samples_strip(r);
    } else {
        lemma_plain_strips(Seq::empty());
    }
    let tail_on = if r.error_samples.len() > 0 {
        painted(samples_heading(r.error_samples.len() as nat, r.parse_errors as nat), BOLD@, true)
            + "\n"@ + table_sample_rows(samples_view(r.error_samples@))
    } else {
        Seq::empty()
    };
    let tail_off = if r.error_samples.len() > 0 {
        painted(samples_heading(r.error_samples.len() as nat, r.parse_errors as nat), BOLD@, false)
            + "\n"@ + table_sample_rows(samples_view(r.error_samples@))
    } else {
        Seq::empty()
    };
    lemma_strips_concat(s9_on, s9_off, tail_on, tail_off);
    assert(s9_on + tail_on == table_text(r, true));
    assert(s9_off + tail_off == table_text(r, false));
    lemma_strips_apply(table_text(r, true), table_text(r, false));
}

/// Appends `text` painted with `code` when `use_color` holds.
fn push_painted(out: &mut Vec<char>, text: &Vec<char>, code: &str, use_color: bool)
    ensures
        final(out)@ == old(out)@ + painted(text@, code@, use_color),
{
    if use_color {
        push_str(out, code);
        push_chars(out, text);
        push_str(out, RESET);
        assert(out@ =~= old(out)@ + painted(text@, code@, use_color));
    } else {
        push_chars(out, text);
    }
}

/// `text` wrapped in `code` and the reset code when `use_color` holds, else `text` unchanged.
pub fn paint(text: &str, code: &str, use_color: bool) -> (s: String)
    ensures
        s@ == painted(text@, code@, use_color),
{
    let mut out: Vec<char> = Vec::new();
    let chars = chars_of(text);
    push_painted(&mut out, &chars, code, use_color);
    assert(out@ =~= painted(text@, code@, use_color));
    string_from_chars(&out)
}

/// The colour for a status code: green for success, yellow for redirects, red otherwise.
pub fn status_color(code: u16) -> (s: &'static str)
    ensures
        s@ == status_color_spec(code),
{
    if 200 <= code && code <= 299 {
        GREEN
    } else if 300 <= code && code <= 399 {
        YELLOW
    } else {
        RED
    }
}

/// Renders `report` as a table: the counters, the status codes (painted by class when
/// `use_color` holds), the top paths, and the kept parse failures if there are any.
#[verifier::spinoff_prover]
pub fn render_table(report: &Report, use_color: bool) -> (s: String)
    ensures
        s@ == table_text(*report, use_color),
{
    let mut out: Vec<char> = Vec::new();
    push_painted(&mut out, &chars_of("=== Summary ==="), BOLD, use_color);
    push_str(&mut out, "\n");
    push_str(&mut out, "Total lines: ");
    push_decimal(&mut out, report.total_lines);
    push_str(&mut out, "\n");
    push_str(&mut out, "Parsed lines: ");
    push_decimal(&mut out, report.parsed_lines);
    push_str(&mut out, "\n");
    push_str(&mut out, "Parse errors: ");
    push_decimal(&mut out, report.parse_errors);
    push_str(&mut out, "\n");
    push_painted(&mut out, &chars_of("\nStatus counts:"), BOLD, use_color);
    push_str(&mut out, "\n");
    let ghost head = out@;
    let rows = &report.status_counts;
    let mut i: usize = 0;
    while i < rows.len()
        invariant
            i <= rows.len(),
            out@ == head + table_status_rows(rows@.take(i as int), use_color),
        decreases rows.len() - i,
    {
        let (code, count) = rows[i];
        assert(rows@.take(i + 1).drop_last() =~= rows@.take(i as int));
        let mut digits: Vec<char> = Vec::new();
        push_decimal(&mut digits, code as usize);
        assert(digits@ =~= decimal(code as nat));
        push_str(&mut out, "  ");
        push_painted(&mut out, &digits, status_color(code), use_color);
        push_str(&mut out, " -> ");
        push_decimal(&mut out, count);
        push_str(&mut out, "\n");
        assert(out@ =~= head + table_status_rows(rows@.take(i + 1), use_color));
        i = i + 1;
    }
    assert(rows@.take(i as int) =~= rows@);
    push_painted(&mut out, &chars_of("\nTop paths:"), BOLD, use_color);
    push_str(&mut out, "\n");
    let ghost middle = out@;
    let paths = &report.top_paths;
    let ghost pv = entries_view(paths@);
    let mut j: usize = 0;
    while j < paths.len()
        invariant
            j <= paths.len(),
            pv == entries_view(paths@),
            out@ == middle + table_path_rows(pv.take(j as int)),
        decreases paths.len() - j,
    {
        let path = paths[j].0.as_str();
        let count = paths[j].1;
        assert(pv.take(j + 1).drop_last() =~= pv.take(j as int));
        assert(pv.take(j + 1).last() == (path@, count));
        push_str(&mut out, "  ");
        push_str(&mut out, path);
        push_str(&mut out, " -> ");
        push_decimal(&mut out, count);
        push_str(&mut out, "\n");
        assert(out@ =~= middle + table_path_rows(pv.take(j + 1)));
        j = j + 1;
    }
    assert(pv.take(j as int) =~= pv);
    if report.error_samples.len() > 0 {
        let mut heading: Vec<char> = Vec::new();
        push_str(&mut heading, "\nParse errors (showing ");
        push_decimal(&mut heading, report.error_samples.len());
        push_str(&mut heading, " of ");
        push_decimal(&mut heading, report.parse_errors);
        push_str(&mut heading, "):");
        assert(heading@ =~= samples_heading(report.error_samples.len() as nat, report.parse_errors as nat));
        push_painted(&mut out, &heading, BOLD, use_color);
        push_str(&mut out, "\n");
        let ghost tail_start = out@;
        let samples = &report.error_samples;
        let ghost sv = samples_view(samples@);
        let mut k: usize = 0;
        while k < samples.len()
            invariant
                k <= samples.len(),
                sv == samples_view(samples@),
                out@ == tail_start + table_sample_rows(sv.take(k as int)),
            decreases samples.len() - k,
        {
            let line = samples[k].0;
            let message = samples[k].1.as_str();
            assert(sv.take(k + 1).drop_last() =~= sv.take(k as int));
            assert(sv.take(k + 1).last() == (line, message@));
            push_str(&mut out, "  line ");
            push_decimal(&mut out, line);
            push_str(&mut out, ": ");
            push_str(&mut out, message);
            push_str(&mut out, "\n");
            assert(out@ =~= tail_start + table_sample_rows(sv.take(k + 1)));
            k = k + 1;
        }
        assert(sv.take(k as int) =~= sv);
    }
    assert(out@ =~= table_text(*report, use_color));
    string_from_chars(&out)
}

} // verus!
