//! The line shape shared by the Apache and Nginx access logs, written out as a grammar:
//!
//! `IP IDENT USER [TIME] "METHOD PATH PROTOCOL" STATUS ...`
//!
//! where IP, IDENT, USER, METHOD and PATH are runs of non-white-space characters, TIME is a run
//! of characters other than `]`, PROTOCOL is a run of characters other than `"`, STATUS is three
//! decimal digits, and anything may follow the status. Single spaces separate the fields.
use crate::text::{decimal_digit, is_decimal_digit, is_white_space, white_space};
use vstd::prelude::*;

verus! {

/// A run of one or more characters, none of them white space (`\S+`).
pub open spec fn is_token(s: Seq<char>) -> bool {
    s.len() > 0 && forall|i: int| 0 <= i < s.len() ==> !#[trigger] is_white_space(s[i])
}

/// A run of one or more characters other than `]` (`[^\]]+`).
pub open spec fn is_bracket_body(s: Seq<char>) -> bool {
    s.len() > 0 && forall|i: int| 0 <= i < s.len() ==> #[trigger] s[i] != ']'
}

/// A run of one or more characters other than `"` (`[^"]+`).
pub open spec fn is_quote_body(s: Seq<char>) -> bool {
    s.len() > 0 && forall|i: int| 0 <= i < s.len() ==> #[trigger] s[i] != '"'
}

/// Exactly three decimal digits (`\d{3}`).
pub open spec fn is_status_code(s: Seq<char>) -> bool {
    s.len() == 3 && forall|i: int| 0 <= i < s.len() ==> #[trigger] is_decimal_digit(s[i])
}

/// The fields of a line in the combined shape.
pub struct CombinedFields {
    pub ip: Seq<char>,
    pub ident: Seq<char>,
    pub user: Seq<char>,
    pub time: Seq<char>,
    pub method: Seq<char>,
    pub path: Seq<char>,
    pub protocol: Seq<char>,
    pub status: Seq<char>,
}

/// The text that the fields spell, separators included, up to the end of the status.
pub open spec fn combined_text(f: CombinedFields) -> Seq<char> {
    f.ip + seq![' '] + f.ident + seq![' '] + f.user + seq![' ', '['] + f.time + seq![']', ' ', '"']
        + f.method + seq![' '] + f.path + seq![' '] + f.protocol + seq!['"', ' '] + f.status
}

/// Whether `line` starts with the text of `f`, each field being of its kind.
pub open spec fn combined_fields(line: Seq<char>, f: CombinedFields) -> bool {
    &&& is_token(f.ip)
    &&& is_token(f.ident)
    &&& is_token(f.user)
    &&& is_bracket_body(f.time)
    &&& is_token(f.method)
    &&& is_token(f.path)
    &&& is_quote_body(f.protocol)
    &&& is_status_code(f.status)
    &&& combined_text(f).len() <= line.len()
    &&& line.take(combined_text(f).len() as int) == combined_text(f)
}

/// Whether `line` has the combined shape.
pub open spec fn is_combined_line(line: Seq<char>) -> bool {
    exists|f: CombinedFields| #[trigger] combined_fields(line, f)
}

/// Where the fields of a combined line end: each field starts a fixed distance after the end of
/// the one before it.
pub struct CombinedSpans {
    pub ip_end: usize,
    pub ident_end: usize,
    pub user_end: usize,
    pub time_end: usize,
    pub method_end: usize,
    pub path_end: usize,
    pub protocol_end: usize,
}

/// The ends in `sp` are in order and the status that follows them fits in a line of `n` characters.
pub open spec fn spans_in_order(sp: CombinedSpans, n: nat) -> bool {
    &&& 0 < sp.ip_end
    &&& sp.ip_end + 1 < sp.ident_end
    &&& sp.ident_end + 1 < sp.user_end
    &&& sp.user_end + 2 < sp.time_end
    &&& sp.time_end + 3 < sp.method_end
    &&& sp.method_end + 1 < sp.path_end
    &&& sp.path_end + 1 < sp.protocol_end
    &&& sp.protocol_end + 5 <= n
}

/// The fields that `sp` marks out in `s`.
pub open spec fn span_fields(s: Seq<char>, sp: CombinedSpans) -> CombinedFields {
    CombinedFields {
        ip: s.subrange(0, sp.ip_end as int),
        ident: s.subrange(sp.ip_end + 1, sp.ident_end as int),
        user: s.subrange(sp.ident_end + 1, sp.user_end as int),
        time: s.subrange(sp.user_end + 2, sp.time_end as int),
        method: s.subrange(sp.time_end + 3, sp.method_end as int),
        path: s.subrange(sp.method_end + 1, sp.path_end as int),
        protocol: s.subrange(sp.path_end + 1, sp.protocol_end as int),
        status: s.subrange(sp.protocol_end + 2, sp.protocol_end + 5),
    }
}

spec fn in_class(c: char, class: u8) -> bool {
    if class == 0 {
        !is_white_space(c)
    } else if class == 1 {
        c != ']'
    } else {
        c != '"'
    }
}

/// The end of the run of characters of `class` that starts at `start`: 0 for non-white-space,
/// 1 for anything but `]`, 2 for anything but `"`.
fn run_end(v: &Vec<char>, start: usize, class: u8) -> (e: usize)
    requires
        start <= v.len(),
    ensures
        start <= e <= v.len(),
        forall|k: int| start <= k < e ==> #[trigger] in_class(v@[k], class),
        e == v.len() || !in_class(v@[e as int], class),
        e == first_stop(v@, start as int, class),
{
    let mut i = start;
    while i < v.len()
        invariant
            start <= i <= v.len(),
            forall|k: int| start <= k < i ==> #[trigger] in_class(v@[k], class),
        decreases v.len() - i,
    {
        let c = v[i];
        let inside = if class == 0 {
            !white_space(c)
        } else if class == 1 {
            c != ']'
        } else {
            c != '"'
        };
        if !inside {
            proof { lemma_first_stop(v@, start as int, i as int, class); }
            return i;
        }
        i = i + 1;
    }
    proof { lemma_first_stop(v@, start as int, i as int, class); }
    i
}

/// The first place at or after `i` that holds a character outside `class`, or the end of `s`.
spec fn first_stop(s: Seq<char>, i: int, class: u8) -> int
    decreases s.len() - i,
{
    if i >= s.len() || !in_class(s[i], class) {
        i
    } else {
        first_stop(s, i + 1, class)
    }
}

/// A run of `class` from `i` that ends where `class` stops ends at `first_stop`.
proof fn lemma_first_stop(s: Seq<char>, i: int, e: int, class: u8)
    requires
        0 <= i <= e <= s.len(),
        forall|k: int| i <= k < e ==> #[trigger] in_class(s[k], class),
        e == s.len() || !in_class(s[e], class),
    ensures
        first_stop(s, i, class) == e,
    decreases e - i,
{
    if i < e {
        lemma_first_stop(s, i + 1, e, class);
    }
}

/// Where each field of `f` ends: the field ends that `CombinedSpans` records.
pub open spec fn field_ends(f: CombinedFields) -> (int, int, int, int, int, int, int) {
    let a = f.ip.len() as int;
    let b = a + 1 + f.ident.len();
    let c = b + 1 + f.user.len();
    let d = c + 2 + f.time.len();
    let e = d + 3 + f.method.len();
    let g = e + 1 + f.path.len();
    let h = g + 1 + f.protocol.len();
    (a, b, c, d, e, g, h)
}

/// Every character of `s` in `[from, to)` belongs to `class`.
spec fn run_of(s: Seq<char>, from: int, to: int, class: u8) -> bool {
    forall|k: int| from <= k < to ==> #[trigger] in_class(s[k], class)
}

/// What a line in the combined shape holds at each place, given the ends of its fields.
#[verifier::spinoff_prover]
#[verifier::rlimit(40)]
proof fn lemma_field_layout(s: Seq<char>, f: CombinedFields)
    requires
        combined_fields(s, f),
        s.len() <= usize::MAX,
    ensures
        ({
            let (a, b, c, d, e, g, h) = field_ends(f);
            &&& h + 5 <= s.len()
            &&& 0 < a && a + 1 < b && b + 1 < c && c + 2 < d && d + 3 < e && e + 1 < g && g + 1 < h
            &&& run_of(s, 0, a, 0) && s[a] == ' '
            &&& run_of(s, a + 1, b, 0) && s[b] == ' '
            &&& run_of(s, b + 1, c, 0) && s[c] == ' ' && s[c + 1] == '['
            &&& run_of(s, c + 2, d, 1) && s[d] == ']' && s[d + 1] == ' ' && s[d + 2] == '"'
            &&& run_of(s, d + 3, e, 0) && s[e] == ' '
            &&& run_of(s, e + 1, g, 0) && s[g] == ' '
            &&& run_of(s, g + 1, h, 2) && s[h] == '"' && s[h + 1] == ' '
            &&& is_decimal_digit(s[h + 2]) && is_decimal_digit(s[h + 3]) && is_decimal_digit(s[h + 4])
            &&& f == span_fields(s, CombinedSpans {
                ip_end: a as usize, ident_end: b as usize, user_end: c as usize,
                time_end: d as usize, method_end: e as usize, path_end: g as usize,
                protocol_end: h as usize,
            })
        }),
{
    let (a, b, c, d, e, g, h) = field_ends(f);
    let t = combined_text(f);
    assert(t.len() == h + 5);
    assert forall|k: int| 0 <= k < t.len() implies s[k] == t[k] by {
        assert(s.take(t.len() as int)[k] == t[k]);
    }
    assert forall|k: int| 0 <= k < a implies #[trigger] in_class(s[k], 0) by {
        assert(s[k] == f.ip[k]);
    }
    assert forall|k: int| a + 1 <= k < b implies #[trigger] in_class(s[k], 0) by {
        assert(s[k] == f.ident[k - a - 1]);
    }
    assert forall|k: int| b + 1 <= k < c implies #[trigger] in_class(s[k], 0) by {
        assert(s[k] == f.user[k - b - 1]);
    }
    assert forall|k: int| c + 2 <= k < d implies #[trigger] in_class(s[k], 1) by {
        assert(s[k] == f.time[k - c - 2]);
    }
    assert forall|k: int| d + 3 <= k < e implies #[trigger] in_class(s[k], 0) by {
        assert(s[k] == f.method[k - d - 3]);
    }
    assert forall|k: int| e + 1 <= k < g implies #[trigger] in_class(s[k], 0) by {
        assert(s[k] == f.path[k - e - 1]);
    }
    assert forall|k: int| g + 1 <= k < h implies #[trigger] in_class(s[k], 2) by {
        assert(s[k] == f.protocol[k - g - 1]);
    }
    assert(s[h + 2] == f.status[0]);
    assert(s[h + 3] == f.status[1]);
    assert(s[h + 4] == f.status[2]);
    let sf = span_fields(s, CombinedSpans {
        ip_end: a as usize, ident_end: b as usize, user_end: c as usize,
        time_end: d as usize, method_end: e as usize, path_end: g as usize,
        protocol_end: h as usize,
    });
    assert(sf.ip =~= f.ip);
    assert(sf.ident =~= f.ident);
    assert(sf.user =~= f.user);
    assert(sf.time =~= f.time);
    assert(sf.method =~= f.method);
    assert(sf.path =~= f.path);
    assert(sf.protocol =~= f.protocol);
    assert(sf.status =~= f.status);
}

/// The field ends that scanning `s` from the start finds, whether or not `s` has the shape.
spec fn scan_ends(s: Seq<char>) -> (int, int, int, int, int, int, int) {
    let a = first_stop(s, 0, 0);
    let b = first_stop(s, a + 1, 0);
    let c = first_stop(s, b + 1, 0);
    let d = first_stop(s, c + 2, 1);
    let e = first_stop(s, d + 3, 0);
    let g = first_stop(s, e + 1, 0);
    let h = first_stop(s, g + 1, 2);
    (a, b, c, d, e, g, h)
}

/// In a line of the combined shape, each field ends where scanning finds it to end.
proof fn lemma_ends_are_scanned(s: Seq<char>, f: CombinedFields)
    requires
        combined_fields(s, f),
        s.len() <= usize::MAX,
    ensures
        field_ends(f) == scan_ends(s),
{
    lemma_field_layout(s, f);
    let (a, b, c, d, e, g, h) = field_ends(f);
    assert(!in_class(s[a], 0));
    lemma_first_stop(s, 0, a, 0);
    assert(!in_class(s[b], 0));
    lemma_first_stop(s, a + 1, b, 0);
    assert(!in_class(s[c], 0));
    lemma_first_stop(s, b + 1, c, 0);
    assert(!in_class(s[d], 1));
    lemma_first_stop(s, c + 2, d, 1);
    assert(!in_class(s[e], 0));
    lemma_first_stop(s, d + 3, e, 0);
    assert(!in_class(s[g], 0));
    lemma_first_stop(s, e + 1, g, 0);
    assert(!in_class(s[h], 2));
    lemma_first_stop(s, g + 1, h, 2);
}

/// Fields placed as `sp` says, with the separators between them, make a line of the combined shape.
proof fn lemma_spans_make_fields(s: Seq<char>, sp: CombinedSpans)
    requires
        ({
            let (a, b, c, d, e, g, h) = (sp.ip_end as int, sp.ident_end as int, sp.user_end as int,
                sp.time_end as int, sp.method_end as int, sp.path_end as int, sp.protocol_end as int);
            &&& h + 5 <= s.len()
            &&& 0 < a && a + 1 < b && b + 1 < c && c + 2 < d && d + 3 < e && e + 1 < g && g + 1 < h
            &&& run_of(s, 0, a, 0) && s[a] == ' '
            &&& run_of(s, a + 1, b, 0) && s[b] == ' '
            &&& run_of(s, b + 1, c, 0) && s[c] == ' ' && s[c + 1] == '['
            &&& run_of(s, c + 2, d, 1) && s[d] == ']' && s[d + 1] == ' ' && s[d + 2] == '"'
            &&& run_of(s, d + 3, e, 0) && s[e] == ' '
            &&& run_of(s, e + 1, g, 0) && s[g] == ' '
            &&& run_of(s, g + 1, h, 2) && s[h] == '"' && s[h + 1] == ' '
            &&& is_decimal_digit(s[h + 2]) && is_decimal_digit(s[h + 3]) && is_decimal_digit(s[h + 4])
        }),
    ensures
        combined_fields(s, span_fields(s, sp)),
{
    let f = span_fields(s, sp);
    let h = sp.protocol_end as int;
    assert forall|i: int| 0 <= i < f.ip.len() implies !#[trigger] is_white_space(f.ip[i]) by {
        assert(in_class(s[i], 0));
    }
    assert forall|i: int| 0 <= i < f.ident.len() implies !#[trigger] is_white_space(f.ident[i]) by {
        assert(in_class(s[sp.ip_end + 1 + i], 0));
    }
    assert forall|i: int| 0 <= i < f.user.len() implies !#[trigger] is_white_space(f.user[i]) by {
        assert(in_class(s[sp.ident_end + 1 + i], 0));
    }
    assert forall|i: int| 0 <= i < f.time.len() implies #[trigger] f.time[i] != ']' by {
        assert(in_class(s[sp.user_end + 2 + i], 1));
    }
    assert forall|i: int| 0 <= i < f.method.len() implies !#[trigger] is_white_space(f.method[i]) by {
        assert(in_class(s[sp.time_end + 3 + i], 0));
    }
    assert forall|i: int| 0 <= i < f.path.len() implies !#[trigger] is_white_space(f.path[i]) by {
        assert(in_class(s[sp.method_end + 1 + i], 0));
    }
    assert forall|i: int| 0 <= i < f.protocol.len() implies #[trigger] f.protocol[i] != '"' by {
        assert(in_class(s[sp.path_end + 1 + i], 2));
    }
    assert forall|i: int| 0 <= i < f.status.len() implies #[trigger] is_decimal_digit(f.status[i]) by {
        assert(f.status[i] == s[h + 2 + i]);
    }
    assert(combined_text(f).len() == h + 5);
    assert(s.take(h + 5) =~= combined_text(f));
}

/// The ends of the fields of `v`, if `v` has the combined shape.
pub fn scan_combined(v: &Vec<char>) -> (r: Option<CombinedSpans>)
    ensures
        r matches Some(sp) ==> combined_fields(v@, span_fields(v@, sp)) && spans_in_order(
            sp,
            v@.len(),
        ),
        r is None ==> !is_combined_line(v@),
{
    let ghost s = v@;
    let n = v.len();
    let a = run_end(v, 0, 0);
    if a == 0 || a >= n || v[a] != ' ' {
        proof { lemma_no_fields(s); }
        return None;
    }
    let b = run_end(v, a + 1, 0);
    if b == a + 1 || b >= n || v[b] != ' ' {
        proof { lemma_no_fields(s); }
        return None;
    }
    let c = run_end(v, b + 1, 0);
    if c == b + 1 || n - c < 2 || v[c] != ' ' || v[c + 1] != '[' {
        proof { lemma_no_fields(s); }
        return None;
    }
    let d = run_end(v, c + 2, 1);
    if d == c + 2 || n - d < 3 || v[d] != ']' || v[d + 1] != ' ' || v[d + 2] != '"' {
        proof { lemma_no_fields(s); }
        return None;
    }
    let e = run_end(v, d + 3, 0);
    if e == d + 3 || e >= n || v[e] != ' ' {
        proof { lemma_no_fields(s); }
        return None;
    }
    let g = run_end(v, e + 1, 0);
    if g == e + 1 || g >= n || v[g] != ' ' {
        proof { lemma_no_fields(s); }
        return None;
    }
    let h = run_end(v, g + 1, 2);
    if h == g + 1 || n - h < 5 || v[h] != '"' || v[h + 1] != ' ' || !decimal_digit(v[h + 2])
        || !decimal_digit(v[h + 3]) || !decimal_digit(v[h + 4]) {
        proof { lemma_no_fields(s); }
        return None;
    }
    let sp = CombinedSpans {
        ip_end: a,
        ident_end: b,
        user_end: c,
        time_end: d,
        method_end: e,
        path_end: g,
        protocol_end: h,
    };
    proof { lemma_spans_make_fields(s, sp); }
    Some(sp)
}

/// If `s` has the combined shape, its field ends are the scanned ones and the layout holds there.
proof fn lemma_no_fields(s: Seq<char>)
    requires
        s.len() <= usize::MAX,
    ensures
        is_combined_line(s) ==> ({
            let (a, b, c, d, e, g, h) = scan_ends(s);
            &&& h + 5 <= s.len()
            &&& 0 < a && a + 1 < b && b + 1 < c && c + 2 < d && d + 3 < e && e + 1 < g && g + 1 < h
            &&& s[a] == ' ' && s[b] == ' ' && s[c] == ' ' && s[c + 1] == '['
            &&& s[d] == ']' && s[d + 1] == ' ' && s[d + 2] == '"'
            &&& s[e] == ' ' && s[g] == ' ' && s[h] == '"' && s[h + 1] == ' '
            &&& is_decimal_digit(s[h + 2]) && is_decimal_digit(s[h + 3]) && is_decimal_digit(s[h + 4])
        }),
{
    if is_combined_line(s) {
        let f = choose|f: CombinedFields| combined_fields(s, f);
        lemma_field_layout(s, f);
        lemma_ends_are_scanned(s, f);
    }
}

/// The grammar is unambiguous: a line of the combined shape has exactly one way to be read
/// as fields.
pub proof fn lemma_combined_fields_unique(line: Seq<char>, f: CombinedFields, g: CombinedFields)
    requires
        combined_fields(line, f),
        combined_fields(line, g),
        line.len() <= usize::MAX,
    ensures
        f == g,
{
    lemma_field_layout(line, f);
    lemma_field_layout(line, g);
    lemma_ends_are_scanned(line, f);
    lemma_ends_are_scanned(line, g);
}

} // verus!
