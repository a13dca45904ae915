//! Character classes and small text utilities shared by the parsers and renderers.
use crate::ip::{digit_value, digits_value, is_dec_digit};
use vstd::prelude::*;

verus! {

/// The Unicode `White_Space` property on a code point: the class that `char::is_whitespace`
/// and the `\s` class of a Unicode regular expression both use.
pub open spec fn code_is_white_space(c: u32) -> bool {
    ||| (0x9 <= c && c <= 0xD)
    ||| (0x20 <= c && c <= 0x20)
    ||| (0x85 <= c && c <= 0x85)
    ||| (0xA0 <= c && c <= 0xA0)
    ||| (0x1680 <= c && c <= 0x1680)
    ||| (0x2000 <= c && c <= 0x200A)
    ||| (0x2028 <= c && c <= 0x2029)
    ||| (0x202F <= c && c <= 0x202F)
    ||| (0x205F <= c && c <= 0x205F)
    ||| (0x3000 <= c && c <= 0x3000)
}

/// Whether `ch` has the Unicode `White_Space` property.
pub open spec fn is_white_space(ch: char) -> bool {
    code_is_white_space(ch as u32)
}

/// The Unicode general category `Nd` (decimal number) on a code point: the class that `\d`
/// means in a Unicode regular expression.
pub open spec fn code_is_decimal(c: u32) -> bool {
    ||| (0x30 <= c && c <= 0x39)
    ||| (0x660 <= c && c <= 0x669)
    ||| (0x6F0 <= c && c <= 0x6F9)
    ||| (0x7C0 <= c && c <= 0x7C9)
    ||| (0x966 <= c && c <= 0x96F)
    ||| (0x9E6 <= c && c <= 0x9EF)
    ||| (0xA66 <= c && c <= 0xA6F)
    ||| (0xAE6 <= c && c <= 0xAEF)
    ||| (0xB66 <= c && c <= 0xB6F)
    ||| (0xBE6 <= c && c <= 0xBEF)
    ||| (0xC66 <= c && c <= 0xC6F)
    ||| (0xCE6 <= c && c <= 0xCEF)
    ||| (0xD66 <= c && c <= 0xD6F)
    ||| (0xDE6 <= c && c <= 0xDEF)
    ||| (0xE50 <= c && c <= 0xE59)
    ||| (0xED0 <= c && c <= 0xED9)
    ||| (0xF20 <= c && c <= 0xF29)
    ||| (0x1040 <= c && c <= 0x1049)
    ||| (0x1090 <= c && c <= 0x1099)
    ||| (0x17E0 <= c && c <= 0x17E9)
    ||| (0x1810 <= c && c <= 0x1819)
    ||| (0x1946 <= c && c <= 0x194F)
    ||| (0x19D0 <= c && c <= 0x19D9)
    ||| (0x1A80 <= c && c <= 0x1A89)
    ||| (0x1A90 <= c && c <= 0x1A99)
    ||| (0x1B50 <= c && c <= 0x1B59)
    ||| (0x1BB0 <= c && c <= 0x1BB9)
    ||| (0x1C40 <= c && c <= 0x1C49)
    ||| (0x1C50 <= c && c <= 0x1C59)
    ||| (0xA620 <= c && c <= 0xA629)
    ||| (0xA8D0 <= c && c <= 0xA8D9)
    ||| (0xA900 <= c && c <= 0xA909)
    ||| (0xA9D0 <= c && c <= 0xA9D9)
    ||| (0xA9F0 <= c && c <= 0xA9F9)
    ||| (0xAA50 <= c && c <= 0xAA59)
    ||| (0xABF0 <= c && c <= 0xABF9)
    ||| (0xFF10 <= c && c <= 0xFF19)
    ||| (0x104A0 <= c && c <= 0x104A9)
    ||| (0x10D30 <= c && c <= 0x10D39)
    ||| (0x10D40 <= c && c <= 0x10D49)
    ||| (0x11066 <= c && c <= 0x1106F)
    ||| (0x110F0 <= c && c <= 0x110F9)
    ||| (0x11136 <= c && c <= 0x1113F)
    ||| (0x111D0 <= c && c <= 0x111D9)
    ||| (0x112F0 <= c && c <= 0x112F9)
    ||| (0x11450 <= c && c <= 0x11459)
    ||| (0x114D0 <= c && c <= 0x114D9)
    ||| (0x11650 <= c && c <= 0x11659)
    ||| (0x116C0 <= c && c <= 0x116C9)
    ||| (0x116D0 <= c && c <= 0x116E3)
    ||| (0x11730 <= c && c <= 0x11739)
    ||| (0x118E0 <= c && c <= 0x118E9)
    ||| (0x11950 <= c && c <= 0x11959)
    ||| (0x11BF0 <= c && c <= 0x11BF9)
    ||| (0x11C50 <= c && c <= 0x11C59)
    ||| (0x11D50 <= c && c <= 0x11D59)
    ||| (0x11DA0 <= c && c <= 0x11DA9)
    ||| (0x11F50 <= c && c <= 0x11F59)
    ||| (0x16130 <= c && c <= 0x16139)
    ||| (0x16A60 <= c && c <= 0x16A69)
    ||| (0x16AC0 <= c && c <= 0x16AC9)
    ||| (0x16B50 <= c && c <= 0x16B59)
    ||| (0x16D70 <= c && c <= 0x16D79)
    ||| (0x1CCF0 <= c && c <= 0x1CCF9)
    ||| (0x1D7CE <= c && c <= 0x1D7FF)
    ||| (0x1E140 <= c && c <= 0x1E149)
    ||| (0x1E2F0 <= c && c <= 0x1E2F9)
    ||| (0x1E4F0 <= c && c <= 0x1E4F9)
    ||| (0x1E5F1 <= c && c <= 0x1E5FA)
    ||| (0x1E950 <= c && c <= 0x1E959)
    ||| (0x1FBF0 <= c && c <= 0x1FBF9)
}

/// Whether `ch` is a Unicode decimal digit (general category `Nd`).
pub open spec fn is_decimal_digit(ch: char) -> bool {
    code_is_decimal(ch as u32)
}

/// Decides `is_white_space`.
pub fn white_space(ch: char) -> (b: bool)
    ensures
        b == is_white_space(ch),
{
    let c: u32 = ch as u32;
    (0x9 <= c && c <= 0xD)
        || (0x20 <= c && c <= 0x20)
        || (0x85 <= c && c <= 0x85)
        || (0xA0 <= c && c <= 0xA0)
        || (0x1680 <= c && c <= 0x1680)
        || (0x2000 <= c && c <= 0x200A)
        || (0x2028 <= c && c <= 0x2029)
        || (0x202F <= c && c <= 0x202F)
        || (0x205F <= c && c <= 0x205F)
        || (0x3000 <= c && c <= 0x3000)
}

/// Decides `is_decimal_digit`.
pub fn decimal_digit(ch: char) -> (b: bool)
    ensures
        b == is_decimal_digit(ch),
{
    let c: u32 = ch as u32;
    (0x30 <= c && c <= 0x39)
        || (0x660 <= c && c <= 0x669)
        || (0x6F0 <= c && c <= 0x6F9)
        || (0x7C0 <= c && c <= 0x7C9)
        || (0x966 <= c && c <= 0x96F)
        || (0x9E6 <= c && c <= 0x9EF)
        || (0xA66 <= c && c <= 0xA6F)
        || (0xAE6 <= c && c <= 0xAEF)
        || (0xB66 <= c && c <= 0xB6F)
        || (0xBE6 <= c && c <= 0xBEF)
        || (0xC66 <= c && c <= 0xC6F)
        || (0xCE6 <= c && c <= 0xCEF)
        || (0xD66 <= c && c <= 0xD6F)
        || (0xDE6 <= c && c <= 0xDEF)
        || (0xE50 <= c && c <= 0xE59)
        || (0xED0 <= c && c <= 0xED9)
        || (0xF20 <= c && c <= 0xF29)
        || (0x1040 <= c && c <= 0x1049)
        || (0x1090 <= c && c <= 0x1099)
        || (0x17E0 <= c && c <= 0x17E9)
        || (0x1810 <= c && c <= 0x1819)
        || (0x1946 <= c && c <= 0x194F)
        || (0x19D0 <= c && c <= 0x19D9)
        || (0x1A80 <= c && c <= 0x1A89)
        || (0x1A90 <= c && c <= 0x1A99)
        || (0x1B50 <= c && c <= 0x1B59)
        || (0x1BB0 <= c && c <= 0x1BB9)
        || (0x1C40 <= c && c <= 0x1C49)
        || (0x1C50 <= c && c <= 0x1C59)
        || (0xA620 <= c && c <= 0xA629)
        || (0xA8D0 <= c && c <= 0xA8D9)
        || (0xA900 <= c && c <= 0xA909)
        || (0xA9D0 <= c && c <= 0xA9D9)
        || (0xA9F0 <= c && c <= 0xA9F9)
        || (0xAA50 <= c && c <= 0xAA59)
        || (0xABF0 <= c && c <= 0xABF9)
        || (0xFF10 <= c && c <= 0xFF19)
        || (0x104A0 <= c && c <= 0x104A9)
        || (0x10D30 <= c && c <= 0x10D39)
        || (0x10D40 <= c && c <= 0x10D49)
        || (0x11066 <= c && c <= 0x1106F)
        || (0x110F0 <= c && c <= 0x110F9)
        || (0x11136 <= c && c <= 0x1113F)
        || (0x111D0 <= c && c <= 0x111D9)
        || (0x112F0 <= c && c <= 0x112F9)
        || (0x11450 <= c && c <= 0x11459)
        || (0x114D0 <= c && c <= 0x114D9)
        || (0x11650 <= c && c <= 0x11659)
        || (0x116C0 <= c && c <= 0x116C9)
        || (0x116D0 <= c && c <= 0x116E3)
        || (0x11730 <= c && c <= 0x11739)
        || (0x118E0 <= c && c <= 0x118E9)
        || (0x11950 <= c && c <= 0x11959)
        || (0x11BF0 <= c && c <= 0x11BF9)
        || (0x11C50 <= c && c <= 0x11C59)
        || (0x11D50 <= c && c <= 0x11D59)
        || (0x11DA0 <= c && c <= 0x11DA9)
        || (0x11F50 <= c && c <= 0x11F59)
        || (0x16130 <= c && c <= 0x16139)
        || (0x16A60 <= c && c <= 0x16A69)
        || (0x16AC0 <= c && c <= 0x16AC9)
        || (0x16B50 <= c && c <= 0x16B59)
        || (0x16D70 <= c && c <= 0x16D79)
        || (0x1CCF0 <= c && c <= 0x1CCF9)
        || (0x1D7CE <= c && c <= 0x1D7FF)
        || (0x1E140 <= c && c <= 0x1E149)
        || (0x1E2F0 <= c && c <= 0x1E2F9)
        || (0x1E4F0 <= c && c <= 0x1E4F9)
        || (0x1E5F1 <= c && c <= 0x1E5FA)
        || (0x1E950 <= c && c <= 0x1E959)
        || (0x1FBF0 <= c && c <= 0x1FBF9)
}


/// The characters of `s`, in order.
pub fn chars_of(s: &str) -> (v: Vec<char>)
    ensures
        v@ == s@,
{
    let mut v: Vec<char> = Vec::new();
    for c in it: s.chars()
        invariant
            v@ == it.seq().take(it.index() as int),
            it.seq() == s@,
    {
        v.push(c);
    }
    v
}

/// Builds a `String` from a sequence of characters (std's `FromIterator<&char> for String`).
/// The contract claims that the string holds exactly these characters, in order.
#[verifier::external_body]
pub(crate) fn string_from_chars(v: &Vec<char>) -> (s: String)
    ensures
        s@ == v@,
{
    v.iter().collect()
}

/// Appends the characters of `s` to `out`.
pub fn push_str(out: &mut Vec<char>, s: &str)
    ensures
        final(out)@ == old(out)@ + s@,
{
    for c in it: s.chars()
        invariant
            out@ == old(out)@ + it.seq().take(it.index() as int),
            it.seq() == s@,
    {
        out.push(c);
    }
}

/// Appends the characters of `s` to `out`.
pub fn push_chars(out: &mut Vec<char>, s: &Vec<char>)
    ensures
        final(out)@ == old(out)@ + s@,
{
    let mut i: usize = 0;
    while i < s.len()
        invariant
            i <= s.len(),
            out@ == old(out)@ + s@.take(i as int),
        decreases s.len() - i,
    {
        out.push(s[i]);
        i = i + 1;
    }
}

/// The ASCII digit for `d < 10`.
pub open spec fn digit_char(d: nat) -> char {
    if d == 0 { '0' } else if d == 1 { '1' } else if d == 2 { '2' } else if d == 3 { '3' }
    else if d == 4 { '4' } else if d == 5 { '5' } else if d == 6 { '6' } else if d == 7 { '7' }
    else if d == 8 { '8' } else { '9' }
}

/// The decimal notation of `n`, without sign or leading zeros (as `{}` formats an unsigned integer).
pub open spec fn decimal(n: nat) -> Seq<char>
    decreases n,
{
    if n < 10 {
        seq![digit_char(n)]
    } else {
        decimal(n / 10).push(digit_char(n % 10))
    }
}

fn digit(d: usize) -> (c: char)
    requires
        d < 10,
    ensures
        c == digit_char(d as nat),
{
    if d == 0 { '0' } else if d == 1 { '1' } else if d == 2 { '2' } else if d == 3 { '3' }
    else if d == 4 { '4' } else if d == 5 { '5' } else if d == 6 { '6' } else if d == 7 { '7' }
    else if d == 8 { '8' } else { '9' }
}

/// Appends the decimal notation of `n` to `out`.
pub fn push_decimal(out: &mut Vec<char>, n: usize)
    ensures
        final(out)@ == old(out)@ + decimal(n as nat),
    decreases n,
{
    if n < 10 {
        out.push(digit(n));
        assert(out@ =~= old(out)@ + decimal(n as nat));
    } else {
        push_decimal(out, n / 10);
        out.push(digit(n % 10));
        assert(out@ =~= old(out)@ + decimal(n as nat));
    }
}

/// Whether `w` writes the number `n` in plain decimal notation: ASCII digits only (no sign, no
/// separators), no leading zero unless `n` is zero itself, reading back as `n`.
pub open spec fn writes_number(w: Seq<char>, n: nat) -> bool {
    &&& w.len() >= 1
    &&& forall|i: int| 0 <= i < w.len() ==> #[trigger] is_dec_digit(w[i])
    &&& (w.len() == 1 || w[0] != '0')
    &&& digits_value(w, 10) == n
}

/// `decimal(n)` writes `n` in plain decimal notation.
pub proof fn lemma_decimal_writes_number(n: nat)
    ensures
        writes_number(decimal(n), n),
{
    lemma_decimal_reads_back(n);
}

/// The decimal notation of `n` is made of ASCII digits only, starts with `0` only for zero, and
/// its digits read back as `n`.
pub proof fn lemma_decimal_reads_back(n: nat)
    ensures
        decimal(n).len() >= 1,
        (decimal(n)[0] == '0') == (n == 0),
        decimal(n).len() == 1 || decimal(n)[0] != '0',
        forall|i: int| 0 <= i < decimal(n).len() ==> #[trigger] is_dec_digit(decimal(n)[i]),
        digits_value(decimal(n), 10) == n,
    decreases n,
{
    let d = (n % 10) as nat;
    assert(is_dec_digit(digit_char(d)) && digit_value(digit_char(d)) == d) by {
        if d == 0 {} else if d == 1 {} else if d == 2 {} else if d == 3 {} else if d == 4 {}
        else if d == 5 {} else if d == 6 {} else if d == 7 {} else if d == 8 {} else {}
    }
    if n < 10 {
        let s = decimal(n);
        assert(s.drop_last() =~= Seq::<char>::empty());
        assert(s.last() == digit_char(n));
        assert(s[0] == digit_char(n));
        assert(digits_value(s.drop_last(), 10) == 0);
        assert(digits_value(s, 10) == digits_value(s.drop_last(), 10) * 10 + digit_value(s.last()));
        assert(d == n);
    } else {
        lemma_decimal_reads_back(n / 10);
        let s = decimal(n);
        assert(s.drop_last() =~= decimal(n / 10));
        assert(s[0] == decimal(n / 10)[0]);
        assert(s.last() == digit_char(d));
        assert forall|i: int| 0 <= i < s.len() implies #[trigger] is_dec_digit(s[i]) by {
            if i < s.len() - 1 {
                assert(s[i] == decimal(n / 10)[i]);
            }
        }
        assert(digits_value(s, 10) == digits_value(s.drop_last(), 10) * 10 + digit_value(s.last()));
        assert((n / 10) * 10 + d == n);
    }
}

/// Whether every character of `s` is white space (what `s.trim().is_empty()` tests).
pub open spec fn is_blank(s: Seq<char>) -> bool {
    forall|i: int| 0 <= i < s.len() ==> #[trigger] is_white_space(s[i])
}

/// Decides `is_blank`: whether the line holds nothing but white space.
pub fn blank(s: &str) -> (b: bool)
    ensures
        b == is_blank(s@),
{
    for c in it: s.chars()
        invariant
            it.seq() == s@,
            forall|i: int| 0 <= i < it.index() ==> #[trigger] is_white_space(s@[i]),
    {
        if !white_space(c) {
            return false;
        }
    }
    true
}

/// Whether `needle` occurs in `hay` as a contiguous run of characters.
pub open spec fn occurs_at(hay: Seq<char>, needle: Seq<char>, i: int) -> bool {
    0 <= i && i + needle.len() <= hay.len() && hay.subrange(i, i + needle.len()) == needle
}

/// Whether `needle` occurs somewhere in `hay` (what `str::contains` with a `&str` pattern tests).
pub open spec fn contains_seq(hay: Seq<char>, needle: Seq<char>) -> bool {
    exists|i: int| #[trigger] occurs_at(hay, needle, i)
}

fn matches_at(hay: &Vec<char>, needle: &Vec<char>, i: usize) -> (b: bool)
    requires
        i + needle.len() <= hay.len(),
    ensures
        b == occurs_at(hay@, needle@, i as int),
{
    let mut k: usize = 0;
    while k < needle.len()
        invariant
            k <= needle.len(),
            i + needle.len() <= hay.len(),
            forall|j: int| 0 <= j < k ==> hay@[i + j] == needle@[j],
        decreases needle.len() - k,
    {
        if hay[i + k] != needle[k] {
            assert(hay@.subrange(i as int, i + needle.len())[k as int] != needle@[k as int]);
            return false;
        }
        k = k + 1;
    }
    assert(hay@.subrange(i as int, i + needle.len()) =~= needle@);
    true
}

/// Decides `contains_seq` on two strings.
pub fn str_contains(hay: &str, needle: &str) -> (b: bool)
    ensures
        b == contains_seq(hay@, needle@),
{
    let h = chars_of(hay);
    let n = chars_of(needle);
    if n.len() > h.len() {
        assert forall|i: int| !occurs_at(hay@, needle@, i) by {}
        return false;
    }
    let last: usize = h.len() - n.len();
    let mut i: usize = 0;
    while i <= last
        invariant
            last + n.len() == h.len(),
            h@ == hay@,
            n@ == needle@,
            forall|j: int| 0 <= j < i ==> !#[trigger] occurs_at(hay@, needle@, j),
        decreases last + 1 - i,
    {
        if matches_at(&h, &n, i) {
            return true;
        }
        if i == last {
            assert forall|j: int| !#[trigger] occurs_at(hay@, needle@, j) by {
                if 0 <= j && j + needle@.len() <= hay@.len() {
                    assert(j <= i);
                }
            }
            return false;
        }
        i = i + 1;
    }
    false
}

/// Whether `a` sorts strictly before `b`, comparing character by character by code point and
/// a proper prefix first: the order of `str`'s `Ord` (UTF-8 preserves code point order).
pub open spec fn seq_less(a: Seq<char>, b: Seq<char>) -> bool {
    less_from(a, b, 0)
}

/// `seq_less` on the parts of `a` and `b` from position `i` on.
pub open spec fn less_from(a: Seq<char>, b: Seq<char>, i: int) -> bool
    decreases a.len() - i,
{
    if i >= a.len() {
        i < b.len()
    } else if i >= b.len() {
        false
    } else if a[i] != b[i] {
        a[i] < b[i]
    } else {
        less_from(a, b, i + 1)
    }
}

/// `less_from` is irreflexive and asymmetric.
pub proof fn lemma_less_from_asymmetric(a: Seq<char>, b: Seq<char>, i: int)
    ensures
        !less_from(a, a, i),
        less_from(a, b, i) ==> !less_from(b, a, i),
    decreases a.len() - i,
{
    if i < a.len() {
        lemma_less_from_asymmetric(a, b, i + 1);
    }
}

/// `less_from` is transitive.
pub proof fn lemma_less_from_transitive(a: Seq<char>, b: Seq<char>, c: Seq<char>, i: int)
    requires
        less_from(a, b, i),
        less_from(b, c, i),
    ensures
        less_from(a, c, i),
    decreases a.len() - i,
{
    if i < a.len() && i < b.len() && i < c.len() && a[i] == b[i] && b[i] == c[i] {
        lemma_less_from_transitive(a, b, c, i + 1);
    }
}

/// Two sequences that agree before `i` and differ are ordered one way or the other from `i` on.
pub proof fn lemma_less_from_total(a: Seq<char>, b: Seq<char>, i: int)
    requires
        0 <= i <= a.len(),
        i <= b.len(),
        forall|k: int| 0 <= k < i ==> a[k] == b[k],
        a != b,
    ensures
        less_from(a, b, i) || less_from(b, a, i),
    decreases a.len() - i,
{
    if i == a.len() && i == b.len() {
        assert(a =~= b);
    } else if i < a.len() && i < b.len() && a[i] == b[i] {
        lemma_less_from_total(a, b, i + 1);
    }
}

/// `seq_less` is a strict total order.
pub proof fn lemma_seq_less_order(a: Seq<char>, b: Seq<char>, c: Seq<char>)
    ensures
        !seq_less(a, a),
        seq_less(a, b) ==> !seq_less(b, a),
        a != b ==> seq_less(a, b) || seq_less(b, a),
        seq_less(a, b) && seq_less(b, c) ==> seq_less(a, c),
{
    lemma_less_from_asymmetric(a, b, 0);
    if a != b {
        lemma_less_from_total(a, b, 0);
    }
    if seq_less(a, b) && seq_less(b, c) {
        lemma_less_from_transitive(a, b, c, 0);
    }
}

/// Decides `seq_less` on two strings.
pub fn str_less(a: &str, b: &str) -> (r: bool)
    ensures
        r == seq_less(a@, b@),
{
    let x = chars_of(a);
    let y = chars_of(b);
    let mut i: usize = 0;
    while i < x.len() && i < y.len() && x[i] == y[i]
        invariant
            i <= x.len() && i <= y.len(),
            x@ == a@,
            y@ == b@,
            less_from(a@, b@, 0) == less_from(a@, b@, i as int),
        decreases x.len() - i,
    {
        i = i + 1;
    }
    if i >= x.len() {
        i < y.len()
    } else if i >= y.len() {
        false
    } else {
        x[i] < y[i]
    }
}

} // verus!
