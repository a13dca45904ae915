//! IP address literals, as `std::net::IpAddr` reads them from text, and CIDR networks.
use crate::text::chars_of;
use vstd::prelude::*;

verus! {

/// An IPv4 or IPv6 address as its number.
#[derive(Debug, Clone, Copy, PartialEq, Eq, Structural)]
pub enum IpAddress {
    V4(u32),
    V6(u128),
}

/// `s` cut at each `sep`: the pieces between the separators, in order. There is always one
/// piece more than there are separators, so the empty text is one empty piece.
pub open spec fn split_on(s: Seq<char>, sep: char) -> Seq<Seq<char>>
    decreases s.len(),
{
    if s.len() == 0 {
        seq![Seq::<char>::empty()]
    } else {
        let before = split_on(s.drop_last(), sep);
        if s.last() == sep {
            before.push(Seq::<char>::empty())
        } else {
            before.update(before.len() - 1, before.last().push(s.last()))
        }
    }
}

/// Whether `c` is an ASCII decimal digit.
pub open spec fn is_dec_digit(c: char) -> bool {
    '0' <= c && c <= '9'
}

/// Whether `c` is an ASCII hexadecimal digit, in either case.
pub open spec fn is_hex_digit(c: char) -> bool {
    is_dec_digit(c) || ('a' <= c && c <= 'f') || ('A' <= c && c <= 'F')
}

/// The value of a hexadecimal (or decimal) digit.
pub open spec fn digit_value(c: char) -> nat {
    if is_dec_digit(c) {
        (c as nat - '0' as nat) as nat
    } else if 'a' <= c && c <= 'f' {
        (c as nat - 'a' as nat + 10) as nat
    } else if 'A' <= c && c <= 'F' {
        (c as nat - 'A' as nat + 10) as nat
    } else {
        0
    }
}

/// The number the digits `s` write in `base`, most significant first.
pub open spec fn digits_value(s: Seq<char>, base: nat) -> nat
    decreases s.len(),
{
    if s.len() == 0 {
        0
    } else {
        digits_value(s.drop_last(), base) * base + digit_value(s.last())
    }
}

/// The number the values `g` write as digits in `base`, most significant first.
pub open spec fn combine(g: Seq<nat>, base: nat) -> nat
    decreases g.len(),
{
    if g.len() == 0 {
        0
    } else {
        combine(g.drop_last(), base) * base + g.last()
    }
}

/// A decimal octet of a dotted IPv4 address: one to three ASCII digits, no leading zero
/// unless the octet is `0` itself, and at most 255.
pub open spec fn octet_text(s: Seq<char>) -> bool {
    &&& 1 <= s.len() <= 3
    &&& forall|i: int| 0 <= i < s.len() ==> #[trigger] is_dec_digit(s[i])
    &&& (s.len() == 1 || s[0] != '0')
    &&& digits_value(s, 10) <= 255
}

/// A group of an IPv6 address: one to four hexadecimal digits.
pub open spec fn h16_text(s: Seq<char>) -> bool {
    &&& 1 <= s.len() <= 4
    &&& forall|i: int| 0 <= i < s.len() ==> #[trigger] is_hex_digit(s[i])
}

/// The address written in dotted IPv4 form `a.b.c.d`, if `s` is one.
pub open spec fn ipv4_value(s: Seq<char>) -> Option<nat> {
    let parts = split_on(s, '.');
    if parts.len() == 4 && (forall|i: int| 0 <= i < 4 ==> #[trigger] octet_text(parts[i])) {
        Some(
            combine(
                seq![
                    digits_value(parts[0], 10),
                    digits_value(parts[1], 10),
                    digits_value(parts[2], 10),
                    digits_value(parts[3], 10),
                ],
                256,
            ),
        )
    } else {
        None
    }
}

/// The value of a group.
pub open spec fn group_value(s: Seq<char>) -> nat {
    digits_value(s, 16)
}

/// The pieces of `s` between colons, none at all for the empty text.
pub open spec fn colon_pieces(s: Seq<char>) -> Seq<Seq<char>> {
    if s.len() == 0 {
        Seq::empty()
    } else {
        split_on(s, ':')
    }
}

/// The groups written by the pieces `parts`: each a group, except that the last may be a dotted
/// IPv4 address, which writes two.
pub open spec fn tail_groups(parts: Seq<Seq<char>>) -> Option<Seq<nat>> {
    if parts.len() == 0 {
        Some(Seq::empty())
    } else if forall|i: int| 0 <= i < parts.len() - 1 ==> #[trigger] h16_text(parts[i]) {
        let front = parts.drop_last().map_values(|p: Seq<char>| group_value(p));
        if h16_text(parts.last()) {
            Some(front.push(group_value(parts.last())))
        } else {
            match ipv4_value(parts.last()) {
                Some(v) => Some(front.push(v / 0x10000).push(v % 0x10000)),
                None => None,
            }
        }
    } else {
        None
    }
}

/// The position of the first `::` in `s` at or after `i`.
pub open spec fn double_colon_from(s: Seq<char>, i: int) -> Option<int>
    decreases s.len() - i,
{
    if i < 0 || i + 1 >= s.len() {
        None
    } else if s[i] == ':' && s[i + 1] == ':' {
        Some(i)
    } else {
        double_colon_from(s, i + 1)
    }
}

/// The eight groups of the IPv6 address `s`, if it is one: eight groups between colons (the
/// last two may be a dotted IPv4 address), or at most seven around one `::` that stands for as
/// many zero groups as are missing, with no dotted part before it.
pub open spec fn ipv6_groups(s: Seq<char>) -> Option<Seq<nat>> {
    match double_colon_from(s, 0) {
        Some(k) => {
            let head = colon_pieces(s.take(k));
            if forall|i: int| 0 <= i < head.len() ==> #[trigger] h16_text(head[i]) {
                match tail_groups(colon_pieces(s.skip(k + 2))) {
                    Some(t) => if head.len() + t.len() <= 7 {
                        Some(
                            head.map_values(|p: Seq<char>| group_value(p)) + Seq::new(
                                (8 - head.len() - t.len()) as nat,
                                |i: int| 0nat,
                            ) + t,
                        )
                    } else {
                        None
                    },
                    None => None,
                }
            } else {
                None
            }
        },
        None => match tail_groups(split_on(s, ':')) {
            Some(g) => if g.len() == 8 {
                Some(g)
            } else {
                None
            },
            None => None,
        },
    }
}

/// The address `s` writes: dotted IPv4, else IPv6, else none (what `IpAddr`'s `FromStr` reads).
pub open spec fn ip_value(s: Seq<char>) -> Option<IpAddress> {
    match ipv4_value(s) {
        Some(v) => Some(IpAddress::V4(v as u32)),
        None => match ipv6_groups(s) {
            Some(g) => Some(IpAddress::V6(combine(g, 0x10000) as u128)),
            None => None,
        },
    }
}

/// There is always at least one piece.
pub proof fn lemma_split_nonempty(s: Seq<char>, sep: char)
    ensures
        split_on(s, sep).len() >= 1,
    decreases s.len(),
{
    if s.len() > 0 {
        lemma_split_nonempty(s.drop_last(), sep);
    }
}

/// Whether `c` is a digit of `base` (10 or 16).
pub open spec fn in_base(c: char, base: nat) -> bool {
    if base == 10 {
        is_dec_digit(c)
    } else {
        is_hex_digit(c)
    }
}

/// `b` to the power `n`.
pub open spec fn power(b: nat, n: nat) -> nat
    decreases n,
{
    if n == 0 {
        1
    } else {
        power(b, (n - 1) as nat) * b
    }
}

proof fn lemma_digits_bound(s: Seq<char>, base: nat)
    requires
        base == 10 || base == 16,
        forall|i: int| 0 <= i < s.len() ==> #[trigger] in_base(s[i], base),
    ensures
        digits_value(s, base) < power(base, s.len()),
    decreases s.len(),
{
    if s.len() > 0 {
        let t = s.drop_last();
        assert forall|i: int| 0 <= i < t.len() implies #[trigger] in_base(t[i], base) by {
            assert(t[i] == s[i]);
        }
        lemma_digits_bound(t, base);
        assert(in_base(s[s.len() - 1], base));
        let d = digit_value(s.last());
        let v = digits_value(t, base);
        let p = power(base, t.len());
        assert(d < base);
        assert(v * base + d < p * base) by (nonlinear_arith)
            requires
                v < p,
                d < base,
        ;
    }
}

/// The value of `c` as a digit of `base`, if it is one.
fn digit_in(c: char, base: u32) -> (r: Option<u32>)
    requires
        base == 10 || base == 16,
    ensures
        r == (if in_base(c, base as nat) { Some(digit_value(c) as u32) } else { None::<u32> }),
{
    if '0' <= c && c <= '9' {
        Some((c as u32) - ('0' as u32))
    } else if base == 16 && 'a' <= c && c <= 'f' {
        Some((c as u32) - ('a' as u32) + 10)
    } else if base == 16 && 'A' <= c && c <= 'F' {
        Some((c as u32) - ('A' as u32) + 10)
    } else {
        None
    }
}

/// The number the digits `p` write in `base`, if they are all digits of it.
fn read_digits(p: &Vec<char>, base: u32) -> (r: Option<u32>)
    requires
        base == 10 || base == 16,
        p.len() <= 4,
    ensures
        match r {
            Some(v) => (forall|i: int| 0 <= i < p.len() ==> #[trigger] in_base(p@[i], base as nat))
                && v == digits_value(p@, base as nat),
            None => !(forall|i: int| 0 <= i < p.len() ==> #[trigger] in_base(p@[i], base as nat)),
        },
{
    let mut acc: u32 = 0;
    let mut i: usize = 0;
    while i < p.len()
        invariant
            i <= p.len() <= 4,
            base == 10 || base == 16,
            forall|j: int| 0 <= j < i ==> #[trigger] in_base(p@[j], base as nat),
            acc == digits_value(p@.take(i as int), base as nat),
            acc < power(base as nat, i as nat),
            power(base as nat, i as nat) <= 65536,
        decreases p.len() - i,
    {
        match digit_in(p[i], base) {
            Some(d) => {
                assert(p@.take(i + 1).drop_last() =~= p@.take(i as int));
                let ghost b = base as nat;
                let ghost pw = power(b, i as nat);
                assert(acc * b + d < pw * b) by (nonlinear_arith)
                    requires
                        acc < pw,
                        d < b,
                ;
                assert(power(b, (i + 1) as nat) == pw * b);
                assert(power(b, (i + 1) as nat) <= 65536) by {
                    reveal_with_fuel(power, 5);
                    assert(power(10, 4) == 10000);
                    assert(power(16, 4) == 65536);
                    assert(power(10, 3) == 1000);
                    assert(power(16, 3) == 4096);
                    assert(power(10, 2) == 100);
                    assert(power(16, 2) == 256);
                }
                acc = acc * base + d;
                i = i + 1;
            },
            None => {
                return None;
            },
        }
    }
    assert(p@.take(i as int) =~= p@);
    Some(acc)
}

/// The views of a list of character vectors.
pub open spec fn vecs_view(v: Seq<Vec<char>>) -> Seq<Seq<char>> {
    v.map_values(|x: Vec<char>| x@)
}

/// Cuts `s` at each `sep`.
fn split_chars(s: &Vec<char>, sep: char) -> (parts: Vec<Vec<char>>)
    ensures
        vecs_view(parts@) == split_on(s@, sep),
{
    let mut done: Vec<Vec<char>> = Vec::new();
    let mut current: Vec<char> = Vec::new();
    let mut i: usize = 0;
    while i < s.len()
        invariant
            i <= s.len(),
            vecs_view(done@).push(current@) == split_on(s@.take(i as int), sep),
        decreases s.len() - i,
    {
        let c = s[i];
        let ghost before = split_on(s@.take(i as int), sep);
        assert(s@.take(i + 1).drop_last() =~= s@.take(i as int));
        assert(s@.take(i + 1).last() == c);
        proof { lemma_split_nonempty(s@.take(i as int), sep); }
        if c == sep {
            let finished = current;
            done.push(finished);
            current = Vec::new();
            assert(vecs_view(done@).push(current@) =~= before.push(Seq::<char>::empty()));
        } else {
            current.push(c);
            assert(vecs_view(done@).push(current@) =~= before.update(
                before.len() - 1,
                before.last().push(c),
            ));
        }
        i = i + 1;
    }
    assert(s@.take(i as int) =~= s@);
    done.push(current);
    done
}

/// The octet `p` writes, if it is one.
fn octet_of(p: &Vec<char>) -> (r: Option<u32>)
    ensures
        match r {
            Some(v) => octet_text(p@) && v as nat == digits_value(p@, 10) && v <= 255,
            None => !octet_text(p@),
        },
{
    if p.len() < 1 || p.len() > 3 {
        return None;
    }
    match read_digits(p, 10) {
        None => {
            assert(!octet_text(p@)) by {
                if octet_text(p@) {
                    assert forall|i: int| 0 <= i < p.len() implies #[trigger] in_base(p@[i], 10) by {
                        assert(is_dec_digit(p@[i]));
                    }
                }
            }
            None
        },
        Some(v) => {
            assert forall|i: int| 0 <= i < p.len() implies #[trigger] is_dec_digit(p@[i]) by {
                assert(in_base(p@[i], 10));
            }
            if p.len() > 1 && p[0] == '0' {
                return None;
            }
            if v > 255 {
                None
            } else {
                Some(v)
            }
        },
    }
}

/// The group `p` writes, if it is one.
fn group_of(p: &Vec<char>) -> (r: Option<u32>)
    ensures
        match r {
            Some(v) => h16_text(p@) && v as nat == group_value(p@) && v < 0x10000,
            None => !h16_text(p@),
        },
{
    if p.len() < 1 || p.len() > 4 {
        return None;
    }
    match read_digits(p, 16) {
        None => {
            assert(!h16_text(p@)) by {
                if h16_text(p@) {
                    assert forall|i: int| 0 <= i < p.len() implies #[trigger] in_base(p@[i], 16) by {
                        assert(is_hex_digit(p@[i]));
                    }
                }
            }
            None
        },
        Some(v) => {
            assert forall|i: int| 0 <= i < p.len() implies #[trigger] is_hex_digit(p@[i]) by {
                assert(in_base(p@[i], 16));
            }
            proof {
                lemma_digits_bound(p@, 16);
                reveal_with_fuel(power, 5);
                if p.len() == 1 {
                } else if p.len() == 2 {
                } else if p.len() == 3 {
                } else {
                    assert(power(16, 4) == 65536);
                }
            }
            Some(v)
        },
    }
}

/// The address `s` writes in dotted IPv4 form, if it is one.
fn read_ipv4(s: &Vec<char>) -> (r: Option<u32>)
    ensures
        match r {
            Some(v) => ipv4_value(s@) == Some(v as nat),
            None => ipv4_value(s@) is None,
        },
{
    let parts = split_chars(s, '.');
    let ghost pv = split_on(s@, '.');
    if parts.len() != 4 {
        return None;
    }
    assert(pv.len() == 4);
    assert(pv[0] == parts@[0]@ && pv[1] == parts@[1]@ && pv[2] == parts@[2]@ && pv[3] == parts@[3]@);
    let a = octet_of(&parts[0]);
    let b = octet_of(&parts[1]);
    let c = octet_of(&parts[2]);
    let d = octet_of(&parts[3]);
    match (a, b, c, d) {
        (Some(a), Some(b), Some(c), Some(d)) => {
            assert(forall|i: int| 0 <= i < 4 ==> #[trigger] octet_text(pv[i])) by {
                assert forall|i: int| 0 <= i < 4 implies #[trigger] octet_text(pv[i]) by {
                    if i == 0 {} else if i == 1 {} else if i == 2 {} else {}
                }
            }
            let ghost g: Seq<nat> = seq![a as nat, b as nat, c as nat, d as nat];
            assert(combine(g, 256) == ((a * 256 + b) * 256 + c) * 256 + d) by {
                assert(g.drop_last() =~= seq![a as nat, b as nat, c as nat]);
                assert(g.drop_last().drop_last() =~= seq![a as nat, b as nat]);
                assert(g.drop_last().drop_last().drop_last() =~= seq![a as nat]);
                assert(g.drop_last().drop_last().drop_last().drop_last() =~= Seq::<nat>::empty());
                reveal_with_fuel(combine, 5);
            }
            assert(((a * 256 + b) * 256 + c) * 256 + d <= 0xffff_ffff) by (nonlinear_arith)
                requires
                    a <= 255,
                    b <= 255,
                    c <= 255,
                    d <= 255,
            ;
            Some(((a * 256 + b) * 256 + c) * 256 + d)
        },
        _ => {
            assert(!(forall|i: int| 0 <= i < 4 ==> #[trigger] octet_text(pv[i]))) by {
                if !octet_text(pv[0]) {} else if !octet_text(pv[1]) {} else if !octet_text(pv[2]) {} else {
                    assert(!octet_text(pv[3]));
                }
            }
            None
        },
    }
}

/// The values of a list of groups.
pub open spec fn nats(g: Seq<u32>) -> Seq<nat> {
    g.map_values(|x: u32| x as nat)
}

/// The position of the first `::` in `s`.
fn find_double_colon(s: &Vec<char>) -> (r: Option<usize>)
    ensures
        match r {
            Some(k) => double_colon_from(s@, 0) == Some(k as int) && k + 1 < s.len(),
            None => double_colon_from(s@, 0) is None,
        },
{
    let mut i: usize = 0;
    while i < s.len()
        invariant
            i <= s.len(),
            double_colon_from(s@, 0) == double_colon_from(s@, i as int),
        decreases s.len() - i,
    {
        if i + 1 < s.len() && s[i] == ':' && s[i + 1] == ':' {
            return Some(i);
        }
        i = i + 1;
    }
    None
}

/// The characters `s[from..to]`.
fn sub_chars(s: &Vec<char>, from: usize, to: usize) -> (r: Vec<char>)
    requires
        from <= to <= s.len(),
    ensures
        r@ == s@.subrange(from as int, to as int),
{
    let mut r: Vec<char> = Vec::new();
    let mut i: usize = from;
    while i < to
        invariant
            from <= i <= to <= s.len(),
            r@ == s@.subrange(from as int, i as int),
        decreases to - i,
    {
        r.push(s[i]);
        assert(r@ =~= s@.subrange(from as int, i + 1));
        i = i + 1;
    }
    r
}

/// The pieces of `s` between colons, none for the empty text.
fn pieces_of(s: &Vec<char>) -> (parts: Vec<Vec<char>>)
    ensures
        vecs_view(parts@) == colon_pieces(s@),
{
    if s.len() == 0 {
        let parts: Vec<Vec<char>> = Vec::new();
        assert(vecs_view(parts@) =~= Seq::<Seq<char>>::empty());
        parts
    } else {
        split_chars(s, ':')
    }
}

/// The groups the pieces `parts` write, the last piece possibly a dotted IPv4 address.
fn read_tail_groups(parts: &Vec<Vec<char>>) -> (r: Option<Vec<u32>>)
    ensures
        match r {
            Some(g) => tail_groups(vecs_view(parts@)) == Some(nats(g@)) && (forall|i: int|
                0 <= i < g.len() ==> #[trigger] g@[i] < 0x10000),
            None => tail_groups(vecs_view(parts@)) is None,
        },
{
    let ghost pv = vecs_view(parts@);
    let mut g: Vec<u32> = Vec::new();
    if parts.len() == 0 {
        assert(nats(g@) =~= Seq::<nat>::empty());
        return Some(g);
    }
    let n = parts.len();
    let mut j: usize = 0;
    while j < n - 1
        invariant
            n == parts.len() >= 1,
            j <= n - 1,
            pv == vecs_view(parts@),
            forall|i: int| 0 <= i < j ==> #[trigger] h16_text(pv[i]),
            nats(g@) == pv.take(j as int).map_values(|p: Seq<char>| group_value(p)),
            forall|i: int| 0 <= i < g.len() ==> #[trigger] g@[i] < 0x10000,
        decreases n - 1 - j,
    {
        assert(pv[j as int] == parts@[j as int]@);
        match group_of(&parts[j]) {
            Some(v) => {
                let ghost old_g = g@;
                g.push(v);
                assert(nats(g@) =~= nats(old_g).push(v as nat));
                assert(pv.take(j + 1).map_values(|p: Seq<char>| group_value(p)) =~= pv.take(
                    j as int,
                ).map_values(|p: Seq<char>| group_value(p)).push(group_value(pv[j as int])));
                j = j + 1;
            },
            None => {
                assert(!h16_text(pv[j as int]));
                return None;
            },
        }
    }
    assert(pv.take(j as int) =~= pv.drop_last());
    let last = &parts[n - 1];
    assert(pv.last() == last@);
    match group_of(last) {
        Some(v) => {
            g.push(v);
            assert(nats(g@) =~= pv.drop_last().map_values(|p: Seq<char>| group_value(p)).push(
                group_value(pv.last()),
            ));
            Some(g)
        },
        None => match read_ipv4(last) {
            Some(v) => {
                g.push(v / 0x10000);
                g.push(v % 0x10000);
                assert(nats(g@) =~= pv.drop_last().map_values(|p: Seq<char>| group_value(p)).push(
                    (v as nat) / 0x10000,
                ).push((v as nat) % 0x10000));
                Some(g)
            },
            None => None,
        },
    }
}

proof fn lemma_combine_bound(g: Seq<nat>)
    requires
        forall|i: int| 0 <= i < g.len() ==> #[trigger] g[i] < 0x10000,
    ensures
        combine(g, 0x10000) < power(0x10000, g.len()),
    decreases g.len(),
{
    if g.len() > 0 {
        let t = g.drop_last();
        assert forall|i: int| 0 <= i < t.len() implies #[trigger] t[i] < 0x10000 by {
            assert(t[i] == g[i]);
        }
        lemma_combine_bound(t);
        let v = combine(t, 0x10000);
        let p = power(0x10000, t.len());
        let d = g.last();
        assert(g[g.len() - 1] < 0x10000);
        assert(v * 0x10000 + d < p * 0x10000) by (nonlinear_arith)
            requires
                v < p,
                d < 0x10000,
        ;
    }
}

/// The number eight groups write, most significant first.
fn combine_groups(g: &Vec<u32>) -> (r: u128)
    requires
        g.len() == 8,
        forall|i: int| 0 <= i < g.len() ==> #[trigger] g@[i] < 0x10000,
    ensures
        r == combine(nats(g@), 0x10000),
{
    let mut acc: u128 = 0;
    let mut i: usize = 0;
    while i < 8
        invariant
            i <= 8 == g.len(),
            forall|j: int| 0 <= j < g.len() ==> #[trigger] g@[j] < 0x10000,
            acc == combine(nats(g@).take(i as int), 0x10000),
        decreases 8 - i,
    {
        let ghost t = nats(g@).take(i + 1);
        assert(t.drop_last() =~= nats(g@).take(i as int));
        proof {
            assert forall|j: int| 0 <= j < t.len() implies #[trigger] t[j] < 0x10000 by {
                assert(t[j] == g@[j] as nat);
            }
            lemma_combine_bound(t);
            reveal_with_fuel(power, 9);
            assert(power(0x10000, t.len()) <= power(0x10000, 8)) by {
                if t.len() < 8 {
                    assert(power(0x10000, 8) == 0x1_0000_0000_0000_0000_0000_0000_0000_0000);
                }
            }
            assert(power(0x10000, 8) == 0x1_0000_0000_0000_0000_0000_0000_0000_0000);
        }
        acc = acc * 0x10000 + g[i] as u128;
        i = i + 1;
    }
    assert(nats(g@).take(8) =~= nats(g@));
    acc
}

/// The number the IPv6 address `s` writes, if it is one.
fn read_ipv6(s: &Vec<char>) -> (r: Option<u128>)
    ensures
        match r {
            Some(v) => ipv6_groups(s@) matches Some(g) && v == combine(g, 0x10000),
            None => ipv6_groups(s@) is None,
        },
{
    match find_double_colon(s) {
        Some(k) => {
            let head_chars = sub_chars(s, 0, k);
            let tail_chars = sub_chars(s, k + 2, s.len());
            assert(head_chars@ =~= s@.take(k as int));
            assert(tail_chars@ =~= s@.skip(k + 2));
            let head = pieces_of(&head_chars);
            let ghost hv = vecs_view(head@);
            let mut groups: Vec<u32> = Vec::new();
            let mut j: usize = 0;
            assert(hv == colon_pieces(s@.take(k as int)));
            while j < head.len()
                invariant
                    j <= head.len(),
                    hv == vecs_view(head@),
                    hv == colon_pieces(s@.take(k as int)),
                    double_colon_from(s@, 0) == Some(k as int),
                    forall|i: int| 0 <= i < j ==> #[trigger] h16_text(hv[i]),
                    nats(groups@) == hv.take(j as int).map_values(|p: Seq<char>| group_value(p)),
                    groups.len() == j,
                    forall|i: int| 0 <= i < groups.len() ==> #[trigger] groups@[i] < 0x10000,
                decreases head.len() - j,
            {
                assert(hv[j as int] == head@[j as int]@);
                match group_of(&head[j]) {
                    Some(v) => {
                        let ghost old_g = groups@;
                        groups.push(v);
                        assert(nats(groups@) =~= nats(old_g).push(v as nat));
                        assert(hv.take(j + 1).map_values(|p: Seq<char>| group_value(p)) =~= hv.take(
                            j as int,
                        ).map_values(|p: Seq<char>| group_value(p)).push(group_value(hv[j as int])));
                        j = j + 1;
                    },
                    None => {
                        assert(!h16_text(hv[j as int]));
                        return None;
                    },
                }
            }
            assert(hv.take(j as int) =~= hv);
            let tail_parts = pieces_of(&tail_chars);
            let t = match read_tail_groups(&tail_parts) {
                Some(t) => t,
                None => {
                    return None;
                },
            };
            if head.len() > 7 || t.len() > 7 - head.len() {
                return None;
            }
            let ghost hg = nats(groups@);
            let zeros = 8 - head.len() - t.len();
            let mut z: usize = 0;
            while z < zeros
                invariant
                    z <= zeros,
                    zeros == 8 - head.len() - t.len(),
                    nats(groups@) == hg + Seq::new(z as nat, |i: int| 0nat),
                    groups.len() == head.len() + z,
                    forall|i: int| 0 <= i < groups.len() ==> #[trigger] groups@[i] < 0x10000,
                decreases zeros - z,
            {
                let ghost old_g = groups@;
                groups.push(0);
                assert(nats(groups@) =~= nats(old_g).push(0nat));
                assert(hg + Seq::new((z + 1) as nat, |i: int| 0nat) =~= (hg + Seq::new(
                    z as nat,
                    |i: int| 0nat,
                )).push(0nat));
                z = z + 1;
            }
            let ghost mid = nats(groups@);
            let mut q: usize = 0;
            while q < t.len()
                invariant
                    q <= t.len(),
                    nats(groups@) == mid + nats(t@).take(q as int),
                    groups.len() == 8 - t.len() + q,
                    forall|i: int| 0 <= i < groups.len() ==> #[trigger] groups@[i] < 0x10000,
                    forall|i: int| 0 <= i < t.len() ==> #[trigger] t@[i] < 0x10000,
                decreases t.len() - q,
            {
                let ghost old_g = groups@;
                groups.push(t[q]);
                assert(nats(groups@) =~= nats(old_g).push(t@[q as int] as nat));
                assert(mid + nats(t@).take(q + 1) =~= (mid + nats(t@).take(q as int)).push(
                    t@[q as int] as nat,
                ));
                q = q + 1;
            }
            assert(nats(t@).take(q as int) =~= nats(t@));
            assert(nats(groups@) =~= hv.map_values(|p: Seq<char>| group_value(p)) + Seq::new(
                (8 - hv.len() - nats(t@).len()) as nat,
                |i: int| 0nat,
            ) + nats(t@));
            Some(combine_groups(&groups))
        },
        None => {
            let parts = split_chars(s, ':');
            match read_tail_groups(&parts) {
                Some(g) => {
                    if g.len() != 8 {
                        None
                    } else {
                        Some(combine_groups(&g))
                    }
                },
                None => None,
            }
        },
    }
}

/// Reads an IP address literal the way `IpAddr`'s `FromStr` does: dotted IPv4 first, else IPv6.
pub fn parse_ip(text: &str) -> (r: Option<IpAddress>)
    ensures
        r == ip_value(text@),
{
    let chars = chars_of(text);
    match read_ipv4(&chars) {
        Some(v) => Some(IpAddress::V4(v)),
        None => match read_ipv6(&chars) {
            Some(v) => Some(IpAddress::V6(v)),
            None => None,
        },
    }
}

/// A network: an address with a prefix length of at most 32 bits (IPv4) or 128 bits (IPv6).
/// The address keeps whatever host bits it was written with.
#[derive(Debug, Clone, Copy, PartialEq, Eq, Structural)]
pub enum IpNetwork {
    V4 { addr: u32, prefix: u8 },
    V6 { addr: u128, prefix: u8 },
}

/// Whether the prefix length fits the address family.
pub open spec fn prefix_fits(n: IpNetwork) -> bool {
    match n {
        IpNetwork::V4 { prefix, .. } => prefix <= 32,
        IpNetwork::V6 { prefix, .. } => prefix <= 128,
    }
}

/// `ipnet`'s error for text that is not a network.
#[verifier::external_type_specification]
#[verifier::external_body]
pub struct ExAddrParseError(ipnet::AddrParseError);

/// The network that `ipnet::IpNet`'s `FromStr` reads from `text`, or `None` where it reports an
/// error.
pub uninterp spec fn parsed_network(text: Seq<char>) -> Option<IpNetwork>;

/// Calls `text.parse::<ipnet::IpNet>()` and gives the network as its address and prefix length.
/// The contract claims that the outcome is the one named by `parsed_network` for `text`, and
/// that the prefix length fits the family (`ipnet`'s parser reads at most 32 or 128, and
/// `Ipv4Net::new` / `Ipv6Net::new` refuse longer ones).
#[verifier::external_body]
pub(crate) fn ipnet_parse(text: &str) -> (r: Result<IpNetwork, ipnet::AddrParseError>)
    ensures
        match r {
            Ok(n) => parsed_network(text@) == Some(n) && prefix_fits(n),
            Err(_) => parsed_network(text@) is None,
        },
{
    match text.parse::<ipnet::IpNet>() {
        Ok(ipnet::IpNet::V4(n)) => Ok(IpNetwork::V4 { addr: u32::from(n.addr()), prefix: n.prefix_len() }),
        Ok(ipnet::IpNet::V6(n)) => Ok(IpNetwork::V6 { addr: u128::from(n.addr()), prefix: n.prefix_len() }),
        Err(e) => Err(e),
    }
}

/// The IPv4 network mask for `prefix` leading one bits.
pub open spec fn netmask_v4(prefix: u8) -> u32 {
    if prefix == 0 {
        0
    } else {
        0xffff_ffffu32 << ((32 - prefix) as u32)
    }
}

/// The IPv4 host mask for `prefix` leading zero bits.
pub open spec fn hostmask_v4(prefix: u8) -> u32 {
    if prefix >= 32 {
        0
    } else {
        0xffff_ffffu32 >> (prefix as u32)
    }
}

/// The IPv6 network mask for `prefix` leading one bits.
pub open spec fn netmask_v6(prefix: u8) -> u128 {
    if prefix == 0 {
        0
    } else {
        0xffff_ffff_ffff_ffff_ffff_ffff_ffff_ffffu128 << ((128 - prefix) as u32)
    }
}

/// The IPv6 host mask for `prefix` leading zero bits.
pub open spec fn hostmask_v6(prefix: u8) -> u128 {
    if prefix >= 128 {
        0
    } else {
        0xffff_ffff_ffff_ffff_ffff_ffff_ffff_ffffu128 >> (prefix as u32)
    }
}

/// Whether `n` contains `a`: same family, and `a` lies between the network address (the host
/// bits cleared) and the last address (the host bits set), as `ipnet`'s `contains` decides.
pub open spec fn network_contains(n: IpNetwork, a: IpAddress) -> bool {
    match (n, a) {
        (IpNetwork::V4 { addr, prefix }, IpAddress::V4(x)) => (addr & netmask_v4(prefix)) <= x
            && x <= (addr | hostmask_v4(prefix)),
        (IpNetwork::V6 { addr, prefix }, IpAddress::V6(x)) => (addr & netmask_v6(prefix)) <= x
            && x <= (addr | hostmask_v6(prefix)),
        _ => false,
    }
}

/// Whether `x` agrees with `addr` in the first `prefix` of its 32 bits.
pub open spec fn same_prefix_v4(addr: u32, prefix: u8, x: u32) -> bool {
    (x >> ((32 - prefix) as u32)) == (addr >> ((32 - prefix) as u32))
}

/// Whether `x` agrees with `addr` in the first `prefix` of its 128 bits.
pub open spec fn same_prefix_v6(addr: u128, prefix: u8, x: u128) -> bool {
    (x >> ((128 - prefix) as u32)) == (addr >> ((128 - prefix) as u32))
}

proof fn lemma_v4_range_is_prefix(addr: u32, x: u32, s: u32)
    by (bit_vector)
    requires
        1 <= s <= 31,
    ensures
        ((addr & (0xffff_ffffu32 << s)) <= x && x <= (addr | (0xffff_ffffu32 >> ((32 - s) as u32))))
            == ((x >> s) == (addr >> s)),
{
}

#[verifier::rlimit(100)]
proof fn lemma_v6_range_is_prefix(addr: u128, x: u128, s: u32)
    by (bit_vector)
    requires
        1 <= s <= 127,
    ensures
        ((addr & (0xffff_ffff_ffff_ffff_ffff_ffff_ffff_ffffu128 << s)) <= x && x <= (addr
            | (0xffff_ffff_ffff_ffff_ffff_ffff_ffff_ffffu128 >> ((128 - s) as u32)))) == ((x >> s)
            == (addr >> s)),
{
}

/// A network contains exactly the addresses of its family that agree with its address in the
/// first `prefix` bits.
pub proof fn lemma_contains_means_same_prefix(n: IpNetwork, a: IpAddress)
    requires
        prefix_fits(n),
    ensures
        network_contains(n, a) == match (n, a) {
            (IpNetwork::V4 { addr, prefix }, IpAddress::V4(x)) => same_prefix_v4(addr, prefix, x),
            (IpNetwork::V6 { addr, prefix }, IpAddress::V6(x)) => same_prefix_v6(addr, prefix, x),
            _ => false,
        },
{
    match (n, a) {
        (IpNetwork::V4 { addr, prefix }, IpAddress::V4(x)) => {
            if prefix == 0 {
                assert((x >> 32u32) == 0 && (addr >> 32u32) == 0) by (bit_vector);
                assert((0xffff_ffffu32 >> 0u32) == 0xffff_ffffu32) by (bit_vector);
                assert((addr | 0xffff_ffffu32) == 0xffff_ffffu32) by (bit_vector);
                assert((addr & 0u32) == 0) by (bit_vector);
            } else if prefix == 32 {
                assert((x >> 0u32) == x && (addr >> 0u32) == addr) by (bit_vector);
                assert((addr & (0xffff_ffffu32 << 0u32)) == addr) by (bit_vector);
                assert((addr | 0u32) == addr) by (bit_vector);
            } else {
                let s = (32 - prefix) as u32;
                lemma_v4_range_is_prefix(addr, x, s);
                assert((32 - s) as u32 == prefix as u32);
            }
        },
        (IpNetwork::V6 { addr, prefix }, IpAddress::V6(x)) => {
            if prefix == 0 {
                assert((x >> 128u32) == 0 && (addr >> 128u32) == 0) by (bit_vector);
                assert((0xffff_ffff_ffff_ffff_ffff_ffff_ffff_ffffu128 >> 0u32)
                    == 0xffff_ffff_ffff_ffff_ffff_ffff_ffff_ffffu128) by (bit_vector);
                assert((addr | 0xffff_ffff_ffff_ffff_ffff_ffff_ffff_ffffu128)
                    == 0xffff_ffff_ffff_ffff_ffff_ffff_ffff_ffffu128) by (bit_vector);
                assert((addr & 0u128) == 0) by (bit_vector);
            } else if prefix == 128 {
                assert((x >> 0u32) == x && (addr >> 0u32) == addr) by (bit_vector);
                assert((addr & (0xffff_ffff_ffff_ffff_ffff_ffff_ffff_ffffu128 << 0u32)) == addr)
                    by (bit_vector);
                assert((addr | 0u128) == addr) by (bit_vector);
            } else {
                let s = (128 - prefix) as u32;
                lemma_v6_range_is_prefix(addr, x, s);
                assert((128 - s) as u32 == prefix as u32);
            }
        },
        _ => {},
    }
}

impl IpNetwork {
    /// Reads a network in CIDR notation, such as `10.0.0.0/8` or `fd00::/16`.
    pub fn parse(text: &str) -> (r: Option<IpNetwork>)
        ensures
            r == parsed_network(text@),
            r matches Some(n) ==> prefix_fits(n),
    {
        match ipnet_parse(text) {
            Ok(n) => Some(n),
            Err(_) => None,
        }
    }

    /// Whether `addr` lies in this network.
    pub fn contains(&self, addr: &IpAddress) -> (b: bool)
        requires
            prefix_fits(*self),
        ensures
            b == network_contains(*self, *addr),
    {
        match (*self, *addr) {
            (IpNetwork::V4 { addr: net, prefix }, IpAddress::V4(x)) => {
                let mask: u32 = if prefix == 0 { 0 } else { 0xffff_ffffu32 << ((32 - prefix) as u32) };
                let host: u32 = if prefix >= 32 { 0 } else { 0xffff_ffffu32 >> (prefix as u32) };
                (net & mask) <= x && x <= (net | host)
            },
            (IpNetwork::V6 { addr: net, prefix }, IpAddress::V6(x)) => {
                let mask: u128 = if prefix == 0 {
                    0
                } else {
                    0xffff_ffff_ffff_ffff_ffff_ffff_ffff_ffffu128 << ((128 - prefix) as u32)
                };
                let host: u128 = if prefix >= 128 {
                    0
                } else {
                    0xffff_ffff_ffff_ffff_ffff_ffff_ffff_ffffu128 >> (prefix as u32)
                };
                (net & mask) <= x && x <= (net | host)
            },
            _ => false,
        }
    }
}

} // verus!
