//! Folding parsed lines and parse failures into `Stats`.
use crate::counts::PathCounts;
use crate::text::{lemma_seq_less_order, seq_less, str_less};
use crate::types::{LogEntry, Stats};
use vstd::prelude::*;

verus! {

broadcast use vstd::std_specs::hash::group_hash_axioms;

/// How many parse failures keep their line number and message.
pub const MAX_ERROR_SAMPLES: usize = 5;

/// `m` with the count of `k` raised by one (a missing key counts as zero).
pub open spec fn bump<K>(m: Map<K, usize>, k: K) -> Map<K, usize> {
    m.insert(k, (if m.contains_key(k) { m[k] + 1 } else { 1 }) as usize)
}

/// The error samples as line numbers and messages.
pub open spec fn samples_view(v: Seq<(usize, String)>) -> Seq<(usize, Seq<char>)> {
    v.map_values(|e: (usize, String)| (e.0, e.1@))
}

/// The sum of the counts in `m`.
pub open spec fn total<K>(m: Map<K, usize>) -> nat {
    m.dom().fold(0nat, count_adder(m))
}

/// Adds the count of a key of `m` to a running sum.
pub open spec fn count_adder<K>(m: Map<K, usize>) -> spec_fn(nat, K) -> nat {
    |acc: nat, k: K| (acc + m[k]) as nat
}

/// Folding a sum over a finite set gives the same result for two summands that agree on it.
proof fn lemma_fold_agree<K>(s: Set<K>, f: spec_fn(nat, K) -> nat, g: spec_fn(nat, K) -> nat)
    requires
        s.finite(),
        vstd::set::fold::is_fun_commutative(f),
        vstd::set::fold::is_fun_commutative(g),
        forall|b: nat, a: K| s.contains(a) ==> #[trigger] f(b, a) == g(b, a),
    ensures
        s.fold(0nat, f) == s.fold(0nat, g),
    decreases s.len(),
{
    if s.len() == 0 {
        assert(s =~= Set::<K>::empty());
        vstd::set::fold::lemma_fold_empty(0nat, f);
        vstd::set::fold::lemma_fold_empty(0nat, g);
    } else {
        let a = s.choose();
        let r = s.remove(a);
        lemma_fold_agree(r, f, g);
        vstd::set::fold::lemma_fold_insert(r, 0nat, f, a);
        vstd::set::fold::lemma_fold_insert(r, 0nat, g, a);
        assert(r.insert(a) =~= s);
    }
}

/// Nothing counted sums to zero.
pub proof fn lemma_total_empty<K>()
    ensures
        total(Map::<K, usize>::empty()) == 0,
{
    let m = Map::<K, usize>::empty();
    assert(m.dom() =~= Set::<K>::empty());
    vstd::set::fold::lemma_fold_empty(0nat, count_adder(m));
}

/// Counting one more occurrence of `k` raises the sum of the counts by one and keeps the
/// domain finite.
pub proof fn lemma_bump_total<K>(m: Map<K, usize>, k: K)
    requires
        m.dom().finite(),
        m.contains_key(k) ==> m[k] < usize::MAX,
    ensures
        bump(m, k).dom().finite(),
        total(bump(m, k)) == total(m) + 1,
{
    let m2 = bump(m, k);
    let f = count_adder(m);
    let g = count_adder(m2);
    assert(vstd::set::fold::is_fun_commutative(f));
    assert(vstd::set::fold::is_fun_commutative(g));
    if m.contains_key(k) {
        let r = m.dom().remove(k);
        assert(r.insert(k) =~= m.dom());
        assert(m2.dom() =~= m.dom());
        lemma_fold_agree(r, f, g);
        vstd::set::fold::lemma_fold_insert(r, 0nat, f, k);
        vstd::set::fold::lemma_fold_insert(r, 0nat, g, k);
    } else {
        assert(m2.dom() =~= m.dom().insert(k));
        lemma_fold_agree(m.dom(), f, g);
        vstd::set::fold::lemma_fold_insert(m.dom(), 0nat, g, k);
    }
}

impl Stats {
    /// The path counts are well formed.
    pub open spec fn wf(&self) -> bool {
        self.top_paths.wf()
    }

    /// Counts one more line read.
    pub fn on_line_read(&mut self)
        requires
            old(self).total_lines < usize::MAX,
        ensures
            final(self).total_lines == old(self).total_lines + 1,
            final(self).parsed_lines == old(self).parsed_lines,
            final(self).parse_errors == old(self).parse_errors,
            final(self).status_counts@ == old(self).status_counts@,
            final(self).top_paths == old(self).top_paths,
            final(self).error_samples@ == old(self).error_samples@,
    {
        self.total_lines = self.total_lines + 1;
    }

    /// Counts an entry that was parsed and kept: one more parsed line, and one more for its
    /// status code and for its path where it has them.
    pub fn on_parsed_entry(&mut self, entry: &LogEntry)
        requires
            old(self).wf(),
            old(self).parsed_lines < usize::MAX,
            entry.status matches Some(c) ==> (old(self).status_counts@.contains_key(c)
                ==> old(self).status_counts@[c] < usize::MAX),
            entry.path matches Some(p) ==> (old(self).top_paths@.contains_key(p@)
                ==> old(self).top_paths@[p@] < usize::MAX),
        ensures
            final(self).wf(),
            final(self).total_lines == old(self).total_lines,
            final(self).parsed_lines == old(self).parsed_lines + 1,
            final(self).parse_errors == old(self).parse_errors,
            final(self).status_counts@ == (match entry.status {
                Some(c) => bump(old(self).status_counts@, c),
                None => old(self).status_counts@,
            }),
            final(self).top_paths@ == (match entry.path {
                Some(p) => bump(old(self).top_paths@, p@),
                None => old(self).top_paths@,
            }),
            final(self).error_samples@ == old(self).error_samples@,
            total(old(self).status_counts@) <= old(self).parsed_lines ==> total(
                final(self).status_counts@,
            ) <= final(self).parsed_lines,
            total(old(self).top_paths@) <= old(self).parsed_lines ==> total(final(self).top_paths@)
                <= final(self).parsed_lines,
            (forall|c: u16| #[trigger]
                old(self).status_counts@.contains_key(c) ==> old(self).status_counts@[c] >= 1)
                ==> (forall|c: u16| #[trigger]
                final(self).status_counts@.contains_key(c) ==> final(self).status_counts@[c] >= 1),
            (forall|p: Seq<char>| #[trigger]
                old(self).top_paths@.contains_key(p) ==> old(self).top_paths@[p] >= 1) ==> (forall|
                p: Seq<char>,
            | #[trigger] final(self).top_paths@.contains_key(p) ==> final(self).top_paths@[p] >= 1),
    {
        proof {
            old(self).top_paths.lemma_keys();
            if let Some(c) = entry.status {
                lemma_bump_total(old(self).status_counts@, c);
            }
            if let Some(p) = &entry.path {
                lemma_bump_total(old(self).top_paths@, p@);
            }
        }
        self.parsed_lines = self.parsed_lines + 1;
        if let Some(code) = entry.status {
            let current: usize = match self.status_counts.get(&code) {
                Some(v) => *v,
                None => 0,
            };
            self.status_counts.insert(code, current + 1);
        }
        if let Some(path) = &entry.path {
            let current: usize = match self.top_paths.get(path.as_str()) {
                Some(v) => v,
                None => 0,
            };
            self.top_paths.insert(path.clone(), current + 1);
        }
    }

    /// Counts a line that failed to parse; while fewer than `MAX_ERROR_SAMPLES` failures are
    /// kept, keeps this one with the number of the current line.
    pub fn on_parse_error(&mut self, message: &str)
        requires
            old(self).parse_errors < usize::MAX,
        ensures
            final(self).total_lines == old(self).total_lines,
            final(self).parsed_lines == old(self).parsed_lines,
            final(self).parse_errors == old(self).parse_errors + 1,
            final(self).status_counts@ == old(self).status_counts@,
            final(self).top_paths == old(self).top_paths,
            samples_view(final(self).error_samples@) == (if old(self).error_samples.len()
                < MAX_ERROR_SAMPLES {
                samples_view(old(self).error_samples@).push((old(self).total_lines, message@))
            } else {
                samples_view(old(self).error_samples@)
            }),
    {
        self.parse_errors = self.parse_errors + 1;
        if self.error_samples.len() < MAX_ERROR_SAMPLES {
            let owned = message.to_string();
            self.error_samples.push((self.total_lines, owned));
            assert(samples_view(self.error_samples@) =~= samples_view(
                old(self).error_samples@,
            ).push((old(self).total_lines, message@)));
        }
    }
}

/// `a` comes before `b` among the top paths: a higher count, or the same count and a path that
/// sorts first.
pub open spec fn ranks_before(a: (Seq<char>, usize), b: (Seq<char>, usize)) -> bool {
    a.1 > b.1 || (a.1 == b.1 && seq_less(a.0, b.0))
}

/// A list of paths with their counts, as characters and counts.
pub open spec fn entries_view(v: Seq<(String, usize)>) -> Seq<(Seq<char>, usize)> {
    v.map_values(|e: (String, usize)| (e.0@, e.1))
}

/// Whether path `k` is listed in `r`.
pub open spec fn listed(r: Seq<(Seq<char>, usize)>, k: Seq<char>) -> bool {
    exists|i: int| 0 <= i < r.len() && #[trigger] r[i].0 == k
}

/// Each listed entry ranks before the next.
pub open spec fn ranked(r: Seq<(Seq<char>, usize)>) -> bool {
    forall|i: int, j: int| 0 <= i < j < r.len() ==> ranks_before(#[trigger] r[i], #[trigger] r[j])
}

/// `r` lists the `limit` paths of `m` that rank first (all of them if there are fewer), with
/// their counts, in rank order.
pub open spec fn is_top_listing(m: Map<Seq<char>, usize>, limit: nat, r: Seq<(Seq<char>, usize)>) -> bool {
    &&& r.len() == (if limit < m.len() { limit } else { m.len() })
    &&& forall|i: int| 0 <= i < r.len() ==> m.contains_key(#[trigger] r[i].0) && m[r[i].0] == r[i].1
    &&& ranked(r)
    &&& forall|k: Seq<char>|
        #![trigger m.contains_key(k)]
        m.contains_key(k) && !listed(r, k) ==> forall|i: int|
            0 <= i < r.len() ==> ranks_before(#[trigger] r[i], (k, m[k]))
}

/// `ranks_before` is a strict total order on entries with different paths.
pub proof fn lemma_ranks_order(a: (Seq<char>, usize), b: (Seq<char>, usize), c: (Seq<char>, usize))
    ensures
        !ranks_before(a, a),
        ranks_before(a, b) ==> !ranks_before(b, a),
        a.0 != b.0 ==> ranks_before(a, b) || ranks_before(b, a),
        ranks_before(a, b) && ranks_before(b, c) ==> ranks_before(a, c),
{
    lemma_seq_less_order(a.0, b.0, c.0);
    lemma_seq_less_order(b.0, a.0, c.0);
}

proof fn lemma_top_listings_agree_at(
    m: Map<Seq<char>, usize>,
    limit: nat,
    r1: Seq<(Seq<char>, usize)>,
    r2: Seq<(Seq<char>, usize)>,
    i: int,
)
    requires
        is_top_listing(m, limit, r1),
        is_top_listing(m, limit, r2),
        0 <= i < r1.len(),
        forall|j: int| 0 <= j < i ==> r1[j] == r2[j],
    ensures
        r1[i] == r2[i],
{
    let a = r1[i];
    let b = r2[i];
    if a.0 != b.0 {
        lemma_ranks_order(a, b, a);
        lemma_ranks_order(b, a, b);
        if ranks_before(a, b) {
            if listed(r2, a.0) {
                let q = choose|q: int| 0 <= q < r2.len() && #[trigger] r2[q].0 == a.0;
                if q < i {
                    assert(r1[q] == r2[q]);
                    assert(r1[q] == a);
                    assert(ranks_before(r1[q], r1[i]));
                } else {
                    assert(q != i);
                    assert(r2[q] == a);
                    assert(ranks_before(r2[i], r2[q]));
                }
            } else {
                assert(m.contains_key(a.0));
                assert(ranks_before(r2[i], (a.0, m[a.0])));
            }
        } else {
            assert(ranks_before(b, a));
            if listed(r1, b.0) {
                let q = choose|q: int| 0 <= q < r1.len() && #[trigger] r1[q].0 == b.0;
                if q < i {
                    assert(r1[q] == r2[q]);
                    assert(r2[q] == b);
                    assert(ranks_before(r2[q], r2[i]));
                } else {
                    assert(q != i);
                    assert(r1[q] == b);
                    assert(ranks_before(r1[i], r1[q]));
                }
            } else {
                assert(m.contains_key(b.0));
                assert(ranks_before(r1[i], (b.0, m[b.0])));
            }
        }
    }
}

proof fn lemma_top_listings_agree_below(
    m: Map<Seq<char>, usize>,
    limit: nat,
    r1: Seq<(Seq<char>, usize)>,
    r2: Seq<(Seq<char>, usize)>,
    n: int,
)
    requires
        is_top_listing(m, limit, r1),
        is_top_listing(m, limit, r2),
        0 <= n <= r1.len(),
    ensures
        forall|j: int| 0 <= j < n ==> r1[j] == r2[j],
    decreases n,
{
    if n > 0 {
        lemma_top_listings_agree_below(m, limit, r1, r2, n - 1);
        lemma_top_listings_agree_at(m, limit, r1, r2, n - 1);
    }
}

/// There is only one top listing of given length for given counts: whichever way it is
/// computed, the paths, their counts and their order come out the same.
pub proof fn lemma_top_listing_unique(
    m: Map<Seq<char>, usize>,
    limit: nat,
    r1: Seq<(Seq<char>, usize)>,
    r2: Seq<(Seq<char>, usize)>,
)
    requires
        is_top_listing(m, limit, r1),
        is_top_listing(m, limit, r2),
    ensures
        r1 == r2,
{
    lemma_top_listings_agree_below(m, limit, r1, r2, r1.len() as int);
    assert(r1 =~= r2);
}

/// Putting `x` at `p`, after the entries that rank before it and before the rest, keeps a
/// ranked list ranked.
proof fn lemma_insert_ranked(r: Seq<(Seq<char>, usize)>, p: int, x: (Seq<char>, usize))
    requires
        ranked(r),
        0 <= p <= r.len(),
        forall|j: int| 0 <= j < p ==> ranks_before(#[trigger] r[j], x),
        p < r.len() ==> ranks_before(x, r[p]),
    ensures
        ranked(r.insert(p, x)),
{
    let s = r.insert(p, x);
    assert forall|i: int, j: int| 0 <= i < j < s.len() implies ranks_before(
        #[trigger] s[i],
        #[trigger] s[j],
    ) by {
        if j < p {
            assert(s[i] == r[i] && s[j] == r[j]);
        } else if j == p {
            assert(s[i] == r[i]);
        } else if i < p {
            assert(s[i] == r[i] && s[j] == r[j - 1]);
        } else if i == p {
            assert(s[j] == r[j - 1]);
            if j - 1 > p {
                assert(ranks_before(r[p], r[j - 1]));
                lemma_ranks_order(x, r[p], r[j - 1]);
            }
        } else {
            assert(s[i] == r[i - 1] && s[j] == r[j - 1]);
        }
    }
}

/// What holds of the listing `r` once the first `i` of the paths `keys` of `m` have been
/// looked at: it holds paths of `m` with their counts, in rank order, none of the paths not
/// yet looked at, `limit` entries or all that were looked at if fewer, and every path looked at
/// but left out ranks after all of them.
pub open spec fn top_progress(
    m: Map<Seq<char>, usize>,
    keys: Seq<Seq<char>>,
    i: int,
    limit: int,
    r: Seq<(Seq<char>, usize)>,
) -> bool {
    &&& forall|j: int| 0 <= j < r.len() ==> m.contains_key(#[trigger] r[j].0) && m[r[j].0] == r[j].1
    &&& ranked(r)
    &&& r.len() == (if limit < i { limit } else { i })
    &&& forall|t: int| i <= t < keys.len() ==> !listed(r, #[trigger] keys[t])
    &&& forall|t: int|
        0 <= t < i && !listed(r, #[trigger] keys[t]) ==> forall|j: int|
            0 <= j < r.len() ==> ranks_before(#[trigger] r[j], (keys[t], m[keys[t]]))
    &&& r.len() < limit ==> forall|t: int| 0 <= t < i ==> listed(r, #[trigger] keys[t])
}

/// The listing after looking at path number `i`: put at `p` if that is within the limit, and
/// the entry pushed past the limit dropped.
pub open spec fn top_step(r: Seq<(Seq<char>, usize)>, p: int, x: (Seq<char>, usize), limit: int) -> Seq<(Seq<char>, usize)> {
    if p < limit {
        let s = r.insert(p, x);
        if s.len() > limit { s.drop_last() } else { s }
    } else {
        r
    }
}

/// Looking at one more path keeps `top_progress`, when the path goes in after exactly the
/// entries that rank before it.
proof fn lemma_top_step(
    m: Map<Seq<char>, usize>,
    keys: Seq<Seq<char>>,
    i: int,
    limit: int,
    r: Seq<(Seq<char>, usize)>,
    p: int,
)
    requires
        0 <= i < keys.len(),
        0 <= limit,
        keys.no_duplicates(),
        forall|k: Seq<char>| #[trigger] m.contains_key(k) <==> keys.contains(k),
        top_progress(m, keys, i, limit, r),
        0 <= p <= r.len(),
        forall|j: int| 0 <= j < p ==> ranks_before(#[trigger] r[j], (keys[i], m[keys[i]])),
        p < r.len() ==> ranks_before((keys[i], m[keys[i]]), r[p]),
    ensures
        top_progress(m, keys, i + 1, limit, top_step(r, p, (keys[i], m[keys[i]]), limit)),
{
    let x = (keys[i], m[keys[i]]);
    let nb = top_step(r, p, x, limit);
    assert(keys.contains(keys[i]));
    assert(!listed(r, keys[i]));
    if p < limit {
        let s = r.insert(p, x);
        lemma_insert_ranked(r, p, x);
        assert(forall|j: int| 0 <= j < s.len() ==> m.contains_key(#[trigger] s[j].0) && m[s[j].0] == s[j].1) by {
            assert forall|j: int| 0 <= j < s.len() implies m.contains_key(#[trigger] s[j].0) && m[s[j].0] == s[j].1 by {
                if j < p {
                    assert(s[j] == r[j]);
                } else if j > p {
                    assert(s[j] == r[j - 1]);
                }
            }
        }
        // Each entry of `s` is `x` or an entry of `r`, and each entry of `r` is in `s`.
        assert forall|k: Seq<char>| listed(s, k) <==> (listed(r, k) || k == x.0) by {
            if listed(s, k) {
                let j = choose|j: int| 0 <= j < s.len() && #[trigger] s[j].0 == k;
                if j < p {
                    assert(r[j].0 == k);
                } else if j > p {
                    assert(r[j - 1].0 == k);
                }
            }
            if listed(r, k) {
                let j = choose|j: int| 0 <= j < r.len() && #[trigger] r[j].0 == k;
                if j < p {
                    assert(s[j].0 == k);
                } else {
                    assert(s[j + 1].0 == k);
                }
            }
            if k == x.0 {
                assert(s[p].0 == k);
            }
        }
        if s.len() > limit {
            // The listing was full: the last entry leaves.
            assert(nb == s.drop_last());
            assert(r.len() == limit);
            assert(ranked(nb));
            assert forall|k: Seq<char>| listed(nb, k) implies listed(s, k) by {
                {
                    let j = choose|j: int| 0 <= j < nb.len() && #[trigger] nb[j].0 == k;
                    assert(s[j].0 == k);
                }
            }
            assert forall|t: int| i + 1 <= t < keys.len() implies !listed(nb, #[trigger] keys[t]) by {
                assert(keys[t] != keys[i]);
                assert(!listed(r, keys[t]));
                assert(!listed(s, keys[t]));
            }
            assert forall|t: int|
                0 <= t < i + 1 && !listed(nb, #[trigger] keys[t]) implies forall|j: int|
                    0 <= j < nb.len() ==> ranks_before(#[trigger] nb[j], (keys[t], m[keys[t]])) by {
                let e = (keys[t], m[keys[t]]);
                assert(keys.contains(keys[t]));
                assert(nb[p].0 == x.0);
                if listed(s, keys[t]) {
                    let q = choose|q: int| 0 <= q < s.len() && #[trigger] s[q].0 == keys[t];
                    if q < nb.len() {
                        assert(nb[q].0 == keys[t]);
                    }
                    assert(q == limit);
                    assert(s[q] == e);
                    assert forall|j: int| 0 <= j < nb.len() implies ranks_before(#[trigger] nb[j], e) by {
                        assert(nb[j] == s[j]);
                    }
                } else {
                    assert(t < i);
                    assert(!listed(r, keys[t]));
                    assert(ranks_before(r[p], e));
                    assert forall|j: int| 0 <= j < nb.len() implies ranks_before(#[trigger] nb[j], e) by {
                        if j < p {
                            assert(nb[j] == r[j]);
                        } else if j == p {
                            lemma_ranks_order(x, r[p], e);
                        } else {
                            assert(nb[j] == r[j - 1]);
                        }
                    }
                }
            }
        } else {
            // Room was left: every path looked at so far is listed.
            assert(nb == s);
            assert(r.len() < limit);
            assert forall|t: int| 0 <= t < i + 1 implies listed(nb, #[trigger] keys[t]) by {
                if t < i {
                    assert(listed(r, keys[t]));
                }
            }
            assert forall|t: int| i + 1 <= t < keys.len() implies !listed(nb, #[trigger] keys[t]) by {
                assert(keys[t] != keys[i]);
            }
        }
    } else {
        // Out of reach of the limit: the listing stays as it was and is full.
        assert(nb == r);
        assert(p == r.len() && r.len() == limit);
        assert forall|t: int| i + 1 <= t < keys.len() implies !listed(nb, #[trigger] keys[t]) by {}
        assert forall|t: int|
            0 <= t < i + 1 && !listed(nb, #[trigger] keys[t]) implies forall|j: int|
                0 <= j < nb.len() ==> ranks_before(#[trigger] nb[j], (keys[t], m[keys[t]])) by {}
    }
}

/// Whether the entry for `a_path` with `a_count` ranks before the one for `b_path` with `b_count`.
fn ranks_first(a_path: &str, a_count: usize, b_path: &str, b_count: usize) -> (r: bool)
    ensures
        r == ranks_before((a_path@, a_count), (b_path@, b_count)),
{
    a_count > b_count || (a_count == b_count && str_less(a_path, b_path))
}

impl Stats {
    /// The `limit` paths seen most often, with their counts: higher counts first, and paths
    /// with equal counts in string order.
    pub fn top_paths_sorted(&self, limit: usize) -> (r: Vec<(String, usize)>)
        requires
            self.wf(),
        ensures
            is_top_listing(self.top_paths@, limit as nat, entries_view(r@)),
    {
        let ghost m = self.top_paths@;
        let ghost keys = self.top_paths.keys();
        proof { self.top_paths.lemma_keys(); }
        let n = self.top_paths.len();
        let mut best: Vec<(String, usize)> = Vec::new();
        let mut i: usize = 0;
        proof {
            assert forall|t: int| 0 <= t < keys.len() implies !listed(entries_view(best@), #[trigger] keys[t]) by {}
        }
        while i < n
            invariant
                i <= n,
                n == keys.len(),
                m == self.top_paths@,
                keys == self.top_paths.keys(),
                self.wf(),
                keys.no_duplicates(),
                forall|k: Seq<char>| #[trigger] m.contains_key(k) <==> keys.contains(k),
                top_progress(m, keys, i as int, limit as int, entries_view(best@)),
            decreases n - i,
        {
            let ghost bv = entries_view(best@);
            let (key, count) = self.top_paths.entry_at(i);
            let ghost x = (key@, count);
            let mut p: usize = 0;
            while p < best.len()
                invariant
                    p <= best@.len(),
                    bv == entries_view(best@),
                    x == (key@, count),
                    forall|j: int| 0 <= j < p ==> !ranks_before(x, #[trigger] bv[j]),
                ensures
                    p <= best@.len(),
                    forall|j: int| 0 <= j < p ==> !ranks_before(x, #[trigger] bv[j]),
                    p < best@.len() ==> ranks_before(x, bv[p as int]),
                decreases best.len() - p,
            {
                assert(bv[p as int] == (best@[p as int].0@, best@[p as int].1));
                if ranks_first(key.as_str(), count, best[p].0.as_str(), best[p].1) {
                    break;
                }
                p = p + 1;
            }
            proof {
                assert(x == (keys[i as int], m[keys[i as int]]));
                assert(keys.contains(keys[i as int]));
                assert forall|j: int| 0 <= j < p implies ranks_before(#[trigger] bv[j], x) by {
                    lemma_ranks_order(bv[j], x, x);
                    if bv[j].0 == x.0 {
                        assert(listed(bv, keys[i as int]));
                    }
                }
                lemma_top_step(m, keys, i as int, limit as int, bv, p as int);
            }
            if p < limit {
                best.insert(p, (key, count));
                proof {
                    assert(entries_view(best@) =~= bv.insert(p as int, x));
                }
                if best.len() > limit {
                    let ghost before_pop = entries_view(best@);
                    best.pop();
                    proof {
                        assert(entries_view(best@) =~= before_pop.drop_last());
                    }
                }
            }
            proof {
                assert(entries_view(best@) == top_step(bv, p as int, x, limit as int));
            }
            i = i + 1;
        }
        proof {
            let r = entries_view(best@);
            assert(m.len() == n);
            assert forall|k: Seq<char>| m.contains_key(k) && !listed(r, k) implies forall|j: int|
                0 <= j < r.len() ==> ranks_before(#[trigger] r[j], (k, m[k])) by {
                assert(keys.contains(k));
                let t = choose|t: int| 0 <= t < keys.len() && keys[t] == k;
                assert(!listed(r, keys[t]));
            }
        }
        best
    }
}

} // verus!
