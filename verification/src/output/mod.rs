//! The summary a run reports, and the ways it is rendered.
use crate::analyzer::{entries_view, is_top_listing, samples_view};
use crate::types::Stats;
use vstd::prelude::*;

pub mod csv;
pub mod terminal;

verus! {

broadcast use vstd::std_specs::hash::group_hash_axioms;

/// How many paths the summary lists.
pub const TOP_PATHS_LIMIT: usize = 10;

/// What a run reports: the counters, the status codes with their counts in ascending order of
/// code, the most requested paths, and the kept parse failures.
#[derive(Debug, Clone)]
pub struct Report {
    pub total_lines: usize,
    pub parsed_lines: usize,
    pub parse_errors: usize,
    pub status_counts: Vec<(u16, usize)>,
    pub top_paths: Vec<(String, usize)>,
    pub error_samples: Vec<(usize, String)>,
}

/// The codes below `n` that have a count in `m`, each with its count, in ascending order.
pub open spec fn listing_below(m: Map<u16, usize>, n: nat) -> Seq<(u16, usize)>
    decreases n,
{
    if n == 0 {
        Seq::empty()
    } else {
        let before = listing_below(m, (n - 1) as nat);
        let c = (n - 1) as u16;
        if m.contains_key(c) {
            before.push((c, m[c]))
        } else {
            before
        }
    }
}

/// Every code of `m` with its count, in ascending order of code.
pub open spec fn status_listing(m: Map<u16, usize>) -> Seq<(u16, usize)> {
    listing_below(m, 0x10000)
}

/// The codes listed below `n` rise strictly, each comes with its count in `m`, and every code
/// of `m` below `n` is listed.
proof fn lemma_listing_below(m: Map<u16, usize>, n: nat)
    requires
        n <= 0x10000,
    ensures
        forall|i: int, j: int|
            0 <= i < j < listing_below(m, n).len() ==> #[trigger] listing_below(m, n)[i].0
                < #[trigger] listing_below(m, n)[j].0,
        forall|i: int|
            0 <= i < listing_below(m, n).len() ==> (#[trigger] listing_below(m, n)[i]).0 < n
                && m.contains_key(listing_below(m, n)[i].0) && m[listing_below(m, n)[i].0]
                == listing_below(m, n)[i].1,
        forall|c: u16|
            #![trigger m.contains_key(c)]
            m.contains_key(c) && c < n ==> exists|i: int|
                0 <= i < listing_below(m, n).len() && #[trigger] listing_below(m, n)[i].0 == c,
    decreases n,
{
    if n > 0 {
        let k = (n - 1) as nat;
        lemma_listing_below(m, k);
        let before = listing_below(m, k);
        let c = k as u16;
        assert(c == k);
        if m.contains_key(c) {
            let now = before.push((c, m[c]));
            assert(listing_below(m, n) == now);
            assert forall|d: u16| m.contains_key(d) && d < n implies exists|i: int|
                0 <= i < now.len() && #[trigger] now[i].0 == d by {
                if d == c {
                    assert(now[before.len() as int].0 == d);
                } else {
                    let i = choose|i: int| 0 <= i < before.len() && #[trigger] before[i].0 == d;
                    assert(now[i].0 == d);
                }
            }
        } else {
            assert(listing_below(m, n) == before);
            assert forall|d: u16| m.contains_key(d) && d < n implies exists|i: int|
                0 <= i < before.len() && #[trigger] before[i].0 == d by {
                assert(d != c);
            }
        }
    }
}

/// The status listing holds each code of `m` once, with its count, in strictly ascending
/// order of code, and nothing else.
pub proof fn lemma_status_listing(m: Map<u16, usize>)
    ensures
        forall|i: int, j: int|
            0 <= i < j < status_listing(m).len() ==> #[trigger] status_listing(m)[i].0
                < #[trigger] status_listing(m)[j].0,
        forall|i: int|
            0 <= i < status_listing(m).len() ==> m.contains_key((#[trigger] status_listing(m)[i]).0)
                && m[status_listing(m)[i].0] == status_listing(m)[i].1,
        forall|c: u16|
            #![trigger m.contains_key(c)]
            m.contains_key(c) ==> exists|i: int|
                0 <= i < status_listing(m).len() && #[trigger] status_listing(m)[i].0 == c,
{
    lemma_listing_below(m, 0x10000);
    assert forall|c: u16| #[trigger] m.contains_key(c) implies exists|i: int|
        0 <= i < status_listing(m).len() && #[trigger] status_listing(m)[i].0 == c by {
        assert(status_listing(m) == listing_below(m, 0x10000));
        assert(c < 0x10000nat);
        let i = choose|i: int| 0 <= i < listing_below(m, 0x10000).len() && #[trigger] listing_below(m, 0x10000)[i].0 == c;
        assert(status_listing(m)[i].0 == c);
    }
}

impl Report {
    /// The summary of `stats`: its counters, every status code with its count in ascending
    /// order of code, the `TOP_PATHS_LIMIT` most requested paths and the kept parse failures.
    pub fn from_stats(stats: &Stats) -> (r: Report)
        requires
            stats.wf(),
        ensures
            r.total_lines == stats.total_lines,
            r.parsed_lines == stats.parsed_lines,
            r.parse_errors == stats.parse_errors,
            r.status_counts@ == status_listing(stats.status_counts@),
            is_top_listing(stats.top_paths@, TOP_PATHS_LIMIT as nat, entries_view(r.top_paths@)),
            samples_view(r.error_samples@) == samples_view(stats.error_samples@),
    {
        let ghost m = stats.status_counts@;
        let mut status_counts: Vec<(u16, usize)> = Vec::new();
        let mut code: u32 = 0;
        while code < 0x10000
            invariant
                code <= 0x10000,
                m == stats.status_counts@,
                status_counts@ == listing_below(m, code as nat),
            decreases 0x10000 - code,
        {
            let c = code as u16;
            assert(c == code);
            match stats.status_counts.get(&c) {
                Some(v) => {
                    status_counts.push((c, *v));
                },
                None => {},
            }
            code = code + 1;
        }
        let mut error_samples: Vec<(usize, String)> = Vec::new();
        let mut i: usize = 0;
        while i < stats.error_samples.len()
            invariant
                i <= stats.error_samples.len(),
                samples_view(error_samples@) == samples_view(stats.error_samples@).take(i as int),
            decreases stats.error_samples.len() - i,
        {
            let line = stats.error_samples[i].0;
            let message = stats.error_samples[i].1.clone();
            let ghost before = error_samples@;
            assert(samples_view(stats.error_samples@)[i as int] == (line, message@));
            error_samples.push((line, message));
            assert(error_samples@ == before.push((line, message)));
            assert(samples_view(error_samples@) =~= samples_view(before).push((line, message@)));
            assert(samples_view(stats.error_samples@).take(i + 1) =~= samples_view(stats.error_samples@).take(i as int).push((line, message@)));
            i = i + 1;
        }
        assert(samples_view(stats.error_samples@).take(i as int) =~= samples_view(stats.error_samples@));
        Report {
            total_lines: stats.total_lines,
            parsed_lines: stats.parsed_lines,
            parse_errors: stats.parse_errors,
            status_counts,
            top_paths: stats.top_paths_sorted(TOP_PATHS_LIMIT),
            error_samples,
        }
    }
}

} // verus!
