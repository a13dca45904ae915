//! How often each request path was seen.
use vstd::hash_map::StringHashMap;
use vstd::prelude::*;

verus! {

/// A count per distinct path. Besides the hash map that holds the counts it keeps the paths in
/// the order they were first seen, so that the counts can be walked.
pub struct PathCounts {
    counts: StringHashMap<usize>,
    order: Vec<String>,
}

/// The characters of each string in `v`.
pub open spec fn string_views(v: Seq<String>) -> Seq<Seq<char>> {
    v.map_values(|s: String| s@)
}

impl View for PathCounts {
    type V = Map<Seq<char>, usize>;

    closed spec fn view(&self) -> Map<Seq<char>, usize> {
        self.counts@
    }
}

impl PathCounts {
    /// The paths in the order they were first seen.
    pub closed spec fn keys(&self) -> Seq<Seq<char>> {
        string_views(self.order@)
    }

    /// Each path is listed once, and exactly the paths that have a count are listed.
    pub closed spec fn wf(&self) -> bool {
        &&& self.keys().no_duplicates()
        &&& forall|k: Seq<char>| #[trigger] self.counts@.contains_key(k) <==> self.keys().contains(k)
    }

    /// No path has a count yet.
    pub fn new() -> (p: Self)
        ensures
            p.wf(),
            p@ == Map::<Seq<char>, usize>::empty(),
    {
        let p = PathCounts { counts: StringHashMap::new(), order: Vec::new() };
        assert(p.keys() =~= Seq::<Seq<char>>::empty());
        p
    }

    /// The number of distinct paths.
    pub fn len(&self) -> (n: usize)
        requires
            self.wf(),
        ensures
            n == self@.len(),
            n == self.keys().len(),
    {
        proof { self.lemma_len(); }
        self.order.len()
    }

    /// The listed paths are distinct and are exactly the paths with a count.
    pub proof fn lemma_keys(&self)
        requires
            self.wf(),
        ensures
            self.keys().no_duplicates(),
            forall|k: Seq<char>| #[trigger] self@.contains_key(k) <==> self.keys().contains(k),
            self@.len() == self.keys().len(),
            self@.dom().finite(),
    {
        self.lemma_len();
        vstd::seq_lib::seq_to_set_is_finite(self.keys());
    }

    proof fn lemma_len(&self)
        requires
            self.wf(),
        ensures
            self@.len() == self.keys().len(),
            self@.dom() == self.keys().to_set(),
    {
        assert(self@.dom() =~= self.keys().to_set());
        self.keys().unique_seq_to_set();
    }

    /// The count of `path`, if it has one.
    pub fn get(&self, path: &str) -> (c: Option<usize>)
        ensures
            c == (if self@.contains_key(path@) { Some(self@[path@]) } else { None::<usize> }),
    {
        match self.counts.get(path) {
            Some(v) => Some(*v),
            None => None,
        }
    }

    /// Sets the count of `path` to `count`.
    pub fn insert(&mut self, path: String, count: usize)
        requires
            old(self).wf(),
        ensures
            final(self).wf(),
            final(self)@ == old(self)@.insert(path@, count),
    {
        if self.counts.contains_key(path.as_str()) {
            self.counts.insert(path, count);
            assert(self.keys() == old(self).keys());
            assert(self.counts@.dom() =~= old(self).counts@.dom());
        } else {
            let key = path.clone();
            self.counts.insert(path, count);
            self.order.push(key);
            assert(self.keys() =~= old(self).keys().push(key@));
            assert(!old(self).keys().contains(key@));
            assert forall|k: Seq<char>| #[trigger] self.counts@.contains_key(k) <==> self.keys().contains(k) by {
                if k == key@ {
                    assert(self.keys()[self.keys().len() - 1] == k);
                } else if old(self).keys().contains(k) {
                    let i = choose|i: int| 0 <= i < old(self).keys().len() && old(self).keys()[i] == k;
                    assert(self.keys()[i] == k);
                } else if self.keys().contains(k) {
                    let i = choose|i: int| 0 <= i < self.keys().len() && self.keys()[i] == k;
                    assert(i < old(self).keys().len());
                    assert(old(self).keys()[i] == k);
                }
            }
            assert forall|i: int, j: int|
                0 <= i < j < self.keys().len() implies self.keys()[i] != self.keys()[j] by {
                if j == self.keys().len() - 1 {
                    assert(old(self).keys()[i] == self.keys()[i]);
                }
            }
        }
    }

    /// The path listed at position `i` of `keys()`, with its count.
    pub fn entry_at(&self, i: usize) -> (e: (String, usize))
        requires
            self.wf(),
            i < self.keys().len(),
        ensures
            e.0@ == self.keys()[i as int],
            self@.contains_key(e.0@),
            e.1 == self@[e.0@],
    {
        let key = self.order[i].clone();
        assert(self.keys()[i as int] == self.order@[i as int]@);
        assert(self.keys().contains(key@));
        let c = self.get(key.as_str());
        (key, c.unwrap())
    }
}

} // verus!
