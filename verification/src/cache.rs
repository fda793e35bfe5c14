//! The shared result cache.
//!
//! A mapping from raw request lines to computed results. A value of
//! `Some(byte)` is a computed byte; `None` is the uncomputable sentinel left
//! by a request that failed to parse. Keys are the raw line bytes, newline
//! included: two lines that differ only in whitespace are distinct entries.
//! The mapping grows monotonically — an insert overwrites or adds, it never
//! removes — so a key once present stays present.

use vstd::prelude::*;

verus! {

/// The abstract content of a sequence of cache entries: later entries win.
pub open spec fn entries_map(s: Seq<(Vec<u8>, Option<u8>)>) -> Map<Seq<u8>, Option<u8>>
    decreases s.len(),
{
    if s.len() == 0 {
        Map::empty()
    } else {
        entries_map(s.drop_last()).insert(s.last().0@, s.last().1)
    }
}

/// The result cache: an association list from raw request lines to results,
/// with each key held at most once.
pub struct ResultCache {
    entries: Vec<(Vec<u8>, Option<u8>)>,
}

impl View for ResultCache {
    type V = Map<Seq<u8>, Option<u8>>;

    closed spec fn view(&self) -> Map<Seq<u8>, Option<u8>> {
        entries_map(self.entries@)
    }
}

proof fn lemma_entries_map_index(s: Seq<(Vec<u8>, Option<u8>)>, i: int)
    requires
        0 <= i < s.len(),
        forall|a: int, b: int|
            i <= a < b < s.len() ==> #[trigger] s[a].0@ != #[trigger] s[b].0@,
    ensures
        entries_map(s).contains_key(s[i].0@),
        entries_map(s)[s[i].0@] == s[i].1,
    decreases s.len(),
{
    if i == s.len() - 1 {
    } else {
        lemma_entries_map_index(s.drop_last(), i);
        assert(s.drop_last()[i] == s[i]);
        assert(s[i].0@ != s.last().0@);
    }
}

proof fn lemma_entries_map_dom(s: Seq<(Vec<u8>, Option<u8>)>, k: Seq<u8>)
    requires
        entries_map(s).contains_key(k),
    ensures
        exists|i: int| 0 <= i < s.len() && #[trigger] s[i].0@ == k,
    decreases s.len(),
{
    if s.len() > 0 && s.last().0@ != k {
        lemma_entries_map_dom(s.drop_last(), k);
        let i = choose|i: int| 0 <= i < s.drop_last().len() && #[trigger] s.drop_last()[i].0@ == k;
        assert(s[i].0@ == k);
    }
}

fn bytes_eq(a: &[u8], b: &[u8]) -> (r: bool)
    ensures
        r == (a@ == b@),
{
    if a.len() != b.len() {
        proof {
            assert(a@.len() != b@.len());
        }
        return false;
    }
    let mut i: usize = 0;
    while i < a.len()
        invariant
            i <= a@.len(),
            a@.len() == b@.len(),
            forall|j: int| 0 <= j < i ==> a@[j] == b@[j],
        decreases a@.len() - i,
    {
        if a[i] != b[i] {
            return false;
        }
        i = i + 1;
    }
    proof {
        assert(a@ =~= b@);
    }
    true
}

impl ResultCache {
    /// Each key occurs at most once in the entry list.
    pub closed spec fn wf(self) -> bool {
        forall|a: int, b: int|
            0 <= a < b < self.entries@.len()
                ==> #[trigger] self.entries@[a].0@ != #[trigger] self.entries@[b].0@
    }

    /// A fresh, empty cache, as a restarted server starts with.
    pub fn new() -> (r: ResultCache)
        ensures
            r.wf(),
            r@ == Map::<Seq<u8>, Option<u8>>::empty(),
    {
        ResultCache { entries: Vec::new() }
    }

    /// Look a raw line up: the stored result if the line is a key, nothing
    /// otherwise.
    pub fn lookup(&self, key: &[u8]) -> (r: Option<Option<u8>>)
        requires
            self.wf(),
        ensures
            self@.contains_key(key@) ==> r == Some(self@[key@]),
            !self@.contains_key(key@) ==> r is None,
    {
        let n = self.entries.len();
        let mut i: usize = 0;
        while i < n
            invariant
                self.wf(),
                i <= n,
                n == self.entries@.len(),
                forall|j: int| 0 <= j < i ==> #[trigger] self.entries@[j].0@ != key@,
            decreases n - i,
        {
            if bytes_eq(self.entries[i].0.as_slice(), key) {
                proof {
                    lemma_entries_map_index(self.entries@, i as int);
                }
                return Some(self.entries[i].1);
            }
            i = i + 1;
        }
        proof {
            if self@.contains_key(key@) {
                lemma_entries_map_dom(self.entries@, key@);
            }
        }
        None
    }

    /// Store a result under a raw line, overwriting any earlier result for
    /// the same line. The mapping only ever grows.
    pub fn insert(&mut self, key: Vec<u8>, value: Option<u8>)
        requires
            old(self).wf(),
        ensures
            final(self).wf(),
            final(self)@ == old(self)@.insert(key@, value),
    {
        let n = self.entries.len();
        let mut i: usize = 0;
        while i < n
            invariant
                self.wf(),
                i <= n,
                n == self.entries@.len(),
                self.entries@ == old(self).entries@,
                forall|j: int| 0 <= j < i ==> #[trigger] self.entries@[j].0@ != key@,
            decreases n - i,
        {
            if bytes_eq(self.entries[i].0.as_slice(), key.as_slice()) {
                self.entries.set(i, (key, value));
                proof {
                    lemma_overwrite_at(old(self).entries@, self.entries@, i as int);
                }
                return;
            }
            i = i + 1;
        }
        self.entries.push((key, value));
        proof {
            assert(self.entries@.drop_last() =~= old(self).entries@);
        }
    }
}

/// Overwriting the one entry that holds a key leaves the content map as an
/// insert of that key.
proof fn lemma_overwrite_at(s: Seq<(Vec<u8>, Option<u8>)>, t: Seq<(Vec<u8>, Option<u8>)>, i: int)
    requires
        0 <= i < s.len(),
        t.len() == s.len(),
        forall|j: int| 0 <= j < s.len() && j != i ==> t[j] == s[j],
        t[i].0@ == s[i].0@,
        forall|a: int, b: int|
            0 <= a < b < s.len() ==> #[trigger] s[a].0@ != #[trigger] s[b].0@,
    ensures
        entries_map(t) == entries_map(s).insert(t[i].0@, t[i].1),
        forall|a: int, b: int|
            0 <= a < b < t.len() ==> #[trigger] t[a].0@ != #[trigger] t[b].0@,
    decreases s.len(),
{
    if i == s.len() - 1 {
        assert(t.drop_last() =~= s.drop_last());
    } else {
        lemma_overwrite_at(s.drop_last(), t.drop_last(), i);
        assert(t.last() == s.last());
        assert(entries_map(t) == entries_map(s.drop_last()).insert(t[i].0@, t[i].1).insert(
            s.last().0@,
            s.last().1,
        ));
        assert(s[i].0@ != s.last().0@);
        assert(entries_map(s.drop_last()).insert(t[i].0@, t[i].1).insert(s.last().0@, s.last().1)
            =~= entries_map(s.drop_last()).insert(s.last().0@, s.last().1).insert(
            t[i].0@,
            t[i].1,
        ));
    }
}

} // verus!
