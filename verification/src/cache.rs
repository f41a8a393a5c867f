//! The size cache: the last size measured for each path and when it was
//! measured, so that a new session can show sizes at once while a scan
//! refreshes them. Reading and writing `cache.json` is left to the caller.

use vstd::prelude::*;
use crate::assoc::{assoc, assoc_put, assoc_remove, find_key, keys_distinct, lemma_assoc_at, lemma_assoc_none};
use crate::audit::unix_now_secs;
use crate::path::path_eq;
use crate::text::chars_of;

verus! {

/// One cached size.
#[derive(Debug, Clone, Copy, PartialEq, Eq, Structural)]
pub struct CacheEntry {
    pub size: u64,
    /// When the size was measured, in seconds since the Unix epoch.
    pub cached_at: u64,
}

/// Cached sizes by path (paths compared by components).
pub struct SizeCache {
    entries: Vec<(String, CacheEntry)>,
}

impl SizeCache {
    /// The cached entries.
    pub closed spec fn entries_view(&self) -> Seq<(String, CacheEntry)> {
        self.entries@
    }

    /// No path is cached twice.
    pub open spec fn wf(&self) -> bool {
        keys_distinct(self.entries_view())
    }

    /// The entry cached for path `p`.
    pub open spec fn lookup(&self, p: Seq<char>) -> Option<CacheEntry> {
        assoc(self.entries_view(), p)
    }

    /// An empty cache.
    pub fn empty() -> (r: Self)
        ensures
            r.wf(),
            forall|p: Seq<char>| #[trigger] r.lookup(p) is None,
    {
        SizeCache { entries: Vec::new() }
    }

    /// A cache holding the given entries; of two entries for the same path
    /// the later one stays.
    pub fn from_entries(list: Vec<(String, CacheEntry)>) -> (r: Self)
        ensures
            r.wf(),
            forall|p: Seq<char>| #[trigger] r.lookup(p) == last_entry(list@, p),
    {
        let mut c = SizeCache::empty();
        let mut i: usize = 0;
        while i < list.len()
            invariant
                i <= list@.len(),
                c.wf(),
                forall|p: Seq<char>| #[trigger] c.lookup(p) == last_entry(list@.take(i as int), p),
            decreases list@.len() - i,
        {
            let ghost t = list@.take(i + 1);
            proof {
                assert(t.drop_last() =~= list@.take(i as int));
                assert(t.last() == list@[i as int]);
            }
            let key = list[i].0.clone();
            let e = list[i].1;
            let ghost before = c.entries@;
            let ghost c0 = c;
            assert(c0.entries_view() == before);
            assoc_put(&mut c.entries, key, e);
            proof {
                assert forall|p: Seq<char>| #[trigger] c.lookup(p) == last_entry(t, p) by {
                    assert(assoc(c.entries@, p) == if path_eq(p, list@[i as int].0@) {
                        Some(list@[i as int].1)
                    } else {
                        assoc(before, p)
                    });
                    assert(c0.lookup(p) == last_entry(list@.take(i as int), p));
                    assert(last_entry(t, p) == if path_eq(t.last().0@, p) {
                        Some(t.last().1)
                    } else {
                        last_entry(t.drop_last(), p)
                    });
                }
            }
            i = i + 1;
        }
        assert(list@.take(list@.len() as int) =~= list@);
        c
    }

    /// The entries, to be written out.
    pub fn to_entries(&self) -> (r: Vec<(String, CacheEntry)>)
        ensures
            r@ == self.entries_view(),
    {
        let mut r: Vec<(String, CacheEntry)> = Vec::new();
        let mut i: usize = 0;
        while i < self.entries.len()
            invariant
                i <= self.entries@.len(),
                r@ == self.entries@.take(i as int),
            decreases self.entries@.len() - i,
        {
            let k = self.entries[i].0.clone();
            let e = self.entries[i].1;
            r.push((k, e));
            assert(r@ =~= self.entries@.take(i + 1));
            i = i + 1;
        }
        assert(self.entries@.take(self.entries@.len() as int) =~= self.entries@);
        r
    }

    /// The size cached for `path`.
    pub fn get(&self, path: &str) -> (r: Option<u64>)
        requires
            self.wf(),
        ensures
            r == match self.lookup(path@) {
                Some(e) => Some(e.size),
                None => None,
            },
    {
        let pc = chars_of(path);
        match find_key(&self.entries, pc.as_slice()) {
            Some(j) => {
                proof {
                    lemma_assoc_at(self.entries@, j as int, path@);
                }
                Some(self.entries[j].1.size)
            },
            None => {
                proof {
                    lemma_assoc_none(self.entries@, path@);
                }
                None
            },
        }
    }

    /// Caches `size` for `path`, measured at `now`; other paths keep
    /// their entries.
    pub fn set_at(&mut self, path: String, size: u64, now: u64)
        requires
            old(self).wf(),
        ensures
            final(self).wf(),
            forall|q: Seq<char>| #[trigger] final(self).lookup(q) == if path_eq(q, path@) {
                Some(CacheEntry { size, cached_at: now })
            } else {
                old(self).lookup(q)
            },
    {
        assoc_put(&mut self.entries, path, CacheEntry { size, cached_at: now });
    }

    /// Caches `size` for `path`, stamped with the current time; a later
    /// `get` of the path gives `size`, and other paths keep their entries.
    pub fn set(&mut self, path: String, size: u64)
        requires
            old(self).wf(),
        ensures
            final(self).wf(),
            forall|q: Seq<char>| path_eq(q, path@) ==> ((#[trigger] final(self).lookup(q)) matches Some(e) && e.size == size),
            forall|q: Seq<char>| !path_eq(q, path@) ==> #[trigger] final(self).lookup(q) == old(self).lookup(q),
    {
        let now = unix_now_secs();
        self.set_at(path, size, now);
    }

    /// Drops the entry for `path`; a later `get` of the path gives `None`,
    /// and other paths keep their entries.
    pub fn remove(&mut self, path: &str)
        requires
            old(self).wf(),
        ensures
            final(self).wf(),
            forall|q: Seq<char>| #[trigger] final(self).lookup(q) == if path_eq(q, path@) {
                None
            } else {
                old(self).lookup(q)
            },
    {
        assoc_remove(&mut self.entries, path);
    }
}

/// The last entry of `list` whose path is `p`.
pub open spec fn last_entry(list: Seq<(String, CacheEntry)>, p: Seq<char>) -> Option<CacheEntry>
    decreases list.len(),
{
    if list.len() == 0 {
        None
    } else if path_eq(list.last().0@, p) {
        Some(list.last().1)
    } else {
        last_entry(list.drop_last(), p)
    }
}

} // verus!
