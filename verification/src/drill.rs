//! Drill-in exploration of directories: a stack of opened directories, and a
//! cache of what is known of selected entries so that it outlives the stack.
//! Paths are compared as `std::path::Path` compares them, by components.

use vstd::prelude::*;
use crate::assoc::{assoc, assoc_put, assoc_remove, find_key, keys_distinct, lemma_assoc_at, lemma_assoc_none};
use crate::path::{file_name, file_name_of, path_eq, path_eq_exec};
use crate::safety::SafetyLevel;
use crate::text::{chars_of, string_of};
use crate::types::Item;

verus! {

/// One opened directory.
pub struct DrillLevel {
    pub path: String,
    pub items: Vec<Item>,
    /// The row that was selected in the level below when this one opened.
    pub parent_selected_index: usize,
}

/// The stack of opened directories and the cache of selected entries.
pub struct DrillState {
    stack: Vec<DrillLevel>,
    selection_cache: Vec<(String, (Option<u64>, SafetyLevel))>,
}

/// Size and safety of the first item of `items` whose path is `p`.
pub open spec fn item_meta(items: Seq<Item>, p: Seq<char>) -> Option<(Option<u64>, SafetyLevel)>
    decreases items.len(),
{
    if items.len() == 0 {
        None
    } else if path_eq(items[0].path@, p) {
        Some((items[0].size, items[0].safety_level))
    } else {
        item_meta(items.skip(1), p)
    }
}

/// Size and safety of the first item at path `p`, level by level from the
/// bottom of the stack.
pub open spec fn stack_meta(levels: Seq<DrillLevel>, p: Seq<char>) -> Option<(Option<u64>, SafetyLevel)>
    decreases levels.len(),
{
    if levels.len() == 0 {
        None
    } else {
        match item_meta(levels[0].items@, p) {
            Some(m) => Some(m),
            None => stack_meta(levels.skip(1), p),
        }
    }
}

/// The items of all levels, bottom level first.
pub open spec fn flat_items(levels: Seq<DrillLevel>) -> Seq<Item>
    decreases levels.len(),
{
    if levels.len() == 0 {
        Seq::empty()
    } else {
        flat_items(levels.drop_last()) + levels.last().items@
    }
}

/// The size of the last item of `items` at path `p` that has one.
pub open spec fn last_size(items: Seq<Item>, p: Seq<char>) -> Option<u64>
    decreases items.len(),
{
    if items.len() == 0 {
        None
    } else if path_eq(items.last().path@, p) && items.last().size is Some {
        items.last().size
    } else {
        last_size(items.drop_last(), p)
    }
}

/// A cached entry with its size replaced.
pub open spec fn resized(m: Option<(Option<u64>, SafetyLevel)>, size: u64) -> Option<(Option<u64>, SafetyLevel)> {
    match m {
        Some(x) => Some((Some(size), x.1)),
        None => None,
    }
}

/// The text shown for a level in the breadcrumb: the directory's name, or
/// the whole path where it has none.
pub open spec fn crumb(path: Seq<char>) -> Seq<char> {
    match file_name(path) {
        Some(f) => f,
        None => path,
    }
}

/// What recording size `size` for item `item_index` of level `depth` does
/// to a drill state: when the item exists, its size in the stack becomes
/// `size`, every other level and item stays, and the cache entry of its path
/// takes the size; otherwise nothing changes.
pub open spec fn item_resized(d0: DrillState, d1: DrillState, depth: usize, item_index: usize, size: u64) -> bool {
    let ls = d0.levels();
    if depth < ls.len() && item_index < ls[depth as int].items@.len() {
        let it = ls[depth as int].items@[item_index as int];
        &&& d1.levels().len() == ls.len()
        &&& forall|d: int| 0 <= d < ls.len() && d != depth ==> #[trigger] d1.levels()[d] == ls[d]
        &&& d1.levels()[depth as int].path == ls[depth as int].path
        &&& d1.levels()[depth as int].parent_selected_index == ls[depth as int].parent_selected_index
        &&& d1.levels()[depth as int].items@ == ls[depth as int].items@.update(
            item_index as int,
            Item { size: Some(size), ..it },
        )
        &&& forall|q: Seq<char>| #[trigger] assoc(d1.cache(), q) == if path_eq(q, it.path@) {
            resized(assoc(d0.cache(), q), size)
        } else {
            assoc(d0.cache(), q)
        }
    } else {
        d1 == d0
    }
}

impl DrillState {
    /// The opened directories, bottom first.
    pub closed spec fn levels(&self) -> Seq<DrillLevel> {
        self.stack@
    }

    /// The cached entries.
    pub closed spec fn cache(&self) -> Seq<(String, (Option<u64>, SafetyLevel))> {
        self.selection_cache@
    }

    /// No path is cached twice.
    pub open spec fn wf(&self) -> bool {
        keys_distinct(self.cache())
    }

    /// An empty state: nothing opened, nothing cached.
    pub fn new() -> (r: Self)
        ensures
            r.wf(),
            r.levels().len() == 0,
            r.cache().len() == 0,
    {
        DrillState { stack: Vec::new(), selection_cache: Vec::new() }
    }

    /// Whether a directory is open.
    pub fn is_active(&self) -> (r: bool)
        ensures
            r == (self.levels().len() > 0),
    {
        self.stack.len() > 0
    }

    /// How many directories are open.
    pub fn depth(&self) -> (r: usize)
        ensures
            r == self.levels().len(),
    {
        self.stack.len()
    }

    /// The items of the top level, or `fallback` when nothing is open.
    pub fn items_or<'a>(&'a self, fallback: &'a [Item]) -> (r: &'a [Item])
        ensures
            r@ == if self.levels().len() > 0 {
                self.levels().last().items@
            } else {
                fallback@
            },
    {
        let n = self.stack.len();
        if n > 0 {
            self.stack[n - 1].items.as_slice()
        } else {
            fallback
        }
    }

    /// The items of the top level, when a directory is open.
    pub fn current_items(&self) -> (r: Option<&[Item]>)
        ensures
            match r {
                Some(s) => self.levels().len() > 0 && s@ == self.levels().last().items@,
                None => self.levels().len() == 0,
            },
    {
        let n = self.stack.len();
        if n > 0 {
            Some(self.stack[n - 1].items.as_slice())
        } else {
            None
        }
    }

    /// Opens a directory on top of the stack.
    pub fn push(&mut self, path: String, items: Vec<Item>, parent_selected_index: usize)
        ensures
            final(self).levels().len() == old(self).levels().len() + 1,
            final(self).levels().drop_last() == old(self).levels(),
            final(self).levels().last().path == path,
            final(self).levels().last().items == items,
            final(self).levels().last().parent_selected_index == parent_selected_index,
            final(self).cache() == old(self).cache(),
    {
        self.stack.push(DrillLevel { path, items, parent_selected_index });
        proof {
            assert(self.stack@.drop_last() =~= old(self).stack@);
        }
    }

    /// Closes the top directory and gives back the row selected below it.
    pub fn pop(&mut self) -> (r: Option<usize>)
        ensures
            old(self).levels().len() == 0 ==> r is None && final(self).levels() == old(self).levels(),
            old(self).levels().len() > 0 ==> r == Some(old(self).levels().last().parent_selected_index)
                && final(self).levels() == old(self).levels().drop_last(),
            final(self).cache() == old(self).cache(),
    {
        match self.stack.pop() {
            Some(level) => Some(level.parent_selected_index),
            None => None,
        }
    }

    /// Records the size found for item `item_index` of level `depth`, in the
    /// stack and in the cache entry for its path.
    pub fn update_item_size(&mut self, depth: usize, item_index: usize, size: u64)
        requires
            old(self).wf(),
        ensures
            final(self).wf(),
            item_resized(*old(self), *final(self), depth, item_index, size),
    {
        if depth < self.stack.len() && item_index < self.stack[depth].items.len() {
            self.stack[depth].items[item_index].size = Some(size);
            let pc = chars_of(self.stack[depth].items[item_index].path.as_str());
            let ghost c0 = self.selection_cache@;
            match find_key(&self.selection_cache, pc.as_slice()) {
                Some(j) => {
                    let key = self.selection_cache[j].0.clone();
                    let meta = self.selection_cache[j].1;
                    let level = meta.1;
                    proof {
                        lemma_assoc_at(c0, j as int, pc@);
                    }
                    assoc_put(&mut self.selection_cache, key, (Some(size), level));
                },
                None => {
                    proof {
                        assert forall|q: Seq<char>| path_eq(q, pc@) implies #[trigger] assoc(c0, q) is None by {
                            assert forall|i: int| 0 <= i < c0.len() implies !path_eq(#[trigger] c0[i].0@, q) by {}
                        }
                    }
                },
            }
        }
    }

    /// Caches what is known of a selected entry.
    pub fn cache_selection(&mut self, path: String, meta: (Option<u64>, SafetyLevel))
        requires
            old(self).wf(),
        ensures
            final(self).wf(),
            final(self).levels() == old(self).levels(),
            forall|q: Seq<char>| #[trigger] assoc(final(self).cache(), q) == if path_eq(q, path@) {
                Some(meta)
            } else {
                assoc(old(self).cache(), q)
            },
    {
        assoc_put(&mut self.selection_cache, path, meta);
    }

    /// Drops the cache entry of a deselected entry.
    pub fn uncache_selection(&mut self, path: &str)
        requires
            old(self).wf(),
        ensures
            final(self).wf(),
            final(self).levels() == old(self).levels(),
            forall|q: Seq<char>| #[trigger] assoc(final(self).cache(), q) == if path_eq(q, path@) {
                None
            } else {
                assoc(old(self).cache(), q)
            },
    {
        assoc_remove(&mut self.selection_cache, path);
    }

    /// Size and safety of the entry at `path`: from the first item with that
    /// path in the stack, bottom level first, else from the cache.
    pub fn lookup_meta(&self, path: &str) -> (r: Option<(Option<u64>, SafetyLevel)>)
        requires
            self.wf(),
        ensures
            r == match stack_meta(self.levels(), path@) {
                Some(m) => Some(m),
                None => assoc(self.cache(), path@),
            },
    {
        let pc = chars_of(path);
        let ls = &self.stack;
        let mut i: usize = 0;
        assert(ls@.skip(0) =~= ls@);
        while i < ls.len()
            invariant
                i <= ls@.len(),
                stack_meta(ls@, pc@) == stack_meta(ls@.skip(i as int), pc@),
                pc@ == path@,
                ls@ == self.levels(),
            decreases ls@.len() - i,
        {
            let items = &ls[i].items;
            let mut j: usize = 0;
            assert(items@.skip(0) =~= items@);
            while j < items.len()
                invariant
                    i < ls@.len(),
                    items == &ls@[i as int].items,
                    j <= items@.len(),
                    stack_meta(ls@, pc@) == stack_meta(ls@.skip(i as int), pc@),
                    pc@ == path@,
                    ls@ == self.levels(),
                    item_meta(items@, pc@) == item_meta(items@.skip(j as int), pc@),
                decreases items@.len() - j,
            {
                let kc = chars_of(items[j].path.as_str());
                if path_eq_exec(kc.as_slice(), pc.as_slice()) {
                    proof {
                        assert(items@.skip(j as int)[0] == items@[j as int]);
                        assert(item_meta(items@.skip(j as int), pc@) == Some((items@[j as int].size, items@[j as int].safety_level)));
                        assert(ls@.skip(i as int)[0] == ls@[i as int]);
                        assert(stack_meta(ls@.skip(i as int), pc@) == Some((items@[j as int].size, items@[j as int].safety_level)));
                    }
                    return Some((items[j].size, items[j].safety_level));
                }
                proof {
                    assert(items@.skip(j as int).skip(1) =~= items@.skip(j + 1));
                }
                j = j + 1;
            }
            proof {
                assert(ls@.skip(i as int)[0] == ls@[i as int]);
                assert(ls@.skip(i as int).skip(1) =~= ls@.skip(i + 1));
            }
            i = i + 1;
        }
        let ghost c = self.selection_cache@;
        match find_key(&self.selection_cache, pc.as_slice()) {
            Some(k) => {
                proof {
                    lemma_assoc_at(c, k as int, pc@);
                }
                Some(self.selection_cache[k].1)
            },
            None => {
                proof {
                    lemma_assoc_none(c, pc@);
                }
                None
            },
        }
    }

    /// The size of each item path that has one in the stack, the last such
    /// item of a path giving its size.
    pub fn collect_item_sizes(&self) -> (r: Vec<(String, u64)>)
        ensures
            keys_distinct(r@),
            forall|q: Seq<char>| #[trigger] assoc(r@, q) == last_size(flat_items(self.levels()), q),
    {
        let ls = &self.stack;
        let mut r: Vec<(String, u64)> = Vec::new();
        let mut i: usize = 0;
        while i < ls.len()
            invariant
                i <= ls@.len(),
                keys_distinct(r@),
                forall|q: Seq<char>| #[trigger] assoc(r@, q) == last_size(flat_items(ls@.take(i as int)), q),
            decreases ls@.len() - i,
        {
            let items = &ls[i].items;
            let ghost before = flat_items(ls@.take(i as int));
            let mut j: usize = 0;
            while j < items.len()
                invariant
                    i < ls@.len(),
                    items == &ls@[i as int].items,
                    j <= items@.len(),
                    keys_distinct(r@),
                    forall|q: Seq<char>| #[trigger] assoc(r@, q) == last_size(before + items@.take(j as int), q),
                decreases items@.len() - j,
            {
                let ghost seen = before + items@.take(j as int);
                let ghost next = before + items@.take(j + 1);
                proof {
                    assert(next.drop_last() =~= seen);
                    assert(next.last() == items@[j as int]);
                }
                match items[j].size {
                    Some(s) => {
                        assoc_put(&mut r, items[j].path.clone(), s);
                    },
                    None => {},
                }
                j = j + 1;
            }
            proof {
                let t = ls@.take(i + 1);
                assert(t.drop_last() =~= ls@.take(i as int));
                assert(t.last() == ls@[i as int]);
                assert(items@.take(items@.len() as int) =~= items@);
                assert(flat_items(t) == before + items@);
            }
            i = i + 1;
        }
        proof {
            assert(ls@.take(ls@.len() as int) =~= ls@);
        }
        r
    }

    /// The name of each open directory, bottom first; a path without a name
    /// is shown whole.
    pub fn breadcrumb_parts(&self) -> (r: Vec<String>)
        ensures
            r@.len() == self.levels().len(),
            forall|k: int| 0 <= k < r@.len() ==> #[trigger] r@[k]@ == crumb(self.levels()[k].path@),
    {
        let mut r: Vec<String> = Vec::new();
        let mut i: usize = 0;
        while i < self.stack.len()
            invariant
                i <= self.stack@.len(),
                r@.len() == i,
                forall|k: int| 0 <= k < i ==> #[trigger] r@[k]@ == crumb(self.stack@[k].path@),
            decreases self.stack@.len() - i,
        {
            let pc = chars_of(self.stack[i].path.as_str());
            match file_name_of(pc.as_slice()) {
                Some(f) => r.push(string_of(f.as_slice())),
                None => r.push(self.stack[i].path.clone()),
            }
            i = i + 1;
        }
        r
    }

    /// The paths of the items of level `depth`, for sizing in the background;
    /// none where there is no such level.
    pub fn scan_paths_at_depth(&self, depth: usize) -> (r: Vec<String>)
        ensures
            depth < self.levels().len() ==> r@.len() == self.levels()[depth as int].items@.len()
                && forall|k: int| 0 <= k < r@.len() ==> #[trigger] r@[k]@ == self.levels()[depth as int].items@[k].path@,
            depth >= self.levels().len() ==> r@.len() == 0,
    {
        let mut r: Vec<String> = Vec::new();
        if depth < self.stack.len() {
            let items = &self.stack[depth].items;
            let mut j: usize = 0;
            while j < items.len()
                invariant
                    j <= items@.len(),
                    r@.len() == j,
                    forall|k: int| 0 <= k < j ==> #[trigger] r@[k]@ == items@[k].path@,
                decreases items@.len() - j,
            {
                r.push(items[j].path.clone());
                j = j + 1;
            }
        }
        r
    }

    /// Path, size and safety of each item of the top level (none when
    /// nothing is open).
    pub fn current_paths_and_meta(&self) -> (r: Vec<(String, Option<u64>, SafetyLevel)>)
        ensures
            self.levels().len() > 0 ==> r@.len() == self.levels().last().items@.len()
                && forall|m: int| 0 <= m < r@.len() ==> (#[trigger] r@[m]).0@ == self.levels().last().items@[m].path@
                    && r@[m].1 == self.levels().last().items@[m].size
                    && r@[m].2 == self.levels().last().items@[m].safety_level,
            self.levels().len() == 0 ==> r@.len() == 0,
    {
        let mut r: Vec<(String, Option<u64>, SafetyLevel)> = Vec::new();
        let n = self.stack.len();
        if n > 0 {
            let items = &self.stack[n - 1].items;
            let mut j: usize = 0;
            while j < items.len()
                invariant
                    j <= items@.len(),
                    r@.len() == j,
                    forall|m: int| 0 <= m < j ==> (#[trigger] r@[m]).0@ == items@[m].path@ && r@[m].1 == items@[m].size
                        && r@[m].2 == items@[m].safety_level,
                decreases items@.len() - j,
            {
                r.push((items[j].path.clone(), items[j].size, items[j].safety_level));
                j = j + 1;
            }
        }
        r
    }

    /// Closes every directory and empties the cache.
    pub fn clear(&mut self)
        ensures
            final(self).wf(),
            final(self).levels().len() == 0,
            final(self).cache().len() == 0,
    {
        self.stack.clear();
        self.selection_cache.clear();
    }
}

} // verus!
