//! What a finished cleanup does to the interface's state: removed items
//! leave their modules, an item above a removed entry of an opened
//! directory shrinks by that entry's size, module totals are summed again,
//! the status bar says what was blocked, and the selection and the opened
//! directories are cleared. Resolving paths again for the overall total is
//! the caller's part (see `Session::recount`).

use vstd::prelude::*;
use crate::assoc::assoc;
use crate::drill::{flat_items, last_size, DrillLevel};
use crate::cleaner::CleanupResult;
use crate::path::{path_eq, path_starts_with, path_eq_exec, path_starts_with_exec};
use crate::ranking::{all_sizes_fit, sizes_fit};
use crate::scanning::items_total;
use crate::selection::PathSet;
use crate::session::{Session, SessionView};
use crate::text::{decimal, push_decimal, push_str};
use crate::types;
use crate::types::{FlashLevel, Item, ModuleState};

verus! {

/// A size after subtracting, without going below zero, the size of each
/// removed path strictly below `p` whose size is known.
pub open spec fn shrunk(ps: u64, p: Seq<char>, removed: Seq<String>, sizes: Seq<DrillLevel>) -> u64
    decreases removed.len(),
{
    if removed.len() == 0 {
        ps
    } else {
        let prev = shrunk(ps, p, removed.drop_last(), sizes);
        let d = removed.last()@;
        if path_starts_with(d, p) && !path_eq(d, p) {
            match last_size(flat_items(sizes), d) {
                Some(cs) => if prev >= cs { (prev - cs) as u64 } else { 0 },
                None => prev,
            }
        } else {
            prev
        }
    }
}

/// An item that stays, with its size shrunk.
pub open spec fn kept_item(it: Item, removed: Seq<String>, sizes: Seq<DrillLevel>) -> Item {
    Item {
        size: match it.size {
            Some(ps) => Some(shrunk(ps, it.path@, removed, sizes)),
            None => None,
        },
        ..it
    }
}

/// Whether `p` was removed.
pub open spec fn was_removed(removed: Seq<String>, p: Seq<char>) -> bool {
    exists|k: int| 0 <= k < removed.len() && path_eq(#[trigger] removed[k]@, p)
}

/// The items that stay, in order, with their sizes shrunk.
pub open spec fn kept_items(items: Seq<Item>, removed: Seq<String>, sizes: Seq<DrillLevel>) -> Seq<Item>
    decreases items.len(),
{
    if items.len() == 0 {
        Seq::empty()
    } else {
        kept_items(items.drop_last(), removed, sizes) + if was_removed(removed, items.last().path@) {
            Seq::empty()
        } else {
            seq![kept_item(items.last(), removed, sizes)]
        }
    }
}

/// The status-bar message for a cleanup with `ok` removals and `failed`
/// failures: everything blocked is an error, some blocked a warning,
/// nothing blocked no message.
pub open spec fn outcome_flash(ok: nat, failed: nat) -> Option<(Seq<char>, FlashLevel)> {
    if failed > 0 && ok == 0 {
        Some((
            "Blocked: "@ + decimal(failed) + " item"@ + (if failed == 1 { Seq::empty() } else { seq!['s'] })
                + " denied by safety rules"@,
            FlashLevel::Error,
        ))
    } else if failed > 0 {
        Some((
            decimal(ok) + seq!['/'] + decimal(ok + failed) + " cleaned; "@ + decimal(failed) + " blocked by safety rules"@,
            FlashLevel::Warning,
        ))
    } else {
        None
    }
}

proof fn lemma_shrunk_le(ps: u64, p: Seq<char>, removed: Seq<String>, sizes: Seq<DrillLevel>)
    ensures
        shrunk(ps, p, removed, sizes) <= ps,
    decreases removed.len(),
{
    if removed.len() > 0 {
        lemma_shrunk_le(ps, p, removed.drop_last(), sizes);
    }
}

proof fn lemma_kept_total(items: Seq<Item>, removed: Seq<String>, sizes: Seq<DrillLevel>)
    ensures
        items_total(kept_items(items, removed, sizes)) <= items_total(items),
    decreases items.len(),
{
    if items.len() > 0 {
        let prev = kept_items(items.drop_last(), removed, sizes);
        lemma_kept_total(items.drop_last(), removed, sizes);
        crate::scanning::lemma_items_total_push_pub(items.drop_last(), items.last());
        assert(items.drop_last().push(items.last()) =~= items);
        if !was_removed(removed, items.last().path@) {
            let k = kept_item(items.last(), removed, sizes);
            crate::scanning::lemma_items_total_push_pub(prev, k);
            match items.last().size {
                Some(ps) => lemma_shrunk_le(ps, items.last().path@, removed, sizes),
                None => {},
            }
            assert(prev + seq![k] =~= prev.push(k));
        } else {
            assert(prev + Seq::<Item>::empty() =~= prev);
        }
    }
}

fn shrink(ps: u64, p: &str, removed: &Vec<String>, sizes: &Vec<(String, u64)>, levels: Ghost<Seq<DrillLevel>>) -> (r: u64)
    requires
        crate::assoc::keys_distinct(sizes@),
        forall|q: Seq<char>| #[trigger] assoc(sizes@, q) == last_size(flat_items(levels@), q),
    ensures
        r == shrunk(ps, p@, removed@, levels@),
{
    let pc = crate::text::chars_of(p);
    let mut cur = ps;
    let mut k: usize = 0;
    while k < removed.len()
        invariant
            k <= removed@.len(),
            pc@ == p@,
            crate::assoc::keys_distinct(sizes@),
            forall|q: Seq<char>| #[trigger] assoc(sizes@, q) == last_size(flat_items(levels@), q),
            cur == shrunk(ps, p@, removed@.take(k as int), levels@),
        decreases removed@.len() - k,
    {
        let ghost t = removed@.take(k + 1);
        proof {
            assert(t.drop_last() =~= removed@.take(k as int));
            assert(t.last() == removed@[k as int]);
        }
        let dc = crate::text::chars_of(removed[k].as_str());
        if path_starts_with_exec(dc.as_slice(), pc.as_slice()) && !path_eq_exec(dc.as_slice(), pc.as_slice()) {
            match crate::assoc::find_key(sizes, dc.as_slice()) {
                Some(j) => {
                    proof {
                        crate::assoc::lemma_assoc_at(sizes@, j as int, dc@);
                        assert(assoc(sizes@, dc@) == last_size(flat_items(levels@), dc@));
                    }
                    let cs = sizes[j].1;
                    cur = if cur >= cs { cur - cs } else { 0 };
                },
                None => {
                    proof {
                        crate::assoc::lemma_assoc_none(sizes@, dc@);
                        assert(assoc(sizes@, dc@) == last_size(flat_items(levels@), dc@));
                    }
                },
            }
        }
        k = k + 1;
    }
    assert(removed@.take(removed@.len() as int) =~= removed@);
    cur
}

fn total_of(items: &Vec<Item>) -> (r: u64)
    requires
        sizes_fit(items@),
    ensures
        r == items_total(items@),
{
    let mut total: u64 = 0;
    let mut i: usize = 0;
    while i < items.len()
        invariant
            i <= items@.len(),
            sizes_fit(items@),
            total as nat == items_total(items@.take(i as int)),
        decreases items@.len() - i,
    {
        proof {
            crate::scanning::lemma_items_total_prefix(items@, i + 1);
            crate::scanning::lemma_items_total_push_pub(items@.take(i as int), items@[i as int]);
            assert(items@.take(i as int).push(items@[i as int]) =~= items@.take(i + 1));
        }
        match items[i].size {
            Some(s) => {
                total = total + s;
            },
            None => {},
        }
        i = i + 1;
    }
    assert(items@.take(items@.len() as int) =~= items@);
    total
}

/// Whether module `b` is module `a` after the cleanup.
pub open spec fn module_after(a: ModuleState, b: ModuleState, removed: Seq<String>, sizes: Seq<DrillLevel>) -> bool {
    let items = kept_items(a.items@, removed, sizes);
    &&& b.items@ == items
    &&& b.total_size == Some(items_total(items) as u64)
    &&& b.module == a.module
    &&& b.status == a.status
    &&& b.manifest_path == a.manifest_path
    &&& b.update_status == a.update_status
}

/// The text of a message.
pub open spec fn flash_text(f: Option<(Seq<char>, FlashLevel)>) -> Seq<char> {
    match f {
        Some(x) => x.0,
        None => Seq::empty(),
    }
}

fn push_flash(ok: usize, failed: usize) -> (r: Option<(String, FlashLevel)>)
    requires
        ok + failed <= usize::MAX,
    ensures
        crate::session::flash_view(r) == outcome_flash(ok as nat, failed as nat),
{
    if failed > 0 && ok == 0 {
        let mut m = String::new();
        push_str(&mut m, "Blocked: ");
        push_decimal(&mut m, failed as u64);
        push_str(&mut m, " item");
        if failed != 1 {
            m.push('s');
        }
        push_str(&mut m, " denied by safety rules");
        assert(m@ =~= flash_text(outcome_flash(ok as nat, failed as nat)));
        Some((m, FlashLevel::Error))
    } else if failed > 0 {
        let mut m = String::new();
        push_decimal(&mut m, ok as u64);
        m.push('/');
        let total: usize = ok + failed;
        push_decimal(&mut m, total as u64);
        push_str(&mut m, " cleaned; ");
        push_decimal(&mut m, failed as u64);
        push_str(&mut m, " blocked by safety rules");
        assert(m@ =~= flash_text(outcome_flash(ok as nat, failed as nat)));
        Some((m, FlashLevel::Warning))
    } else {
        None
    }
}


impl Session {
    /// Applies a finished cleanup (see the module documentation). Removed
    /// paths count once however often they are reported.
    pub fn apply_cleanup_result(&mut self, result: &CleanupResult) -> (gone: Vec<String>)
        requires
            old(self).wf(),
            result.succeeded@.len() + result.failed@.len() <= usize::MAX,
        ensures
            final(self).wf(),
            ({
                let removed = gone@;
                let sizes = old(self).drill.levels();
                &&& forall|q: Seq<char>| #[trigger] was_removed(removed, q) == was_removed(result.succeeded@, q)
                &&& final(self)@.modules.len() == old(self)@.modules.len()
                &&& forall|i: int| 0 <= i < old(self)@.modules.len() ==> module_after(
                    #[trigger] old(self)@.modules[i],
                    final(self)@.modules[i],
                    removed,
                    sizes,
                )
                &&& match outcome_flash(removed.len() as nat, result.failed@.len() as nat) {
                    Some(f) => final(self)@.flash == Some(f) && final(self)@.flash_ticks == 12,
                    None => final(self)@.flash == old(self)@.flash && final(self)@.flash_ticks == old(self)@.flash_ticks,
                }
                &&& final(self)@.selected.len() == 0
                &&& final(self)@.drill_levels.len() == 0
                &&& final(self)@.drill_cache.len() == 0
                &&& final(self)@ == (SessionView {
                    modules: final(self)@.modules,
                    flash: final(self)@.flash,
                    flash_ticks: final(self)@.flash_ticks,
                    selected: final(self)@.selected,
                    drill_levels: final(self)@.drill_levels,
                    drill_cache: final(self)@.drill_cache,
                    ..old(self)@
                })
            }),
    {
        let mut removed = PathSet::new();
        let mut k: usize = 0;
        while k < result.succeeded.len()
            invariant
                k <= result.succeeded@.len(),
                removed.wf(),
                removed.entries().len() <= k,
                forall|q: Seq<char>| #[trigger] removed.has(q) == was_removed(result.succeeded@.take(k as int), q),
            decreases result.succeeded@.len() - k,
        {
            removed.insert(result.succeeded[k].clone());
            proof {
                let t = result.succeeded@.take(k + 1);
                assert forall|q: Seq<char>| #[trigger] removed.has(q) == was_removed(t, q) by {
                    if was_removed(t, q) {
                        let a = choose|a: int| 0 <= a < t.len() && path_eq(#[trigger] t[a]@, q);
                        if a < k {
                            assert(path_eq(result.succeeded@.take(k as int)[a]@, q));
                        }
                    }
                    if was_removed(result.succeeded@.take(k as int), q) {
                        let a = choose|a: int| 0 <= a < k && path_eq(#[trigger] result.succeeded@.take(k as int)[a]@, q);
                        assert(path_eq(t[a]@, q));
                    }
                    if path_eq(q, result.succeeded@[k as int]@) {
                        assert(path_eq(t[k as int]@, q));
                    }
                }
            }
            k = k + 1;
        }
        assert(result.succeeded@.take(result.succeeded@.len() as int) =~= result.succeeded@);
        let gone = removed.to_vec();
        proof {
            assert forall|q: Seq<char>| #[trigger] removed.has(q) == was_removed(gone@, q) by {
                if removed.has(q) {
                    let a = choose|a: int| 0 <= a < removed.entries().len() && path_eq(#[trigger] removed.entries()[a]@, q);
                    assert(path_eq(gone@[a]@, q));
                }
                if was_removed(gone@, q) {
                    let a = choose|a: int| 0 <= a < gone@.len() && path_eq(#[trigger] gone@[a]@, q);
                    assert(path_eq(removed.entries()[a]@, q));
                }
            }
        }
        assert forall|q: Seq<char>| #[trigger] was_removed(gone@, q) == was_removed(result.succeeded@, q) by {
            assert(removed.has(q) == was_removed(result.succeeded@.take(k as int), q));
            assert(removed.has(q) == was_removed(gone@, q));
        }
        let ok = removed.len();
        let failed = result.failed.len();
        let sizes = self.drill.collect_item_sizes();
        let ghost levels = self.drill.levels();
        let ghost m0 = self.modules@;
        let mut i: usize = 0;
        while i < self.modules.len()
            invariant
                i <= self.modules@.len(),
                self.modules@.len() == m0.len(),
                m0 == old(self)@.modules,
                old(self).wf(),
                self@ == (SessionView { modules: self@.modules, ..old(self)@ }),
                self.selected_items == old(self).selected_items,
                self.confirm_checked == old(self).confirm_checked,
                self.seen_paths == old(self).seen_paths,
                self.drill == old(self).drill,
                all_sizes_fit(m0),
                crate::assoc::keys_distinct(sizes@),
                forall|j: int| i <= j < m0.len() ==> #[trigger] self.modules@[j] == m0[j],
                forall|q: Seq<char>| #[trigger] assoc(sizes@, q) == last_size(flat_items(levels), q),
                forall|q: Seq<char>| #[trigger] removed.has(q) == was_removed(gone@, q),
                forall|q: Seq<char>| #[trigger] was_removed(gone@, q) == was_removed(result.succeeded@, q),
                forall|j: int| 0 <= j < i ==> module_after(#[trigger] m0[j], self.modules@[j], gone@, levels),
                forall|j: int| 0 <= j < i ==> sizes_fit(#[trigger] self.modules@[j].items@),
            decreases m0.len() - i,
        {
            let ghost items0 = m0[i as int].items@;
            let mut kept: Vec<Item> = Vec::new();
            let mut rest: Vec<Item> = Vec::new();
            std::mem::swap(&mut rest, &mut self.modules[i].items);
            let n = rest.len();
            let mut j: usize = 0;
            while j < n
                invariant
                    j <= n,
                    n == items0.len(),
                    rest@.len() == n - j,
                    forall|x: int| 0 <= x < rest@.len() ==> #[trigger] rest@[x] == items0[j + x],
                    kept@ == kept_items(items0.take(j as int), gone@, levels),
                    crate::assoc::keys_distinct(sizes@),
                    forall|q: Seq<char>| #[trigger] assoc(sizes@, q) == last_size(flat_items(levels), q),
                    forall|q: Seq<char>| #[trigger] removed.has(q) == was_removed(gone@, q),
                decreases n - j,
            {
                let mut it = rest.remove(0);
                assert(it == items0[j as int]);
                proof {
                    let t = items0.take(j + 1);
                    assert(t.drop_last() =~= items0.take(j as int));
                    assert(t.last() == items0[j as int]);
                }
                if !removed.contains(it.path.as_str()) {
                    match it.size {
                        Some(ps) => {
                            let s2 = shrink(ps, it.path.as_str(), &gone, &sizes, Ghost(levels));
                            it.size = Some(s2);
                        },
                        None => {},
                    }
                    kept.push(it);
                }
                j = j + 1;
            }
            assert(items0.take(n as int) =~= items0);
            proof {
                lemma_kept_total(items0, gone@, levels);
                assert(sizes_fit(items0));
            }
            let total = total_of(&kept);
            self.modules[i].items = kept;
            self.modules[i].total_size = Some(total);
            i = i + 1;
        }
        match push_flash(ok, failed) {
            Some(f) => {
                self.flash_message = Some(f);
                self.flash_ticks = 12;
            },
            None => {},
        }
        self.drill.clear();
        self.selected_items.clear();
        gone
    }
}
} // verus!
