//! What the results of a scan do to the interface's state: found items are
//! added (or recorded as blocked when the safety rules deny them), measured
//! items get their size and count once toward the overall total, and module
//! and scan states move on. Classifying a path and resolving it on disk are
//! left to the caller, which hands the answers in.

use vstd::prelude::*;
use crate::ranking::{all_sizes_fit, passing_sizes, sizes_fit};
use crate::safety::SafetyLevel;
use crate::session::{Session, SessionView};
use crate::types;
use crate::types::{Item, ModuleStatus};

verus! {

/// The sum of the known sizes of `items`.
pub open spec fn items_total(items: Seq<Item>) -> nat {
    passing_sizes(items, [true, true, true, true], [true, true]).0
}

pub proof fn lemma_items_total_push_pub(items: Seq<Item>, it: Item)
    ensures
        items_total(items.push(it)) == items_total(items) + match it.size {
            Some(s) => s as nat,
            None => 0nat,
        },
{
    let all = [true, true, true, true];
    let alr = [true, true];
    assert(items.push(it).drop_last() =~= items);
    assert(crate::ranking::item_passes(it, all, alr)) by {
        assert(all@[crate::filter::risk_slot(it.risk_level)]);
        assert(alr@[crate::filter::restore_slot(it.restore_kind)]);
    }
}

/// The known sizes of a prefix of `items` add up to no more than all.
pub proof fn lemma_items_total_prefix(items: Seq<Item>, n: int)
    requires
        0 <= n <= items.len(),
    ensures
        items_total(items.take(n)) <= items_total(items),
    decreases items.len() - n,
{
    if n < items.len() {
        lemma_items_total_prefix(items, n + 1);
        lemma_items_total_push_pub(items.take(n), items[n]);
        assert(items.take(n).push(items[n]) =~= items.take(n + 1));
    } else {
        assert(items.take(n) =~= items);
    }
}

proof fn lemma_items_total_update(items: Seq<Item>, i: int, it: Item)
    requires
        0 <= i < items.len(),
    ensures
        items_total(items.update(i, it)) + match items[i].size {
            Some(s) => s as nat,
            None => 0nat,
        } == items_total(items) + match it.size {
            Some(s) => s as nat,
            None => 0nat,
        },
    decreases items.len(),
{
    let all = [true, true, true, true];
    let alr = [true, true];
    assert(crate::ranking::item_passes(it, all, alr)) by {
        assert(all@[crate::filter::risk_slot(it.risk_level)]);
        assert(alr@[crate::filter::restore_slot(it.restore_kind)]);
    }
    assert(crate::ranking::item_passes(items.last(), all, alr)) by {
        assert(all@[crate::filter::risk_slot(items.last().risk_level)]);
        assert(alr@[crate::filter::restore_slot(items.last().restore_kind)]);
    }
    if i == items.len() - 1 {
        assert(items.update(i, it).drop_last() =~= items.drop_last());
    } else {
        lemma_items_total_update(items.drop_last(), i, it);
        assert(items.update(i, it).drop_last() =~= items.drop_last().update(i, it));
        assert(items.update(i, it).last() == items.last());
    }
}

proof fn lemma_fit_update(ms: Seq<types::ModuleState>, i: int, m: types::ModuleState)
    requires
        all_sizes_fit(ms),
        0 <= i < ms.len(),
        sizes_fit(m.items@),
    ensures
        all_sizes_fit(ms.update(i, m)),
{
    assert forall|k: int| 0 <= k < ms.update(i, m).len() implies sizes_fit(#[trigger] ms.update(i, m)[k].items@) by {
        if k != i {
            assert(ms.update(i, m)[k] == ms[k]);
        }
    }
}

/// Whether the item `it` found for module `mi` keeps the module's sizes
/// within a `u64`.
pub open spec fn fits_found(s: SessionView, mi: usize, it: Item) -> bool {
    mi < s.modules.len() ==> items_total(s.modules[mi as int].items@) + match it.size {
        Some(x) => x as nat,
        None => 0nat,
    } <= u64::MAX
}

/// Whether a measurement of `size` for item `ii` of module `mi` keeps the
/// totals within a `u64`: the module's items, the module total and, when
/// the resolved path was not counted yet, the overall total.
pub open spec fn fits_measured(s: Session, mi: usize, ii: usize, size: u64, canonical: Option<Seq<char>>) -> bool {
    mi < s.modules@.len() ==> {
        let ms = s.modules@[mi as int];
        let is_new = match canonical {
            Some(c) => !s.seen_paths.has(c),
            None => true,
        };
        &&& ii < ms.items@.len() ==> items_total(ms.items@) - match ms.items@[ii as int].size {
            Some(x) => x as nat,
            None => 0nat,
        } + size <= u64::MAX
        &&& is_new ==> s.deduped_total + size <= u64::MAX
        &&& match ms.total_size {
            Some(t) => t + size,
            None => size as int,
        } <= u64::MAX
    }
}

impl Session {
    /// A found item: the module is now discovering; a denied item is
    /// recorded as blocked (with its reason, `denied` when none is given),
    /// any other joins the module's items with its safety level.
    pub fn item_discovered(&mut self, mi: usize, item: Item, level: SafetyLevel, reason: Option<String>)
        requires
            old(self).wf(),
            fits_found(old(self)@, mi, item),
        ensures
            final(self).wf(),
            mi >= old(self)@.modules.len() ==> final(self)@ == old(self)@,
            mi < old(self)@.modules.len() ==> {
                let ms = old(self)@.modules[mi as int];
                &&& final(self)@.modules.len() == old(self)@.modules.len()
                &&& forall|k: int| 0 <= k < old(self)@.modules.len() && k != mi ==> #[trigger] final(self)@.modules[k]
                    == old(self)@.modules[k]
                &&& final(self)@.modules[mi as int].status == ModuleStatus::Discovering
                &&& final(self)@.modules[mi as int].module == ms.module
                &&& final(self)@.modules[mi as int].total_size == ms.total_size
                &&& final(self)@.modules[mi as int].manifest_path == ms.manifest_path
                &&& if level == SafetyLevel::Deny {
                    &&& final(self)@.modules[mi as int].items == ms.items
                    &&& final(self)@.blocked_paths.len() == old(self)@.blocked_paths.len() + 1
                    &&& final(self)@.blocked_paths.drop_last() == old(self)@.blocked_paths
                    &&& final(self)@.blocked_paths.last().0@ == item.path@
                    &&& final(self)@.blocked_paths.last().1@ == match reason {
                        Some(x) => x@,
                        None => "denied"@,
                    }
                    &&& final(self)@.blocked_paths.last().2@ == ms.module.id@
                    &&& final(self)@.blocked_paths.last().3@ == ms.module.name@
                    &&& final(self)@ == (SessionView { modules: final(self)@.modules, blocked_paths: final(self)@.blocked_paths, ..old(self)@ })
                } else {
                    &&& final(self)@.modules[mi as int].items@ == ms.items@.push(Item { safety_level: level, ..item })
                    &&& final(self)@ == (SessionView { modules: final(self)@.modules, ..old(self)@ })
                }
            },
    {
        if mi >= self.modules.len() {
            return;
        }
        let ghost m0 = self.modules@;
        self.modules[mi].status = ModuleStatus::Discovering;
        match level {
            SafetyLevel::Deny => {
                let why = match reason {
                    Some(x) => x,
                    None => {
                        let mut d = String::new();
                        crate::text::push_str(&mut d, "denied");
                        d
                    },
                };
                let id = self.modules[mi].module.id.clone();
                let name = self.modules[mi].module.name.clone();
                self.blocked_paths.push((item.path, why, id, name));
                proof {
                    lemma_fit_update(m0, mi as int, self.modules@[mi as int]);
                }
            },
            _ => {
                let mut it = item;
                it.safety_level = level;
                proof {
                    lemma_items_total_push_pub(self.modules@[mi as int].items@, it);
                }
                self.modules[mi].items.push(it);
                proof {
                    lemma_fit_update(m0, mi as int, self.modules@[mi as int]);
                }
            },
        }
    }

    /// A measured item: it gets its size; its resolved path (`canonical`,
    /// none when the item is not there) counts toward the overall total
    /// once, and the item is marked shared when the path was counted
    /// already; the module total grows by the size.
    pub fn item_sized(&mut self, mi: usize, ii: usize, size: u64, canonical: Option<String>)
        requires
            old(self).wf(),
            fits_measured(*old(self), mi, ii, size, match canonical { Some(c) => Some(c@), None => None }),
        ensures
            final(self).wf(),
            mi >= old(self)@.modules.len() ==> final(self)@ == old(self)@,
            mi < old(self)@.modules.len() ==> {
                let ms = old(self)@.modules[mi as int];
                let is_new = match canonical {
                    Some(c) => !old(self).seen_paths.has(c@),
                    None => true,
                };
                &&& final(self)@.modules.len() == old(self)@.modules.len()
                &&& forall|k: int| 0 <= k < old(self)@.modules.len() && k != mi ==> #[trigger] final(self)@.modules[k]
                    == old(self)@.modules[k]
                &&& final(self)@.modules[mi as int].total_size == Some((match ms.total_size {
                    Some(t) => t + size,
                    None => size as int,
                }) as u64)
                &&& final(self)@.modules[mi as int].module == ms.module
                &&& final(self)@.modules[mi as int].status == ms.status
                &&& final(self)@.modules[mi as int].items@.len() == ms.items@.len()
                &&& forall|j: int| 0 <= j < ms.items@.len() && j != ii ==> #[trigger] final(self)@.modules[mi as int].items@[j]
                    == ms.items@[j]
                &&& ii < ms.items@.len() ==> final(self)@.modules[mi as int].items@[ii as int] == (Item {
                    size: Some(size),
                    is_shared: if is_new { ms.items@[ii as int].is_shared } else { true },
                    ..ms.items@[ii as int]
                })
                &&& final(self)@.deduped_total == if is_new { (old(self)@.deduped_total + size) as u64 } else { old(self)@.deduped_total }
                &&& forall|q: Seq<char>| #[trigger] final(self).seen_paths.has(q) == (old(self).seen_paths.has(q) || match canonical {
                    Some(c) => crate::path::path_eq(q, c@),
                    None => false,
                })
                &&& final(self)@ == (SessionView {
                    modules: final(self)@.modules,
                    deduped_total: final(self)@.deduped_total,
                    seen: final(self)@.seen,
                    ..old(self)@
                })
            },
    {
        if mi >= self.modules.len() {
            return;
        }
        let ghost m0 = self.modules@;
        let is_new = match canonical {
            Some(c) => self.seen_paths.insert(c),
            None => true,
        };
        if ii < self.modules[mi].items.len() {
            let ghost before = self.modules@[mi as int].items@;
            self.modules[mi].items[ii].size = Some(size);
            if !is_new {
                self.modules[mi].items[ii].is_shared = true;
            }
            proof {
                lemma_items_total_update(before, ii as int, self.modules@[mi as int].items@[ii as int]);
                assert(self.modules@[mi as int].items@ =~= before.update(ii as int, self.modules@[mi as int].items@[ii as int]));
            }
        }
        if is_new {
            self.deduped_total = self.deduped_total + size;
        }
        let t = match self.modules[mi].total_size {
            Some(t) => t,
            None => 0,
        };
        self.modules[mi].total_size = Some(t + size);
        proof {
            lemma_fit_update(m0, mi as int, self.modules@[mi as int]);
        }
    }

    /// A module's scan ended: it is ready, with a total of zero when
    /// nothing was measured.
    pub fn module_complete(&mut self, mi: usize)
        requires
            old(self).wf(),
        ensures
            final(self).wf(),
            mi >= old(self)@.modules.len() ==> final(self)@ == old(self)@,
            mi < old(self)@.modules.len() ==> {
                let ms = old(self)@.modules[mi as int];
                &&& final(self)@.modules == old(self)@.modules.update(mi as int, types::ModuleState {
                    status: ModuleStatus::Ready,
                    total_size: match ms.total_size {
                        Some(t) => Some(t),
                        None => Some(0u64),
                    },
                    ..ms
                })
                &&& final(self)@ == (SessionView { modules: final(self)@.modules, ..old(self)@ })
            },
    {
        if mi >= self.modules.len() {
            return;
        }
        let ghost m0 = self.modules@;
        self.modules[mi].status = ModuleStatus::Ready;
        if self.modules[mi].total_size.is_none() {
            self.modules[mi].total_size = Some(0);
        }
        proof {
            lemma_fit_update(m0, mi as int, self.modules@[mi as int]);
            assert(self.modules@ =~= m0.update(mi as int, self.modules@[mi as int]));
        }
    }

    /// A module's scan failed.
    pub fn module_error(&mut self, mi: usize, error: String)
        requires
            old(self).wf(),
        ensures
            final(self).wf(),
            mi >= old(self)@.modules.len() ==> final(self)@ == old(self)@,
            mi < old(self)@.modules.len() ==> {
                &&& final(self)@.modules == old(self)@.modules.update(mi as int, types::ModuleState {
                    status: ModuleStatus::Error(error),
                    ..old(self)@.modules[mi as int]
                })
                &&& final(self)@ == (SessionView { modules: final(self)@.modules, ..old(self)@ })
            },
    {
        if mi >= self.modules.len() {
            return;
        }
        let ghost m0 = self.modules@;
        self.modules[mi].status = ModuleStatus::Error(error);
        proof {
            lemma_fit_update(m0, mi as int, self.modules@[mi as int]);
            assert(self.modules@ =~= m0.update(mi as int, self.modules@[mi as int]));
        }
    }

    /// The scan of every module ended.
    pub fn scan_complete(&mut self)
        ensures
            final(self)@ == (SessionView { scan_status: types::ScanStatus::Complete, ..old(self)@ }),
            final(self).wf() == old(self).wf(),
    {
        self.scan_status = types::ScanStatus::Complete;
    }

    /// An item of an opened directory was measured.
    pub fn drill_item_sized(&mut self, depth: usize, item_index: usize, size: u64)
        requires
            old(self).wf(),
        ensures
            final(self).wf(),
            final(self)@ == (SessionView {
                drill_levels: final(self)@.drill_levels,
                drill_cache: final(self)@.drill_cache,
                ..old(self)@
            }),
            crate::drill::item_resized(old(self).drill, final(self).drill, depth, item_index, size),
    {
        self.drill.update_item_size(depth, item_index, size);
    }
}


impl Session {
    /// Starts counting the overall total again: nothing counted.
    pub fn reset_count(&mut self)
        requires
            old(self).wf(),
        ensures
            final(self).wf(),
            final(self)@ == (SessionView { seen: final(self)@.seen, deduped_total: 0, ..old(self)@ }),
            final(self)@.seen.len() == 0,
    {
        self.seen_paths.clear();
        self.deduped_total = 0;
    }

    /// Counts item `ii` of module `mi` (resolved to `canonical`) toward the
    /// overall total again: a measured item whose resolved path was not
    /// counted yet adds its size and is not shared; one counted already is
    /// marked shared.
    pub fn recount_item(&mut self, mi: usize, ii: usize, canonical: String)
        requires
            old(self).wf(),
            mi < old(self)@.modules.len() && ii < old(self)@.modules[mi as int].items@.len() ==> match old(self)@.modules[mi as int].items@[ii as int].size {
                Some(x) => old(self)@.deduped_total + x <= u64::MAX,
                None => true,
            },
        ensures
            final(self).wf(),
            !(mi < old(self)@.modules.len() && ii < old(self)@.modules[mi as int].items@.len()
                && old(self)@.modules[mi as int].items@[ii as int].size is Some) ==> final(self)@ == old(self)@,
            (mi < old(self)@.modules.len() && ii < old(self)@.modules[mi as int].items@.len()) ==> match old(self)@.modules[mi as int].items@[ii as int].size {
                Some(x) => {
                    let it = old(self)@.modules[mi as int].items@[ii as int];
                    let is_new = !old(self).seen_paths.has(canonical@);
                    &&& final(self)@.deduped_total == if is_new { (old(self)@.deduped_total + x) as u64 } else { old(self)@.deduped_total }
                    &&& final(self)@.modules == old(self)@.modules.update(mi as int, types::ModuleState {
                        items: final(self)@.modules[mi as int].items,
                        ..old(self)@.modules[mi as int]
                    })
                    &&& final(self)@.modules[mi as int].items@ == old(self)@.modules[mi as int].items@.update(ii as int, Item { is_shared: !is_new, ..it })
                    &&& forall|q: Seq<char>| #[trigger] final(self).seen_paths.has(q) == (old(self).seen_paths.has(q) || crate::path::path_eq(q, canonical@))
                    &&& final(self)@ == (SessionView {
                        modules: final(self)@.modules,
                        deduped_total: final(self)@.deduped_total,
                        seen: final(self)@.seen,
                        ..old(self)@
                    })
                },
                None => true,
            },
    {
        if mi >= self.modules.len() || ii >= self.modules[mi].items.len() {
            return;
        }
        let size = match self.modules[mi].items[ii].size {
            Some(x) => x,
            None => return,
        };
        let ghost m0 = self.modules@;
        let ghost before = self.modules@[mi as int].items@;
        let is_new = self.seen_paths.insert(canonical);
        if is_new {
            self.deduped_total = self.deduped_total + size;
        }
        self.modules[mi].items[ii].is_shared = !is_new;
        proof {
            lemma_items_total_update(before, ii as int, self.modules@[mi as int].items@[ii as int]);
            assert(self.modules@[mi as int].items@ =~= before.update(ii as int, self.modules@[mi as int].items@[ii as int]));
            lemma_fit_update(m0, mi as int, self.modules@[mi as int]);
            assert(self.modules@ =~= m0.update(mi as int, self.modules@[mi as int]));
        }
    }
}
} // verus!
