//! What the lists show of a session besides the items themselves: the
//! checkbox of a path or a module, and the total shown in the title bar.

use vstd::prelude::*;
use crate::filter::{matches_structured_filter, restore_slot, risk_slot};
use crate::path::{is_proper_ancestor, is_proper_ancestor_exec, path_eq, path_eq_exec, path_starts_with, path_starts_with_exec};
use crate::ranking::{has_structured_filter, spec_has_structured_filter, spec_module_order};
use crate::session::Session;
use crate::text::chars_of;
use crate::types::{Item, ModuleState};
use crate::widgets::CheckState;

verus! {

// ---------------------------------------------------------------------------
// Checkboxes
// ---------------------------------------------------------------------------

/// The checkbox of path `p` given the selected paths `sel`: checked when
/// `p` or a directory above it is selected, partly checked when something
/// below it is selected, else empty.
pub open spec fn spec_check_state(sel: Seq<String>, p: Seq<char>) -> CheckState {
    if exists|i: int| 0 <= i < sel.len() && (path_eq(#[trigger] sel[i]@, p) || is_proper_ancestor(sel[i]@, p)) {
        CheckState::All
    } else if exists|i: int| 0 <= i < sel.len() && path_starts_with(#[trigger] sel[i]@, p) && !path_eq(sel[i]@, p) {
        CheckState::Partial
    } else {
        CheckState::Empty
    }
}

/// A selected path, and every path below a selected one, shows checked; a
/// path with nothing selected at it, above it or below it shows empty; a
/// path with something selected below it but nothing at or above it shows
/// partly checked.
pub proof fn lemma_check_state_cases(sel: Seq<String>, p: Seq<char>)
    ensures
        (exists|i: int| 0 <= i < sel.len() && path_eq(#[trigger] sel[i]@, p)) ==> spec_check_state(sel, p) == CheckState::All,
        (exists|i: int| 0 <= i < sel.len() && is_proper_ancestor(#[trigger] sel[i]@, p)) ==> spec_check_state(sel, p) == CheckState::All,
        (forall|i: int| 0 <= i < sel.len() ==> !path_starts_with(#[trigger] sel[i]@, p) && !is_proper_ancestor(sel[i]@, p))
            ==> spec_check_state(sel, p) == CheckState::Empty,
        (forall|i: int| 0 <= i < sel.len() ==> !path_eq(#[trigger] sel[i]@, p) && !is_proper_ancestor(sel[i]@, p))
            && (exists|i: int| 0 <= i < sel.len() && path_starts_with(#[trigger] sel[i]@, p) && !path_eq(sel[i]@, p))
            ==> spec_check_state(sel, p) == CheckState::Partial,
{
    assert forall|i: int| 0 <= i < sel.len() && path_eq(#[trigger] sel[i]@, p) implies path_starts_with(sel[i]@, p) by {
        assert(crate::path::components(sel[i]@).take(crate::path::components(p).len() as int) =~= crate::path::components(p));
    }
}

/// How many of `items` show a non-empty checkbox.
pub open spec fn marked_count(sel: Seq<String>, items: Seq<Item>) -> nat
    decreases items.len(),
{
    if items.len() == 0 {
        0
    } else {
        marked_count(sel, items.drop_last()) + if spec_check_state(sel, items.last().path@) != CheckState::Empty {
            1nat
        } else {
            0nat
        }
    }
}

/// The checkbox of a module: empty without items or with no marked item,
/// checked when every item is marked, else partly checked.
pub open spec fn spec_module_check_state(sel: Seq<String>, items: Seq<Item>) -> CheckState {
    if items.len() == 0 || marked_count(sel, items) == 0 {
        CheckState::Empty
    } else if marked_count(sel, items) == items.len() {
        CheckState::All
    } else {
        CheckState::Partial
    }
}

impl Session {
    /// The checkbox shown for `path`.
    pub fn check_state(&self, path: &str) -> (r: CheckState)
        ensures
            r == spec_check_state(self.selected_items.entries(), path@),
    {
        let sel = self.selected_items.paths();
        let pc = chars_of(path);
        let mut above = false;
        let mut below = false;
        let mut i: usize = 0;
        while i < sel.len()
            invariant
                i <= sel@.len(),
                sel@ == self.selected_items.entries(),
                pc@ == path@,
                above == exists|k: int| 0 <= k < i && (path_eq(#[trigger] sel@[k]@, path@) || is_proper_ancestor(sel@[k]@, path@)),
                below == exists|k: int| 0 <= k < i && path_starts_with(#[trigger] sel@[k]@, path@) && !path_eq(sel@[k]@, path@),
            decreases sel@.len() - i,
        {
            let sc = chars_of(sel[i].as_str());
            if path_eq_exec(sc.as_slice(), pc.as_slice()) || is_proper_ancestor_exec(sc.as_slice(), pc.as_slice()) {
                above = true;
            }
            if path_starts_with_exec(sc.as_slice(), pc.as_slice()) && !path_eq_exec(sc.as_slice(), pc.as_slice()) {
                below = true;
            }
            i = i + 1;
        }
        if above {
            CheckState::All
        } else if below {
            CheckState::Partial
        } else {
            CheckState::Empty
        }
    }

    /// The checkbox shown for module `idx`.
    pub fn module_check_state(&self, idx: usize) -> (r: CheckState)
        requires
            idx < self.modules@.len(),
        ensures
            r == spec_module_check_state(self.selected_items.entries(), self.modules@[idx as int].items@),
    {
        let items = &self.modules[idx].items;
        let ghost sel = self.selected_items.entries();
        let mut marked: usize = 0;
        let mut i: usize = 0;
        while i < items.len()
            invariant
                i <= items@.len(),
                items@ == self.modules@[idx as int].items@,
                sel == self.selected_items.entries(),
                marked == marked_count(sel, items@.take(i as int)),
                marked <= i,
            decreases items@.len() - i,
        {
            proof {
                assert(items@.take(i + 1).drop_last() =~= items@.take(i as int));
            }
            if self.check_state(items[i].path.as_str()) != CheckState::Empty {
                marked = marked + 1;
            }
            i = i + 1;
        }
        proof {
            assert(items@.take(items@.len() as int) =~= items@);
        }
        if items.len() == 0 || marked == 0 {
            CheckState::Empty
        } else if marked == items.len() {
            CheckState::All
        } else {
            CheckState::Partial
        }
    }
}

// ---------------------------------------------------------------------------
// The total under a structured filter
// ---------------------------------------------------------------------------

/// Whether an item passes the risk and restore toggles.
pub open spec fn passes(it: Item, filter_risk: [bool; 4], filter_restore: [bool; 2]) -> bool {
    filter_risk@[risk_slot(it.risk_level)] && filter_restore@[restore_slot(it.restore_kind)]
}

/// Whether an item can count toward the filtered total: it passes the
/// toggles and has a size.
pub open spec fn eligible(it: Item, filter_risk: [bool; 4], filter_restore: [bool; 2]) -> bool {
    passes(it, filter_risk, filter_restore) && it.size is Some
}

/// The items of every module, module after module.
pub open spec fn all_items(ms: Seq<ModuleState>) -> Seq<Item>
    decreases ms.len(),
{
    if ms.len() == 0 {
        Seq::empty()
    } else {
        all_items(ms.drop_last()) + ms.last().items@
    }
}

/// The sizes of the eligible items, each path counted at its first
/// eligible item only.
pub open spec fn filtered_total(items: Seq<Item>, filter_risk: [bool; 4], filter_restore: [bool; 2]) -> nat
    decreases items.len(),
{
    if items.len() == 0 {
        0
    } else {
        let k = items.len() - 1;
        let x = items[k];
        filtered_total(items.drop_last(), filter_risk, filter_restore)
            + if eligible(x, filter_risk, filter_restore) && !(exists|j: int| 0 <= j < k
                && eligible(#[trigger] items[j], filter_risk, filter_restore) && path_eq(items[j].path@, x.path@)) {
                x.size.unwrap() as nat
            } else {
                0nat
            }
    }
}

proof fn lemma_filtered_total_prefix(s: Seq<Item>, t: Seq<Item>, fr: [bool; 4], fs: [bool; 2])
    ensures
        filtered_total(s, fr, fs) <= filtered_total(s + t, fr, fs),
    decreases t.len(),
{
    if t.len() > 0 {
        lemma_filtered_total_prefix(s, t.drop_last(), fr, fs);
        assert((s + t).drop_last() =~= s + t.drop_last());
    }
}

proof fn lemma_all_items_concat(a: Seq<ModuleState>, b: Seq<ModuleState>)
    ensures
        all_items(a + b) == all_items(a) + all_items(b),
    decreases b.len(),
{
    if b.len() == 0 {
        assert(a + b =~= a);
        assert(all_items(a) + all_items(b) =~= all_items(a));
    } else {
        lemma_all_items_concat(a, b.drop_last());
        assert((a + b).drop_last() =~= a + b.drop_last());
        assert(all_items(a + b) =~= all_items(a) + all_items(b));
    }
}

/// The items up to item `j` of module `i` lead the items of every module.
proof fn lemma_items_prefix(ms: Seq<ModuleState>, i: int, j: int) -> (t: Seq<Item>)
    requires
        0 <= i < ms.len(),
        0 <= j <= ms[i].items@.len(),
    ensures
        all_items(ms) == all_items(ms.take(i)) + ms[i].items@.take(j) + t,
{
    let one = seq![ms[i]];
    assert(all_items(one) =~= ms[i].items@) by {
        assert(one.drop_last() =~= Seq::<ModuleState>::empty());
        assert(all_items(one.drop_last()) == Seq::<Item>::empty());
        assert(one.last() == ms[i]);
    }
    lemma_all_items_concat(ms.take(i), one);
    lemma_all_items_concat(ms.take(i) + one, ms.skip(i + 1));
    assert(ms =~= ms.take(i) + one + ms.skip(i + 1));
    let t = ms[i].items@.skip(j) + all_items(ms.skip(i + 1));
    assert(all_items(ms) =~= all_items(ms.take(i)) + ms[i].items@.take(j) + t);
    t
}

/// Whether some path of `seen` is `q`.
pub open spec fn seen_has(seen: Seq<Vec<char>>, q: Seq<char>) -> bool {
    exists|a: int| 0 <= a < seen.len() && path_eq(#[trigger] seen[a]@, q)
}

/// Whether some eligible item of `items` lies at `q`.
pub open spec fn eligible_at(items: Seq<Item>, q: Seq<char>, fr: [bool; 4], fs: [bool; 2]) -> bool {
    exists|b: int| 0 <= b < items.len() && eligible(#[trigger] items[b], fr, fs) && path_eq(items[b].path@, q)
}

pub(crate) proof fn lemma_seen_has_push(seen: Seq<Vec<char>>, v: Vec<char>, q: Seq<char>)
    ensures
        seen_has(seen.push(v), q) == (seen_has(seen, q) || path_eq(v@, q)),
{
    let s2 = seen.push(v);
    if seen_has(s2, q) {
        let a = choose|a: int| 0 <= a < s2.len() && path_eq(#[trigger] s2[a]@, q);
        if a < seen.len() {
            assert(s2[a] == seen[a]);
        }
    }
    if seen_has(seen, q) {
        let a = choose|a: int| 0 <= a < seen.len() && path_eq(#[trigger] seen[a]@, q);
        assert(s2[a] == seen[a]);
    }
    if path_eq(v@, q) {
        assert(s2[seen.len() as int] == v);
    }
}

proof fn lemma_eligible_at_push(p: Seq<Item>, x: Item, q: Seq<char>, fr: [bool; 4], fs: [bool; 2])
    ensures
        eligible_at(p.push(x), q, fr, fs) == (eligible_at(p, q, fr, fs) || (eligible(x, fr, fs) && path_eq(x.path@, q))),
{
    let p2 = p.push(x);
    if eligible_at(p2, q, fr, fs) {
        let b = choose|b: int| 0 <= b < p2.len() && eligible(#[trigger] p2[b], fr, fs) && path_eq(p2[b].path@, q);
        if b < p.len() {
            assert(p2[b] == p[b]);
        }
    }
    if eligible_at(p, q, fr, fs) {
        let b = choose|b: int| 0 <= b < p.len() && eligible(#[trigger] p[b], fr, fs) && path_eq(p[b].path@, q);
        assert(p2[b] == p[b]);
    }
    if eligible(x, fr, fs) && path_eq(x.path@, q) {
        assert(p2[p.len() as int] == x);
    }
}

proof fn lemma_eligible_at_same(p: Seq<Item>, a: Seq<char>, q: Seq<char>, fr: [bool; 4], fs: [bool; 2])
    requires
        eligible_at(p, a, fr, fs),
        path_eq(a, q),
    ensures
        eligible_at(p, q, fr, fs),
{
    let b = choose|b: int| 0 <= b < p.len() && eligible(#[trigger] p[b], fr, fs) && path_eq(p[b].path@, a);
}

proof fn lemma_filtered_total_push(p: Seq<Item>, x: Item, fr: [bool; 4], fs: [bool; 2])
    ensures
        filtered_total(p.push(x), fr, fs) == filtered_total(p, fr, fs) + if eligible(x, fr, fs) && !eligible_at(p, x.path@, fr, fs) {
            x.size.unwrap() as nat
        } else {
            0nat
        },
{
    let p2 = p.push(x);
    assert(p2.drop_last() =~= p);
    assert(p2[p.len() as int] == x);
    let k = p.len() as int;
    assert((exists|j: int| 0 <= j < k && eligible(#[trigger] p2[j], fr, fs) && path_eq(p2[j].path@, x.path@))
        == eligible_at(p, x.path@, fr, fs)) by {
        if exists|j: int| 0 <= j < k && eligible(#[trigger] p2[j], fr, fs) && path_eq(p2[j].path@, x.path@) {
            let j = choose|j: int| 0 <= j < k && eligible(#[trigger] p2[j], fr, fs) && path_eq(p2[j].path@, x.path@);
            assert(p2[j] == p[j]);
        }
        if eligible_at(p, x.path@, fr, fs) {
            let j = choose|j: int| 0 <= j < p.len() && eligible(#[trigger] p[j], fr, fs) && path_eq(p[j].path@, x.path@);
            assert(p2[j] == p[j]);
        }
    }
}

pub(crate) fn seen_contains(seen: &Vec<Vec<char>>, pc: &Vec<char>) -> (r: bool)
    ensures
        r == seen_has(seen@, pc@),
{
    let mut a: usize = 0;
    while a < seen.len()
        invariant
            a <= seen@.len(),
            forall|c: int| 0 <= c < a ==> !path_eq(#[trigger] seen@[c]@, pc@),
        decreases seen@.len() - a,
    {
        if path_eq_exec(seen[a].as_slice(), pc.as_slice()) {
            return true;
        }
        a = a + 1;
    }
    false
}

/// The total of the items passing the risk and restore toggles, each path
/// counted once.
pub fn filtered_deduped_total(s: &Session) -> (r: u64)
    requires
        filtered_total(all_items(s.modules@), s.filter_risk, s.filter_restore) <= u64::MAX,
    ensures
        r == filtered_total(all_items(s.modules@), s.filter_risk, s.filter_restore),
{
    let ghost fr = s.filter_risk;
    let ghost fs = s.filter_restore;
    let ghost ms = s.modules@;
    let mut seen: Vec<Vec<char>> = Vec::new();
    let mut total: u64 = 0;
    let mut i: usize = 0;
    while i < s.modules.len()
        invariant
            i <= ms.len(),
            ms == s.modules@,
            fr == s.filter_risk && fs == s.filter_restore,
            filtered_total(all_items(ms), fr, fs) <= u64::MAX,
            total == filtered_total(all_items(ms.take(i as int)), fr, fs),
            forall|q: Seq<char>| #[trigger] seen_has(seen@, q) == eligible_at(all_items(ms.take(i as int)), q, fr, fs),
        decreases ms.len() - i,
    {
        let items = &s.modules[i].items;
        let ghost base = all_items(ms.take(i as int));
        let mut j: usize = 0;
        proof {
            assert(base + items@.take(0) =~= base);
        }
        while j < items.len()
            invariant
                i < ms.len(),
                j <= items@.len(),
                ms == s.modules@,
                items@ == ms[i as int].items@,
                fr == s.filter_risk && fs == s.filter_restore,
                base == all_items(ms.take(i as int)),
                filtered_total(all_items(ms), fr, fs) <= u64::MAX,
                total == filtered_total(base + items@.take(j as int), fr, fs),
                forall|q: Seq<char>| #[trigger] seen_has(seen@, q) == eligible_at(base + items@.take(j as int), q, fr, fs),
            decreases items@.len() - j,
        {
            let ghost p = base + items@.take(j as int);
            let ghost p2 = base + items@.take(j + 1);
            let it = &items[j];
            proof {
                assert(p2 =~= p.push(items@[j as int]));
                lemma_filtered_total_push(p, *it, fr, fs);
                assert forall|q: Seq<char>| #[trigger] eligible_at(p2, q, fr, fs)
                    == (eligible_at(p, q, fr, fs) || (eligible(*it, fr, fs) && path_eq(it.path@, q))) by {
                    lemma_eligible_at_push(p, *it, q, fr, fs);
                }
            }
            let passes_toggles = matches_structured_filter(it.risk_level, it.restore_kind, &s.filter_risk, &s.filter_restore);
            if passes_toggles && it.size.is_some() {
                let pc = chars_of(it.path.as_str());
                let found = seen_contains(&seen, &pc);
                if !found {
                    let size = it.size.unwrap();
                    proof {
                        assert(seen_has(seen@, it.path@) == eligible_at(p, it.path@, fr, fs));
                        let t = lemma_items_prefix(ms, i as int, j + 1);
                        assert(p2 =~= base + ms[i as int].items@.take(j + 1));
                        lemma_filtered_total_prefix(p2, t, fr, fs);
                    }
                    total = total + size;
                    let ghost old_seen = seen@;
                    seen.push(pc);
                    proof {
                        assert forall|q: Seq<char>| #[trigger] seen_has(seen@, q) == eligible_at(p2, q, fr, fs) by {
                            lemma_seen_has_push(old_seen, pc, q);
                            assert(old_seen.push(pc) == seen@);
                        }
                    }
                } else {
                    proof {
                        assert(eligible_at(p, it.path@, fr, fs));
                        assert forall|q: Seq<char>| #[trigger] seen_has(seen@, q) == eligible_at(p2, q, fr, fs) by {
                            if path_eq(it.path@, q) {
                                lemma_eligible_at_same(p, it.path@, q, fr, fs);
                            }
                        }
                    }
                }
            } else {
                proof {
                    assert(!eligible(*it, fr, fs));
                    assert forall|q: Seq<char>| #[trigger] seen_has(seen@, q) == eligible_at(p2, q, fr, fs) by {
                        assert(eligible_at(p2, q, fr, fs) == eligible_at(p, q, fr, fs));
                    }
                }
            }
            j = j + 1;
        }
        proof {
            assert(items@.take(items@.len() as int) =~= items@);
            assert(ms.take(i + 1).drop_last() =~= ms.take(i as int));
            assert(ms.take(i + 1).last() == ms[i as int]);
            assert(all_items(ms.take(i + 1)) =~= base + items@);
        }
        i = i + 1;
    }
    proof {
        assert(ms.take(ms.len() as int) =~= ms);
    }
    total
}

/// The total shown in the title bar: the filtered total while a risk or
/// restore toggle is off, else the overall total.
pub fn shown_total(s: &Session) -> (r: u64)
    requires
        filtered_total(all_items(s.modules@), s.filter_risk, s.filter_restore) <= u64::MAX,
    ensures
        r == if spec_has_structured_filter(s.filter_risk, s.filter_restore) {
            filtered_total(all_items(s.modules@), s.filter_risk, s.filter_restore) as u64
        } else {
            s.deduped_total
        },
{
    if has_structured_filter(&s.filter_risk, &s.filter_restore) {
        filtered_deduped_total(s)
    } else {
        s.deduped_total
    }
}

// ---------------------------------------------------------------------------
// The rows of the module list
// ---------------------------------------------------------------------------

/// The icon of a module without one of its own (a folder glyph).
pub const DEFAULT_MODULE_ICON: &'static str = "\u{f07c}";

/// One row of the module list.
pub struct ModuleRow {
    /// The module's position in the session.
    pub index: usize,
    pub check: CheckState,
    /// The icon shown before the name (empty when icons are off).
    pub icon: String,
    pub name: String,
    /// How many items the module found.
    pub item_count: usize,
    /// The size shown: under an active risk or restore filter, that of the
    /// items that pass it.
    pub size: Option<u64>,
    /// Whether the row is dimmed: its size is zero.
    pub dimmed: bool,
    /// What stands in place of the size while the module is not ready:
    /// `calculating...`, or the error.
    pub status_text: Option<String>,
}

/// A module-list row as plain values.
pub struct ModuleRowView {
    pub index: usize,
    pub check: CheckState,
    pub icon: Seq<char>,
    pub name: Seq<char>,
    pub item_count: nat,
    pub size: Option<u64>,
    pub dimmed: bool,
    pub status_text: Option<Seq<char>>,
}

pub open spec fn module_row_view(r: ModuleRow) -> ModuleRowView {
    ModuleRowView {
        index: r.index,
        check: r.check,
        icon: r.icon@,
        name: r.name@,
        item_count: r.item_count as nat,
        size: r.size,
        dimmed: r.dimmed,
        status_text: match r.status_text {
            Some(t) => Some(t@),
            None => None,
        },
    }
}

/// The row of module `i` of session `s`.
pub open spec fn spec_module_row(s: Session, i: int, icons: bool) -> ModuleRowView {
    let ms = s@.modules[i];
    let size = crate::ranking::spec_module_size(ms, s@.filter_risk, s@.filter_restore);
    ModuleRowView {
        index: i as usize,
        check: spec_module_check_state(s.selected_items.entries(), ms.items@),
        icon: if !icons {
            Seq::empty()
        } else {
            match ms.module.icon {
                Some(c) => c@,
                None => "\u{f07c}"@,
            }
        },
        name: ms.module.name@,
        item_count: ms.items@.len(),
        size,
        dimmed: size == Some(0u64),
        status_text: match ms.status {
            crate::types::ModuleStatus::Loading => Some("calculating..."@),
            crate::types::ModuleStatus::Discovering => Some("calculating..."@),
            crate::types::ModuleStatus::Error(e) => Some("\u{26a0} "@ + e@),
            crate::types::ModuleStatus::Ready => None,
        },
    }
}

/// The rows of the module list: every module that the query and the
/// filters leave, in display order (zero-size modules included).
pub open spec fn spec_module_list_rows(s: Session, icons: bool) -> Seq<ModuleRowView> {
    let order = spec_module_order(s@.modules, s@.filter_query, s@.filter_risk, s@.filter_restore, false);
    Seq::new(order.len(), |k: int| spec_module_row(s, order[k] as int, icons))
}

impl Session {
    /// The rows of the module list, with icons when `icons` is on.
    pub fn module_list_rows(&self, icons: bool) -> (r: Vec<ModuleRow>)
        requires
            self.wf(),
        ensures
            r@.map_values(|x: ModuleRow| module_row_view(x)) == spec_module_list_rows(*self, icons),
    {
        let order = crate::ranking::all_sorted_module_indices(
            self.modules.as_slice(),
            self.filter_query.as_str(),
            &self.filter_risk,
            &self.filter_restore,
        );
        proof {
            crate::ranking::lemma_module_order_bound(self@.modules, self@.filter_query, self@.filter_risk, self@.filter_restore, false);
        }
        let ghost want = spec_module_list_rows(*self, icons);
        let mut rows: Vec<ModuleRow> = Vec::new();
        let mut k: usize = 0;
        while k < order.len()
            invariant
                k <= order@.len(),
                self.wf(),
                order@ == spec_module_order(self@.modules, self@.filter_query, self@.filter_risk, self@.filter_restore, false),
                forall|m: int| 0 <= m < order@.len() ==> (#[trigger] order@[m]) < self@.modules.len(),
                want == spec_module_list_rows(*self, icons),
                rows@.map_values(|x: ModuleRow| module_row_view(x)) == want.take(k as int),
            decreases order@.len() - k,
        {
            let i = order[k];
            let ms = &self.modules[i];
            assert(crate::ranking::sizes_fit(ms.items@));
            let size = crate::ranking::filtered_module_size(ms, &self.filter_risk, &self.filter_restore);
            let icon = if !icons {
                String::new()
            } else {
                match &ms.module.icon {
                    Some(c) => c.clone(),
                    None => DEFAULT_MODULE_ICON.to_owned(),
                }
            };
            let status_text = match &ms.status {
                crate::types::ModuleStatus::Loading => Some("calculating...".to_owned()),
                crate::types::ModuleStatus::Discovering => Some("calculating...".to_owned()),
                crate::types::ModuleStatus::Error(e) => {
                    let mut t = String::new();
                    crate::text::push_str(&mut t, "\u{26a0} ");
                    crate::text::push_str(&mut t, e.as_str());
                    Some(t)
                },
                crate::types::ModuleStatus::Ready => None,
            };
            let row = ModuleRow {
                index: i,
                check: self.module_check_state(i),
                icon,
                name: ms.module.name.clone(),
                item_count: ms.items.len(),
                size,
                dimmed: size == Some(0u64),
                status_text,
            };
            let ghost prev = rows@.map_values(|x: ModuleRow| module_row_view(x));
            rows.push(row);
            proof {
                assert(ms.module@.name == ms.module.name@);
                assert(module_row_view(row) == spec_module_row(*self, i as int, icons));
                assert(want[k as int] == spec_module_row(*self, order@[k as int] as int, icons));
                assert(rows@.map_values(|x: ModuleRow| module_row_view(x)) =~= prev.push(module_row_view(row)));
                assert(want.take(k + 1) =~= want.take(k as int).push(want[k as int]));
            }
            k = k + 1;
        }
        assert(want.take(order@.len() as int) =~= want);
        rows
    }
}

} // verus!
