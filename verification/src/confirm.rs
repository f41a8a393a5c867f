//! The list shown before a cleanup: every selected path once (a path below
//! another selected path is left out), described from the module item it
//! belongs to or, for an entry selected inside an opened directory, from
//! what is known of it; ordered by size, then by name.

use vstd::prelude::*;
use crate::cleaner::spec_removal_command;
use crate::assoc::assoc;
use crate::drill::{crumb, stack_meta, DrillState};
use crate::filter::{matches_filter, spec_matches_filter};
use crate::handlers::opt_view;
use crate::manifest::{RestoreKind, RiskLevel};
use crate::path::{file_name_of, path_eq, path_eq_exec};
use crate::ranking::size_first;
use crate::safety::SafetyLevel;
use crate::selection::PathSet;
use crate::session::Session;
use crate::text::{chars_of, lex_less, lex_lt, string_of};
use crate::types::{Item, ModuleState};
use crate::widgets::{dedup_paths, topmost, ConfirmItem};
use crate::marks::{all_items, lemma_seen_has_push, seen_contains, seen_has};

verus! {

/// A row of the confirmation list as plain values.
pub struct ConfirmView {
    pub name: Seq<char>,
    pub path: Seq<char>,
    pub size: Option<u64>,
    pub safety_level: SafetyLevel,
    pub restore_kind: RestoreKind,
    pub restore_steps: Option<Seq<char>>,
    pub risk_level: RiskLevel,
    pub removal_command: Option<Seq<char>>,
    pub reversible: bool,
    pub display_path: Option<Seq<char>>,
}

impl View for ConfirmItem {
    type V = ConfirmView;

    open spec fn view(&self) -> ConfirmView {
        ConfirmView {
            name: self.name@,
            path: self.path@,
            size: self.size,
            safety_level: self.safety_level,
            restore_kind: self.restore_kind,
            restore_steps: opt_view(self.restore_steps),
            risk_level: self.risk_level,
            removal_command: opt_view(self.removal_command),
            reversible: self.reversible,
            display_path: opt_view(self.display_path),
        }
    }
}

/// The row for a module item.
pub open spec fn item_row(it: Item) -> ConfirmView {
    ConfirmView {
        name: it.name@,
        path: it.path@,
        size: it.size,
        safety_level: it.safety_level,
        restore_kind: it.restore_kind,
        restore_steps: opt_view(it.restore_steps),
        risk_level: it.risk_level,
        removal_command: spec_removal_command(it.action),
        reversible: it.action is Path,
        display_path: opt_view(it.display_path),
    }
}

/// The row for a path selected inside an opened directory: what the drill
/// state knows of it (else unknown size, safe), default restore and risk.
pub open spec fn drill_row(p: Seq<char>, meta: Option<(Option<u64>, SafetyLevel)>) -> ConfirmView {
    let m = match meta {
        Some(x) => x,
        None => (None, SafetyLevel::Safe),
    };
    ConfirmView {
        name: crumb(p),
        path: p,
        size: m.0,
        safety_level: m.1,
        restore_kind: RestoreKind::Auto,
        restore_steps: None,
        risk_level: RiskLevel::Safe,
        removal_command: None,
        reversible: true,
        display_path: None,
    }
}

/// Whether `p` is among the kept paths.
pub open spec fn kept_has(kept: Seq<Seq<char>>, p: Seq<char>) -> bool {
    exists|k: int| 0 <= k < kept.len() && path_eq(#[trigger] kept[k], p)
}

/// Whether an item before item `k` lies at the same path.
pub open spec fn held_before(items: Seq<Item>, k: int) -> bool {
    exists|j: int| 0 <= j < k && path_eq(#[trigger] items[j].path@, items[k].path@)
}

/// The rows of the items at kept paths, one per path: the first item that
/// lies there.
pub open spec fn first_rows(items: Seq<Item>, kept: Seq<Seq<char>>) -> Seq<ConfirmView>
    decreases items.len(),
{
    if items.len() == 0 {
        Seq::empty()
    } else {
        first_rows(items.drop_last(), kept) + if kept_has(kept, items.last().path@)
            && !held_before(items, items.len() - 1) {
            seq![item_row(items.last())]
        } else {
            Seq::empty()
        }
    }
}

/// The rows of the module items at kept paths, module by module, each kept
/// path once (an item shared by several modules gives one row, from the
/// first module that holds it).
pub open spec fn module_rows(ms: Seq<ModuleState>, kept: Seq<Seq<char>>) -> Seq<ConfirmView> {
    first_rows(all_items(ms), kept)
}

/// Whether an item of `items` at a kept path lies at `q`.
pub open spec fn kept_item_at(items: Seq<Item>, kept: Seq<Seq<char>>, q: Seq<char>) -> bool {
    exists|j: int| 0 <= j < items.len() && kept_has(kept, #[trigger] items[j].path@) && path_eq(items[j].path@, q)
}

proof fn lemma_kept_item_at_push(p: Seq<Item>, x: Item, kept: Seq<Seq<char>>, q: Seq<char>)
    ensures
        kept_item_at(p.push(x), kept, q) == (kept_item_at(p, kept, q) || (kept_has(kept, x.path@) && path_eq(x.path@, q))),
{
    let p2 = p.push(x);
    if kept_item_at(p2, kept, q) {
        let j = choose|j: int| 0 <= j < p2.len() && kept_has(kept, #[trigger] p2[j].path@) && path_eq(p2[j].path@, q);
        if j < p.len() {
            assert(p2[j] == p[j]);
        }
    }
    if kept_item_at(p, kept, q) {
        let j = choose|j: int| 0 <= j < p.len() && kept_has(kept, #[trigger] p[j].path@) && path_eq(p[j].path@, q);
        assert(p2[j] == p[j]);
    }
    if kept_has(kept, x.path@) && path_eq(x.path@, q) {
        assert(p2[p.len() as int] == x);
    }
}

/// For an item at a kept path, an earlier item at its path is an earlier
/// item at a kept path.
proof fn lemma_held_before_kept(p: Seq<Item>, x: Item, kept: Seq<Seq<char>>)
    requires
        kept_has(kept, x.path@),
    ensures
        held_before(p.push(x), p.len() as int) == kept_item_at(p, kept, x.path@),
{
    let p2 = p.push(x);
    assert(p2[p.len() as int] == x);
    if held_before(p2, p.len() as int) {
        let j = choose|j: int| 0 <= j < p.len() && path_eq(#[trigger] p2[j].path@, p2[p.len() as int].path@);
        assert(p2[j] == p[j]);
        let k = choose|k: int| 0 <= k < kept.len() && path_eq(#[trigger] kept[k], x.path@);
        assert(path_eq(kept[k], p[j].path@));
        assert(kept_has(kept, p[j].path@));
    }
    if kept_item_at(p, kept, x.path@) {
        let j = choose|j: int| 0 <= j < p.len() && kept_has(kept, #[trigger] p[j].path@) && path_eq(p[j].path@, x.path@);
        assert(p2[j] == p[j]);
    }
}

/// Whether some module item has path `p`.
pub open spec fn in_modules(ms: Seq<ModuleState>, p: Seq<char>) -> bool {
    exists|i: int, j: int| 0 <= i < ms.len() && 0 <= j < ms[i].items@.len() && path_eq(#[trigger] ms[i].items@[j].path@, p)
}

/// The rows of the kept paths that are no module item, in order.
pub open spec fn drill_rows(ms: Seq<ModuleState>, kept: Seq<Seq<char>>, levels: Seq<crate::drill::DrillLevel>, cache: Seq<(String, (Option<u64>, SafetyLevel))>) -> Seq<ConfirmView>
    decreases kept.len(),
{
    if kept.len() == 0 {
        Seq::empty()
    } else {
        let p = kept.last();
        drill_rows(ms, kept.drop_last(), levels, cache) + if in_modules(ms, p) {
            Seq::empty()
        } else {
            seq![drill_row(p, match stack_meta(levels, p) {
                Some(m) => Some(m),
                None => assoc(cache, p),
            })]
        }
    }
}

/// Whether row `x` is listed before row `y`: by size (unknown first, then
/// the largest), then by name.
pub open spec fn row_before(x: ConfirmView, y: ConfirmView) -> bool {
    size_first(x.size, y.size) || (x.size == y.size && lex_lt(x.name, y.name))
}

/// `r` placed into `s` after every row not listed after it.
pub open spec fn insert_row(s: Seq<ConfirmView>, r: ConfirmView) -> Seq<ConfirmView>
    decreases s.len(),
{
    if s.len() == 0 {
        seq![r]
    } else if row_before(r, s[0]) {
        seq![r] + s
    } else {
        seq![s[0]] + insert_row(s.skip(1), r)
    }
}

/// The rows in listing order (a stable sort).
pub open spec fn sorted_rows(rs: Seq<ConfirmView>) -> Seq<ConfirmView>
    decreases rs.len(),
{
    if rs.len() == 0 {
        Seq::empty()
    } else {
        insert_row(sorted_rows(rs.drop_last()), rs.last())
    }
}

/// The confirmation list for the selection.
pub open spec fn spec_confirm_rows(ms: Seq<ModuleState>, selected: Seq<String>, levels: Seq<crate::drill::DrillLevel>, cache: Seq<(String, (Option<u64>, SafetyLevel))>) -> Seq<ConfirmView> {
    let kept = topmost(selected, selected.len() as int);
    sorted_rows(module_rows(ms, kept) + drill_rows(ms, kept, levels, cache))
}

proof fn lemma_insert_row_at(s: Seq<ConfirmView>, r: ConfirmView, j: int)
    requires
        0 <= j <= s.len(),
        forall|i: int| 0 <= i < j ==> !row_before(r, #[trigger] s[i]),
        j < s.len() ==> row_before(r, s[j]),
    ensures
        insert_row(s, r) == s.insert(j, r),
    decreases s.len(),
{
    if s.len() == 0 {
        assert(s.insert(j, r) =~= seq![r]);
    } else if j == 0 {
        assert(s.insert(0, r) =~= seq![r] + s);
    } else {
        let t = s.skip(1);
        assert forall|i: int| 0 <= i < j - 1 implies !row_before(r, #[trigger] t[i]) by {
            assert(t[i] == s[i + 1]);
        }
        if j - 1 < t.len() {
            assert(t[j - 1] == s[j]);
        }
        lemma_insert_row_at(t, r, j - 1);
        assert(s.insert(j, r) =~= seq![s[0]] + t.insert(j - 1, r));
    }
}

fn row_before_exec(x: &ConfirmItem, y: &ConfirmItem) -> (r: bool)
    ensures
        r == row_before(x@, y@),
{
    let sf = match (x.size, y.size) {
        (None, Some(_)) => true,
        (Some(p), Some(q)) => p > q,
        _ => false,
    };
    if sf {
        return true;
    }
    let same = match (x.size, y.size) {
        (Some(p), Some(q)) => p == q,
        (None, None) => true,
        _ => false,
    };
    if !same {
        return false;
    }
    let xn = chars_of(x.name.as_str());
    let yn = chars_of(y.name.as_str());
    lex_less(xn.as_slice(), yn.as_slice())
}

pub open spec fn rows(s: Seq<ConfirmItem>) -> Seq<ConfirmView> {
    s.map_values(|c: ConfirmItem| c@)
}

fn sort_rows(items: Vec<ConfirmItem>) -> (r: Vec<ConfirmItem>)
    ensures
        rows(r@) == sorted_rows(rows(items@)),
{
    let ghost all = rows(items@);
    let mut rest = items;
    let n = rest.len();
    let mut r: Vec<ConfirmItem> = Vec::new();
    let mut i: usize = 0;
    assert(rows(r@) =~= sorted_rows(all.take(0)));
    while i < n
        invariant
            n == all.len(),
            i <= n,
            rest@.len() == n - i,
            forall|k: int| 0 <= k < rest@.len() ==> #[trigger] rest@[k]@ == all[i + k],
            rows(r@) == sorted_rows(all.take(i as int)),
        decreases n - i,
    {
        let x = rest.remove(0);
        assert(x@ == all[i as int]);
        let mut j: usize = 0;
        while j < r.len() && !row_before_exec(&x, &r[j])
            invariant
                j <= r@.len(),
                forall|m: int| 0 <= m < j ==> !row_before(x@, #[trigger] rows(r@)[m]),
            decreases r@.len() - j,
        {
            j = j + 1;
        }
        let ghost before = rows(r@);
        proof {
            lemma_insert_row_at(before, x@, j as int);
            let t = all.take(i + 1);
            assert(t.drop_last() =~= all.take(i as int));
            assert(t.last() == x@);
        }
        r.insert(j, x);
        assert(rows(r@) =~= before.insert(j as int, all[i as int]));
        i = i + 1;
    }
    assert(all.take(n as int) =~= all);
    r
}

fn row_of_item(it: &Item) -> (r: ConfirmItem)
    ensures
        r@ == item_row(*it),
{
    ConfirmItem {
        name: it.name.clone(),
        path: it.path.clone(),
        size: it.size,
        safety_level: it.safety_level,
        restore_kind: it.restore_kind,
        restore_steps: crate::handlers::opt_clone_pub(&it.restore_steps),
        risk_level: it.risk_level,
        removal_command: it.action.removal_command(),
        reversible: it.reversible(),
        display_path: crate::handlers::opt_clone_pub(&it.display_path),
    }
}

fn kept_contains(kept: &Vec<String>, p: &str) -> (r: bool)
    ensures
        r == kept_has(kept@.map_values(|s: String| s@), p@),
{
    let ghost kv = kept@.map_values(|s: String| s@);
    let pc = chars_of(p);
    let mut k: usize = 0;
    while k < kept.len()
        invariant
            k <= kept@.len(),
            kv == kept@.map_values(|s: String| s@),
            pc@ == p@,
            forall|m: int| 0 <= m < k ==> !path_eq(#[trigger] kv[m], p@),
        decreases kept@.len() - k,
    {
        let kc = chars_of(kept[k].as_str());
        assert(kv[k as int] == kept@[k as int]@);
        if path_eq_exec(kc.as_slice(), pc.as_slice()) {
            return true;
        }
        k = k + 1;
    }
    false
}

fn in_modules_exec(modules: &[ModuleState], p: &str) -> (r: bool)
    ensures
        r == in_modules(modules@, p@),
{
    let pc = chars_of(p);
    let mut i: usize = 0;
    while i < modules.len()
        invariant
            i <= modules@.len(),
            pc@ == p@,
            forall|a: int, b: int| 0 <= a < i && 0 <= b < modules@[a].items@.len() ==> !path_eq(#[trigger] modules@[a].items@[b].path@, p@),
        decreases modules@.len() - i,
    {
        let mut j: usize = 0;
        while j < modules[i].items.len()
            invariant
                i < modules@.len(),
                j <= modules@[i as int].items@.len(),
                pc@ == p@,
                forall|b: int| 0 <= b < j ==> !path_eq(#[trigger] modules@[i as int].items@[b].path@, p@),
            decreases modules@[i as int].items@.len() - j,
        {
            let ic = chars_of(modules[i].items[j].path.as_str());
            if path_eq_exec(ic.as_slice(), pc.as_slice()) {
                return true;
            }
            j = j + 1;
        }
        i = i + 1;
    }
    false
}

/// No two rows lie at the same path.
pub open spec fn paths_apart(rs: Seq<ConfirmView>) -> bool {
    forall|a: int, b: int| 0 <= a < rs.len() && 0 <= b < rs.len() && a != b
        ==> !path_eq(#[trigger] rs[a].path, #[trigger] rs[b].path)
}

/// Whether some item of `items` before position `n` lies at path `p`.
pub open spec fn item_at(items: Seq<Item>, n: int, p: Seq<char>) -> bool {
    exists|j: int| 0 <= j < n && #[trigger] items[j].path@ == p
}

proof fn lemma_first_rows(items: Seq<Item>, kv: Seq<Seq<char>>)
    ensures
        forall|a: int| 0 <= a < first_rows(items, kv).len()
            ==> item_at(items, items.len() as int, #[trigger] first_rows(items, kv)[a].path),
        paths_apart(first_rows(items, kv)),
    decreases items.len(),
{
    if items.len() > 0 {
        let n = items.len() - 1;
        let d = items.drop_last();
        let x = items.last();
        lemma_first_rows(d, kv);
        let pr = first_rows(d, kv);
        let fr = first_rows(items, kv);
        assert forall|a: int| 0 <= a < pr.len() implies item_at(items, n, #[trigger] pr[a].path) by {
            assert(item_at(d, n, pr[a].path));
            let j = choose|j: int| 0 <= j < n && #[trigger] d[j].path@ == pr[a].path;
            assert(d[j] == items[j]);
        }
        if kept_has(kv, x.path@) && !held_before(items, n) {
            assert(fr =~= pr.push(item_row(x)));
            assert(items[n] == x);
            assert forall|a: int| 0 <= a < fr.len() implies item_at(items, items.len() as int, #[trigger] fr[a].path) by {
                if a < pr.len() {
                    assert(fr[a] == pr[a]);
                } else {
                    assert(fr[a].path == items[n].path@);
                }
            }
            assert forall|a: int| 0 <= a < pr.len() implies !path_eq(#[trigger] pr[a].path, x.path@) by {
                let j = choose|j: int| 0 <= j < n && #[trigger] items[j].path@ == pr[a].path;
            }
            assert forall|a: int, b: int| 0 <= a < fr.len() && 0 <= b < fr.len() && a != b
                implies !path_eq(#[trigger] fr[a].path, #[trigger] fr[b].path) by {
                if a < pr.len() && b < pr.len() {
                    assert(fr[a] == pr[a] && fr[b] == pr[b]);
                } else if a < pr.len() {
                    assert(fr[a] == pr[a]);
                } else if b < pr.len() {
                    assert(fr[b] == pr[b]);
                }
            }
        } else {
            assert(fr =~= pr);
        }
    }
}

proof fn lemma_first_rows_cover(items: Seq<Item>, kv: Seq<Seq<char>>)
    ensures
        forall|j: int| 0 <= j < items.len() && kept_has(kv, #[trigger] items[j].path@) ==> exists|a: int|
            0 <= a < first_rows(items, kv).len() && path_eq(first_rows(items, kv)[a].path, items[j].path@),
    decreases items.len(),
{
    if items.len() > 0 {
        let n = items.len() - 1;
        let d = items.drop_last();
        let x = items.last();
        lemma_first_rows_cover(d, kv);
        let pr = first_rows(d, kv);
        let fr = first_rows(items, kv);
        assert(items[n] == x);
        let added = kept_has(kv, x.path@) && !held_before(items, n);
        if added {
            assert(fr =~= pr.push(item_row(x)));
        } else {
            assert(fr =~= pr);
        }
        assert forall|j: int| 0 <= j < items.len() && kept_has(kv, #[trigger] items[j].path@) implies exists|a: int|
            0 <= a < fr.len() && path_eq(fr[a].path, items[j].path@) by {
            if j < n {
                assert(d[j] == items[j]);
                assert(kept_has(kv, d[j].path@));
                let a = choose|a: int| 0 <= a < pr.len() && path_eq(pr[a].path, d[j].path@);
                assert(fr[a] == pr[a]);
            } else if added {
                assert(fr[pr.len() as int].path == x.path@);
            } else {
                let j2 = choose|j2: int| 0 <= j2 < n && path_eq(#[trigger] items[j2].path@, items[n].path@);
                assert(d[j2] == items[j2]);
                let k = choose|k: int| 0 <= k < kv.len() && path_eq(#[trigger] kv[k], items[n].path@);
                assert(path_eq(kv[k], d[j2].path@));
                assert(kept_has(kv, d[j2].path@));
                let a = choose|a: int| 0 <= a < pr.len() && path_eq(pr[a].path, d[j2].path@);
            }
        }
    }
}

#[verifier::rlimit(100)]
proof fn lemma_drill_rows(ms: Seq<ModuleState>, kept: Seq<Seq<char>>, levels: Seq<crate::drill::DrillLevel>, cache: Seq<(String, (Option<u64>, SafetyLevel))>)
    ensures
        forall|a: int| 0 <= a < drill_rows(ms, kept, levels, cache).len() ==> exists|k: int| 0 <= k < kept.len()
            && (#[trigger] drill_rows(ms, kept, levels, cache)[a]).path == kept[k] && !in_modules(ms, kept[k]),
        (forall|a: int, b: int| 0 <= a < b < kept.len() ==> !path_eq(#[trigger] kept[a], #[trigger] kept[b]))
            ==> paths_apart(drill_rows(ms, kept, levels, cache)),
        forall|k: int| 0 <= k < kept.len() && !in_modules(ms, #[trigger] kept[k]) ==> exists|a: int|
            0 <= a < drill_rows(ms, kept, levels, cache).len() && drill_rows(ms, kept, levels, cache)[a].path == kept[k],
    decreases kept.len(),
{
    if kept.len() > 0 {
        let n = kept.len() - 1;
        let d = kept.drop_last();
        let p = kept.last();
        lemma_drill_rows(ms, d, levels, cache);
        let pr = drill_rows(ms, d, levels, cache);
        let dr = drill_rows(ms, kept, levels, cache);
        assert forall|k: int| 0 <= k < n implies #[trigger] d[k] == kept[k] by {}
        assert(kept[n] == p);
        let added = !in_modules(ms, p);
        if added {
            let row = drill_row(p, match stack_meta(levels, p) {
                Some(m) => Some(m),
                None => assoc(cache, p),
            });
            assert(dr =~= pr.push(row));
            assert(dr[pr.len() as int].path == p);
        } else {
            assert(dr =~= pr);
        }
        assert forall|a: int| 0 <= a < dr.len() implies exists|k: int| 0 <= k < kept.len()
            && (#[trigger] dr[a]).path == kept[k] && !in_modules(ms, kept[k]) by {
            if a < pr.len() {
                let k = choose|k: int| 0 <= k < d.len() && (#[trigger] pr[a]).path == d[k] && !in_modules(ms, d[k]);
                assert(d[k] == kept[k]);
                assert(dr[a] == pr[a]);
            } else {
                assert(dr[a].path == kept[n]);
            }
        }
        if forall|a: int, b: int| 0 <= a < b < kept.len() ==> !path_eq(#[trigger] kept[a], #[trigger] kept[b]) {
            assert forall|a: int, b: int| 0 <= a < b < d.len() implies !path_eq(#[trigger] d[a], #[trigger] d[b]) by {
                assert(d[a] == kept[a] && d[b] == kept[b]);
            }
            assert forall|a: int| 0 <= a < pr.len() implies !path_eq(#[trigger] pr[a].path, p) by {
                let k = choose|k: int| 0 <= k < d.len() && (#[trigger] pr[a]).path == d[k] && !in_modules(ms, d[k]);
                assert(d[k] == kept[k]);
                assert(!path_eq(kept[k], kept[n]));
            }
            assert forall|a: int, b: int| 0 <= a < dr.len() && 0 <= b < dr.len() && a != b
                implies !path_eq(#[trigger] dr[a].path, #[trigger] dr[b].path) by {
                if a < pr.len() && b < pr.len() {
                    assert(dr[a] == pr[a] && dr[b] == pr[b]);
                } else if a < pr.len() {
                    assert(dr[a] == pr[a]);
                } else if b < pr.len() {
                    assert(dr[b] == pr[b]);
                }
            }
        }
        assert forall|k: int| 0 <= k < kept.len() && !in_modules(ms, #[trigger] kept[k]) implies exists|a: int|
            0 <= a < dr.len() && dr[a].path == kept[k] by {
            if k < n {
                assert(d[k] == kept[k]);
                let a = choose|a: int| 0 <= a < pr.len() && pr[a].path == d[k];
                assert(dr[a] == pr[a]);
            } else {
                assert(dr[pr.len() as int].path == kept[k]);
            }
        }
    }
}

proof fn lemma_in_modules_all(ms: Seq<ModuleState>, p: Seq<char>)
    ensures
        in_modules(ms, p) == exists|j: int| 0 <= j < all_items(ms).len() && path_eq(#[trigger] all_items(ms)[j].path@, p),
    decreases ms.len(),
{
    if ms.len() > 0 {
        let d = ms.drop_last();
        let m = ms.last();
        lemma_in_modules_all(d, p);
        let ad = all_items(d);
        let al = all_items(ms);
        assert(al == ad + m.items@);
        if in_modules(ms, p) {
            let (i, j) = choose|i: int, j: int| 0 <= i < ms.len() && 0 <= j < ms[i].items@.len() && path_eq(#[trigger] ms[i].items@[j].path@, p);
            if i < d.len() {
                assert(d[i] == ms[i]);
                assert(in_modules(d, p));
                let k = choose|k: int| 0 <= k < ad.len() && path_eq(#[trigger] ad[k].path@, p);
                assert(al[k] == ad[k]);
            } else {
                assert(ms[i] == m);
                assert(al[ad.len() + j] == m.items@[j]);
            }
        }
        if exists|j: int| 0 <= j < al.len() && path_eq(#[trigger] al[j].path@, p) {
            let j = choose|j: int| 0 <= j < al.len() && path_eq(#[trigger] al[j].path@, p);
            if j < ad.len() {
                assert(al[j] == ad[j]);
                let (i, k) = choose|i: int, k: int| 0 <= i < d.len() && 0 <= k < d[i].items@.len() && path_eq(#[trigger] d[i].items@[k].path@, p);
                assert(d[i] == ms[i]);
            } else {
                assert(al[j] == m.items@[j - ad.len()]);
                assert(ms[ms.len() - 1] == m);
                assert(path_eq(ms[ms.len() - 1].items@[j - ad.len()].path@, p));
            }
        }
    }
}

/// `insert_row` places the row at some position.
proof fn lemma_insert_row_some(s: Seq<ConfirmView>, r: ConfirmView) -> (j: int)
    ensures
        0 <= j <= s.len(),
        insert_row(s, r) == s.insert(j, r),
    decreases s.len(),
{
    if s.len() == 0 {
        assert(s.insert(0, r) =~= seq![r]);
        0
    } else if row_before(r, s[0]) {
        assert(s.insert(0, r) =~= seq![r] + s);
        0
    } else {
        let t = s.skip(1);
        let j = lemma_insert_row_some(t, r);
        assert(s.insert(j + 1, r) =~= seq![s[0]] + t.insert(j, r));
        j + 1
    }
}

/// Whether some row of `rs` lies exactly at `p`.
pub open spec fn row_at(rs: Seq<ConfirmView>, p: Seq<char>) -> bool {
    exists|b: int| 0 <= b < rs.len() && #[trigger] rs[b].path == p
}

#[verifier::rlimit(100)]
proof fn lemma_sorted_rows_paths(rs: Seq<ConfirmView>)
    ensures
        forall|a: int| 0 <= a < sorted_rows(rs).len() ==> row_at(rs, #[trigger] sorted_rows(rs)[a].path),
        forall|b: int| 0 <= b < rs.len() ==> row_at(sorted_rows(rs), #[trigger] rs[b].path),
        paths_apart(rs) ==> paths_apart(sorted_rows(rs)),
    decreases rs.len(),
{
    if rs.len() > 0 {
        let n = rs.len() - 1;
        let d = rs.drop_last();
        let r = rs.last();
        lemma_sorted_rows_paths(d);
        let sd = sorted_rows(d);
        let j = lemma_insert_row_some(sd, r);
        let sr = sorted_rows(rs);
        assert(sr == sd.insert(j, r));
        assert(sr.len() == sd.len() + 1);
        assert(rs[n] == r);
        assert forall|a: int| 0 <= a < sd.len() implies row_at(rs, #[trigger] sd[a].path) by {
            assert(row_at(d, sd[a].path));
            let b = choose|b: int| 0 <= b < d.len() && #[trigger] d[b].path == sd[a].path;
            assert(rs[b] == d[b]);
        }
        assert forall|a: int| 0 <= a < sr.len() implies row_at(rs, #[trigger] sr[a].path) by {
            if a < j {
                assert(sr[a] == sd[a]);
            } else if a == j {
                assert(sr[a] == rs[n]);
            } else {
                assert(sr[a] == sd[a - 1]);
            }
        }
        assert forall|a: int| 0 <= a < sd.len() implies row_at(sr, #[trigger] sd[a].path) by {
            if a < j {
                assert(sr[a] == sd[a]);
            } else {
                assert(sr[a + 1] == sd[a]);
            }
        }
        assert forall|b: int| 0 <= b < rs.len() implies row_at(sr, #[trigger] rs[b].path) by {
            if b < n {
                assert(d[b] == rs[b]);
                assert(row_at(sd, d[b].path));
                let a = choose|a: int| 0 <= a < sd.len() && #[trigger] sd[a].path == d[b].path;
                assert(row_at(sr, sd[a].path));
            } else {
                assert(sr[j] == r);
            }
        }
        if paths_apart(rs) {
            assert forall|a: int, b: int| 0 <= a < d.len() && 0 <= b < d.len() && a != b
                implies !path_eq(#[trigger] d[a].path, #[trigger] d[b].path) by {
                assert(d[a] == rs[a] && d[b] == rs[b]);
            }
            assert forall|a: int| 0 <= a < sd.len() implies !path_eq(#[trigger] sd[a].path, r.path) by {
                assert(row_at(d, sd[a].path));
                let b = choose|b: int| 0 <= b < d.len() && #[trigger] d[b].path == sd[a].path;
                assert(d[b] == rs[b]);
                assert(!path_eq(rs[b].path, rs[n].path));
            }
            assert forall|a: int, b: int| 0 <= a < sr.len() && 0 <= b < sr.len() && a != b
                implies !path_eq(#[trigger] sr[a].path, #[trigger] sr[b].path) by {
                let ia = if a < j { a } else if a == j { -1 } else { a - 1 };
                let ib = if b < j { b } else if b == j { -1 } else { b - 1 };
                if ia >= 0 {
                    assert(sr[a] == sd[ia]);
                } else {
                    assert(sr[a] == r);
                }
                if ib >= 0 {
                    assert(sr[b] == sd[ib]);
                } else {
                    assert(sr[b] == r);
                }
                if ia >= 0 && ib >= 0 {
                    assert(ia != ib);
                } else if ia >= 0 {
                    assert(!path_eq(sd[ia].path, r.path));
                } else if ib >= 0 {
                    assert(!path_eq(sd[ib].path, r.path));
                }
            }
        }
    }
}

/// The confirmation list holds each kept selected path exactly once: no
/// two rows lie at the same path, every kept path has a row, and every row
/// lies at a kept path (kept: selected, with no other selected path above
/// it, see `dedup_paths`). An item that several modules share gives one row.
#[verifier::rlimit(100)]
pub proof fn lemma_confirm_rows_once(ms: Seq<ModuleState>, selected: Seq<String>, levels: Seq<crate::drill::DrillLevel>, cache: Seq<(String, (Option<u64>, SafetyLevel))>)
    ensures
        paths_apart(spec_confirm_rows(ms, selected, levels, cache)),
        forall|k: int| 0 <= k < topmost(selected, selected.len() as int).len() ==> exists|a: int|
            0 <= a < spec_confirm_rows(ms, selected, levels, cache).len()
            && path_eq(spec_confirm_rows(ms, selected, levels, cache)[a].path, #[trigger] topmost(selected, selected.len() as int)[k]),
        forall|a: int| 0 <= a < spec_confirm_rows(ms, selected, levels, cache).len() ==> kept_has(
            topmost(selected, selected.len() as int), #[trigger] spec_confirm_rows(ms, selected, levels, cache)[a].path),
{
    let kept = topmost(selected, selected.len() as int);
    let all = all_items(ms);
    let mr = module_rows(ms, kept);
    let dr = drill_rows(ms, kept, levels, cache);
    let pre = mr + dr;
    let rs = spec_confirm_rows(ms, selected, levels, cache);
    assert(rs == sorted_rows(pre));
    crate::widgets::lemma_dedup_paths_topmost(selected);
    lemma_first_rows(all, kept);
    lemma_first_rows_cover(all, kept);
    lemma_drill_rows(ms, kept, levels, cache);
    // Every module row lies at a kept path that a module item holds.
    assert forall|a: int| 0 <= a < mr.len() implies kept_has(kept, #[trigger] mr[a].path) && in_modules(ms, mr[a].path) by {
        let j = choose|j: int| 0 <= j < all.len() && #[trigger] all[j].path@ == mr[a].path;
        lemma_first_rows_kept(all, kept, a);
        lemma_in_modules_all(ms, mr[a].path);
    }
    assert forall|a: int| 0 <= a < pre.len() implies kept_has(kept, #[trigger] pre[a].path) by {
        if a < mr.len() {
            assert(pre[a] == mr[a]);
        } else {
            assert(pre[a] == dr[a - mr.len()]);
            let k = choose|k: int| 0 <= k < kept.len() && (#[trigger] dr[a - mr.len()]).path == kept[k] && !in_modules(ms, kept[k]);
            assert(path_eq(kept[k], pre[a].path));
        }
    }
    assert(paths_apart(pre)) by {
        assert forall|a: int, b: int| 0 <= a < pre.len() && 0 <= b < pre.len() && a != b
            implies !path_eq(#[trigger] pre[a].path, #[trigger] pre[b].path) by {
            if a < mr.len() && b < mr.len() {
                assert(pre[a] == mr[a] && pre[b] == mr[b]);
            } else if a >= mr.len() && b >= mr.len() {
                assert(pre[a] == dr[a - mr.len()] && pre[b] == dr[b - mr.len()]);
            } else {
                let x = if a < mr.len() { a } else { b };
                let y = if a < mr.len() { b } else { a };
                assert(pre[x] == mr[x]);
                assert(pre[y] == dr[y - mr.len()]);
                let k = choose|k: int| 0 <= k < kept.len() && (#[trigger] dr[y - mr.len()]).path == kept[k] && !in_modules(ms, kept[k]);
                assert(in_modules(ms, mr[x].path));
                lemma_in_modules_all(ms, mr[x].path);
                lemma_in_modules_all(ms, kept[k]);
                if path_eq(pre[x].path, pre[y].path) {
                    let j = choose|j: int| 0 <= j < all.len() && path_eq(#[trigger] all[j].path@, mr[x].path);
                    assert(path_eq(all[j].path@, kept[k]));
                }
            }
        }
    }
    lemma_sorted_rows_paths(pre);
    assert forall|k: int| 0 <= k < kept.len() implies exists|a: int| 0 <= a < rs.len()
        && path_eq(rs[a].path, #[trigger] kept[k]) by {
        lemma_in_modules_all(ms, kept[k]);
        let b: int = if in_modules(ms, kept[k]) {
            let j = choose|j: int| 0 <= j < all.len() && path_eq(#[trigger] all[j].path@, kept[k]);
            assert(path_eq(kept[k], all[j].path@));
            assert(kept_has(kept, all[j].path@));
            let a = choose|a: int| 0 <= a < mr.len() && path_eq(mr[a].path, all[j].path@);
            assert(pre[a] == mr[a]);
            a
        } else {
            let a = choose|a: int| 0 <= a < dr.len() && dr[a].path == kept[k];
            assert(pre[mr.len() + a] == dr[a]);
            mr.len() + a
        };
        assert(path_eq(pre[b].path, kept[k]));
        assert(row_at(rs, pre[b].path));
        let a = choose|a: int| 0 <= a < rs.len() && #[trigger] rs[a].path == pre[b].path;
    }
    assert forall|a: int| 0 <= a < rs.len() implies kept_has(kept, #[trigger] rs[a].path) by {
        assert(row_at(pre, rs[a].path));
        let b = choose|b: int| 0 <= b < pre.len() && #[trigger] pre[b].path == rs[a].path;
        assert(kept_has(kept, pre[b].path));
    }
}

/// A module row lies at a kept path held by an item.
proof fn lemma_first_rows_kept(items: Seq<Item>, kv: Seq<Seq<char>>, a: int)
    requires
        0 <= a < first_rows(items, kv).len(),
    ensures
        kept_has(kv, first_rows(items, kv)[a].path),
        exists|j: int| 0 <= j < items.len() && #[trigger] items[j].path@ == first_rows(items, kv)[a].path,
    decreases items.len(),
{
    let n = items.len() - 1;
    let d = items.drop_last();
    let pr = first_rows(d, kv);
    let fr = first_rows(items, kv);
    if kept_has(kv, items.last().path@) && !held_before(items, n) {
        assert(fr =~= pr.push(item_row(items.last())));
    } else {
        assert(fr =~= pr);
    }
    if a < pr.len() {
        assert(fr[a] == pr[a]);
        lemma_first_rows_kept(d, kv, a);
        let j = choose|j: int| 0 <= j < d.len() && #[trigger] d[j].path@ == pr[a].path;
        assert(d[j] == items[j]);
    } else {
        assert(items[n] == items.last());
    }
}

/// Each row comes no later than the next: no row is listed before the one
/// above it.
pub open spec fn rows_in_order(rs: Seq<ConfirmView>) -> bool {
    forall|a: int| 0 <= a < rs.len() - 1 ==> !row_before(#[trigger] rs[a + 1], rs[a])
}

proof fn lemma_row_before_asym(x: ConfirmView, y: ConfirmView)
    ensures
        row_before(x, y) ==> !row_before(y, x),
{
    crate::text::lemma_lex_asym(x.name, y.name);
}

proof fn lemma_insert_row_ordered(s: Seq<ConfirmView>, r: ConfirmView)
    requires
        rows_in_order(s),
    ensures
        rows_in_order(insert_row(s, r)),
        insert_row(s, r).len() == s.len() + 1,
        insert_row(s, r)[0] == r || (s.len() > 0 && insert_row(s, r)[0] == s[0]),
    decreases s.len(),
{
    if s.len() == 0 {
    } else if row_before(r, s[0]) {
        let t = seq![r] + s;
        assert(insert_row(s, r) == t);
        lemma_row_before_asym(r, s[0]);
        assert forall|a: int| 0 <= a < t.len() - 1 implies !row_before(#[trigger] t[a + 1], t[a]) by {
            if a > 0 {
                assert(t[a] == s[a - 1] && t[a + 1] == s[(a - 1) + 1]);
                assert(!row_before(s[(a - 1) + 1], s[a - 1]));
            } else {
                assert(t[0] == r && t[1] == s[0]);
            }
        }
    } else {
        let tl = s.skip(1);
        assert forall|a: int| 0 <= a < tl.len() - 1 implies !row_before(#[trigger] tl[a + 1], tl[a]) by {
            assert(tl[a] == s[a + 1] && tl[a + 1] == s[(a + 1) + 1]);
            assert(!row_before(s[(a + 1) + 1], s[a + 1]));
        }
        lemma_insert_row_ordered(tl, r);
        let ins = insert_row(tl, r);
        let t = seq![s[0]] + ins;
        assert(insert_row(s, r) == t);
        assert forall|a: int| 0 <= a < t.len() - 1 implies !row_before(#[trigger] t[a + 1], t[a]) by {
            if a == 0 {
                assert(t[1] == ins[0] && t[0] == s[0]);
                if ins[0] != r {
                    assert(ins[0] == tl[0]);
                    assert(tl[0] == s[0int + 1]);
                    assert(!row_before(s[0int + 1], s[0]));
                }
            } else {
                assert(t[a] == ins[a - 1] && t[a + 1] == ins[(a - 1) + 1]);
                assert(!row_before(ins[(a - 1) + 1], ins[a - 1]));
            }
        }
    }
}

proof fn lemma_sorted_rows_ordered(rs: Seq<ConfirmView>)
    ensures
        rows_in_order(sorted_rows(rs)),
    decreases rs.len(),
{
    if rs.len() > 0 {
        lemma_sorted_rows_ordered(rs.drop_last());
        lemma_insert_row_ordered(sorted_rows(rs.drop_last()), rs.last());
    }
}

/// The confirmation list is in listing order: unknown sizes first, then the
/// largest, ties by name; no row comes before the one above it.
pub proof fn lemma_confirm_rows_in_order(ms: Seq<ModuleState>, selected: Seq<String>, levels: Seq<crate::drill::DrillLevel>, cache: Seq<(String, (Option<u64>, SafetyLevel))>)
    ensures
        rows_in_order(spec_confirm_rows(ms, selected, levels, cache)),
{
    let kept = topmost(selected, selected.len() as int);
    lemma_sorted_rows_ordered(module_rows(ms, kept) + drill_rows(ms, kept, levels, cache));
}

/// The rows of the confirmation list for the selected paths, one per kept
/// path (kept: no other selected path lies above it): the first module item
/// at it, in module order, then
/// the kept paths that are no module item, described from the drill state;
/// all sorted by size (unknown sizes first, then the largest), then name.
pub fn collect_selected_items(modules: &[ModuleState], selected: &PathSet, drill: &DrillState) -> (r: Vec<ConfirmItem>)
    requires
        drill.wf(),
    ensures
        rows(r@) == spec_confirm_rows(modules@, selected.entries(), drill.levels(), drill.cache()),
{
    let kept = dedup_paths(selected.paths().as_slice());
    let ghost kv = kept@.map_values(|s: String| s@);
    let mut out: Vec<ConfirmItem> = Vec::new();
    let mut seen: Vec<Vec<char>> = Vec::new();
    let mut i: usize = 0;
    assert(modules@.take(0) =~= Seq::<ModuleState>::empty());
    while i < modules.len()
        invariant
            i <= modules@.len(),
            kv == kept@.map_values(|s: String| s@),
            rows(out@) == first_rows(all_items(modules@.take(i as int)), kv),
            forall|q: Seq<char>| #[trigger] seen_has(seen@, q) == kept_item_at(all_items(modules@.take(i as int)), kv, q),
        decreases modules@.len() - i,
    {
        let ghost base = all_items(modules@.take(i as int));
        let items = &modules[i].items;
        let mut j: usize = 0;
        assert(base + items@.take(0) =~= base);
        while j < items.len()
            invariant
                j <= items@.len(),
                kv == kept@.map_values(|s: String| s@),
                rows(out@) == first_rows(base + items@.take(j as int), kv),
                forall|q: Seq<char>| #[trigger] seen_has(seen@, q) == kept_item_at(base + items@.take(j as int), kv, q),
            decreases items@.len() - j,
        {
            let ghost p = base + items@.take(j as int);
            let ghost p2 = base + items@.take(j + 1);
            let it = &items[j];
            proof {
                assert(p2 =~= p.push(*it));
                assert(p2.drop_last() =~= p);
                assert(p2.last() == *it);
                assert forall|q: Seq<char>| #[trigger] kept_item_at(p2, kv, q)
                    == (kept_item_at(p, kv, q) || (kept_has(kv, it.path@) && path_eq(it.path@, q))) by {
                    lemma_kept_item_at_push(p, *it, kv, q);
                }
            }
            let ghost prev = rows(out@);
            if kept_contains(&kept, it.path.as_str()) {
                let pc = chars_of(it.path.as_str());
                let found = seen_contains(&seen, &pc);
                proof {
                    lemma_held_before_kept(p, *it, kv);
                }
                if !found {
                    let row = row_of_item(it);
                    out.push(row);
                    assert(rows(out@) =~= prev.push(row@));
                    let ghost s0 = seen@;
                    seen.push(pc);
                    proof {
                        assert forall|q: Seq<char>| #[trigger] seen_has(seen@, q) == kept_item_at(p2, kv, q) by {
                            lemma_seen_has_push(s0, pc, q);
                            assert(s0.push(pc) == seen@);
                        }
                    }
                } else {
                    proof {
                        assert forall|q: Seq<char>| #[trigger] seen_has(seen@, q) == kept_item_at(p2, kv, q) by {
                            if path_eq(it.path@, q) {
                                let j2 = choose|j2: int| 0 <= j2 < p.len() && kept_has(kv, #[trigger] p[j2].path@)
                                    && path_eq(p[j2].path@, it.path@);
                                assert(kept_item_at(p, kv, q));
                            }
                        }
                    }
                    assert(rows(out@) =~= first_rows(p2, kv));
                }
            }
            assert(rows(out@) =~= first_rows(p2, kv));
            j = j + 1;
        }
        proof {
            assert(items@.take(items@.len() as int) =~= items@);
            let t = modules@.take(i + 1);
            assert(t.drop_last() =~= modules@.take(i as int));
            assert(t.last() == modules@[i as int]);
            assert(all_items(t) =~= base + items@);
        }
        i = i + 1;
    }
    assert(modules@.take(modules@.len() as int) =~= modules@);
    let ghost first = rows(out@);
    let mut k: usize = 0;
    while k < kept.len()
        invariant
            k <= kept@.len(),
            kv == kept@.map_values(|s: String| s@),
            drill.wf(),
            rows(out@) == first + drill_rows(modules@, kv.take(k as int), drill.levels(), drill.cache()),
        decreases kept@.len() - k,
    {
        let ghost t = kv.take(k + 1);
        proof {
            assert(t.drop_last() =~= kv.take(k as int));
            assert(t.last() == kept@[k as int]@);
        }
        let ghost prev = rows(out@);
        let p = &kept[k];
        if !in_modules_exec(modules, p.as_str()) {
            let meta = match drill.lookup_meta(p.as_str()) {
                Some(m) => m,
                None => (None, SafetyLevel::Safe),
            };
            let pc = chars_of(p.as_str());
            let name = match file_name_of(pc.as_slice()) {
                Some(f) => string_of(f.as_slice()),
                None => p.clone(),
            };
            let row = ConfirmItem {
                name,
                path: p.clone(),
                size: meta.0,
                safety_level: meta.1,
                restore_kind: RestoreKind::Auto,
                restore_steps: None,
                risk_level: RiskLevel::Safe,
                removal_command: None,
                reversible: true,
                display_path: None,
            };
            out.push(row);
            assert(rows(out@) =~= prev.push(row@));
        }
        assert(rows(out@) =~= first + drill_rows(modules@, t, drill.levels(), drill.cache()));
        k = k + 1;
    }
    assert(kv.take(kv.len() as int) =~= kv);
    sort_rows(out)
}

/// How many rows of the list have a name matching the query.
pub open spec fn matching_rows(rs: Seq<ConfirmView>, query: Seq<char>) -> Seq<ConfirmView>
    decreases rs.len(),
{
    if rs.len() == 0 {
        Seq::empty()
    } else {
        matching_rows(rs.drop_last(), query) + if spec_matches_filter(rs.last().name, Seq::empty(), query) {
            seq![rs.last()]
        } else {
            Seq::empty()
        }
    }
}

/// The rows shown for the query: the rows whose name matches it, in order.
pub fn visible_confirm_items(items: Vec<ConfirmItem>, query: &str) -> (r: Vec<ConfirmItem>)
    ensures
        rows(r@) == matching_rows(rows(items@), query@),
{
    let ghost all = rows(items@);
    let empty: Vec<String> = Vec::new();
    assert(empty@ =~= Seq::<String>::empty());
    let mut rest = items;
    let n = rest.len();
    let mut r: Vec<ConfirmItem> = Vec::new();
    let mut i: usize = 0;
    assert(rows(r@) =~= matching_rows(all.take(0), query@));
    while i < n
        invariant
            n == all.len(),
            i <= n,
            empty@ == Seq::<String>::empty(),
            rest@.len() == n - i,
            forall|k: int| 0 <= k < rest@.len() ==> #[trigger] rest@[k]@ == all[i + k],
            rows(r@) == matching_rows(all.take(i as int), query@),
        decreases n - i,
    {
        let x = rest.remove(0);
        assert(x@ == all[i as int]);
        let ghost t = all.take(i + 1);
        proof {
            assert(t.drop_last() =~= all.take(i as int));
            assert(t.last() == x@);
        }
        let ghost prev = rows(r@);
        if matches_filter(x.name.as_str(), empty.as_slice(), query) {
            r.push(x);
            assert(rows(r@) =~= prev.push(all[i as int]));
        }
        i = i + 1;
    }
    assert(all.take(n as int) =~= all);
    r
}

/// How many rows of the confirmation list the session's filter query
/// leaves visible.
pub fn filtered_confirm_item_count(s: &Session) -> (r: usize)
    requires
        s.drill.wf(),
    ensures
        r == matching_rows(
            spec_confirm_rows(s.modules@, s.selected_items.entries(), s.drill.levels(), s.drill.cache()),
            s.filter_query@,
        ).len(),
{
    let all = collect_selected_items(s.modules.as_slice(), &s.selected_items, &s.drill);
    let shown = visible_confirm_items(all, s.filter_query.as_str());
    shown.len()
}

} // verus!
