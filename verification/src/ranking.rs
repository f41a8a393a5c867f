//! The orders in which the lists of the interface show their rows: modules,
//! the items of a module (optionally grouped by target), the items of an
//! opened directory, and all items at once, each filtered by the query and
//! the risk / restore toggles and sorted by size.

use vstd::prelude::*;
use crate::filter::{matches_filter, matches_structured_filter, spec_matches_filter, risk_slot, restore_slot};
use crate::types::{Item, ModuleState};

verus! {

// ---------------------------------------------------------------------------
// Sort keys
// ---------------------------------------------------------------------------

/// What a row is sorted by: a group first (ascending), then its size
/// (unknown sizes first, then the largest first), then two positions
/// (ascending) that keep the sort stable.
#[derive(Debug, Clone, Copy, PartialEq, Eq, Structural)]
pub struct RankKey {
    pub group: u64,
    pub size: Option<u64>,
    pub a: usize,
    pub b: usize,
}

/// Whether size `x` is listed before size `y`: unknown first, then larger.
pub open spec fn size_first(x: Option<u64>, y: Option<u64>) -> bool {
    match (x, y) {
        (None, Some(_)) => true,
        (Some(p), Some(q)) => p > q,
        _ => false,
    }
}

/// Whether key `x` is listed before key `y`.
pub open spec fn rank_lt(x: RankKey, y: RankKey) -> bool {
    x.group < y.group || (x.group == y.group && (size_first(x.size, y.size) || (x.size == y.size && (x.a < y.a
        || (x.a == y.a && x.b < y.b)))))
}

/// Whether no key is listed before a key ahead of it.
pub open spec fn ranks_sorted(s: Seq<RankKey>) -> bool {
    forall|i: int, j: int| 0 <= i < j < s.len() ==> !rank_lt(#[trigger] s[j], #[trigger] s[i])
}

/// `k` placed into `s` after every key not listed after it.
pub open spec fn insert_rank(s: Seq<RankKey>, k: RankKey) -> Seq<RankKey>
    decreases s.len(),
{
    if s.len() == 0 {
        seq![k]
    } else if rank_lt(k, s[0]) {
        seq![k] + s
    } else {
        seq![s[0]] + insert_rank(s.skip(1), k)
    }
}

/// The keys in the order rows are listed: each key inserted in turn.
pub open spec fn sorted_ranks(ks: Seq<RankKey>) -> Seq<RankKey>
    decreases ks.len(),
{
    if ks.len() == 0 {
        Seq::empty()
    } else {
        insert_rank(sorted_ranks(ks.drop_last()), ks.last())
    }
}

proof fn lemma_insert_rank_at(s: Seq<RankKey>, k: RankKey, j: int)
    requires
        0 <= j <= s.len(),
        forall|i: int| 0 <= i < j ==> !rank_lt(k, #[trigger] s[i]),
        j < s.len() ==> rank_lt(k, s[j]),
    ensures
        insert_rank(s, k) == s.insert(j, k),
    decreases s.len(),
{
    if s.len() == 0 {
        assert(s.insert(j, k) =~= seq![k]);
    } else if j == 0 {
        assert(s.insert(0, k) =~= seq![k] + s);
    } else {
        let t = s.skip(1);
        assert forall|i: int| 0 <= i < j - 1 implies !rank_lt(k, #[trigger] t[i]) by {
            assert(t[i] == s[i + 1]);
        }
        if j - 1 < t.len() {
            assert(t[j - 1] == s[j]);
        }
        lemma_insert_rank_at(t, k, j - 1);
        assert(s.insert(j, k) =~= seq![s[0]] + t.insert(j - 1, k));
    }
}

proof fn lemma_rank_order(x: RankKey, y: RankKey, z: RankKey)
    ensures
        !(rank_lt(x, y) && rank_lt(y, x)),
        rank_lt(x, y) && rank_lt(y, z) ==> rank_lt(x, z),
{
}

/// The listed order is sorted and holds the same keys.
pub proof fn lemma_sorted_ranks(ks: Seq<RankKey>)
    ensures
        ranks_sorted(sorted_ranks(ks)),
        sorted_ranks(ks).to_multiset() == ks.to_multiset(),
        sorted_ranks(ks).len() == ks.len(),
    decreases ks.len(),
{
    if ks.len() > 0 {
        let prev = sorted_ranks(ks.drop_last());
        let k = ks.last();
        lemma_sorted_ranks(ks.drop_last());
        let j = choose_insert_pos(prev, k);
        lemma_insert_rank_at(prev, k, j);
        let after = prev.insert(j, k);
        vstd::seq_lib::to_multiset_insert(prev, j, k);
        vstd::seq_lib::to_multiset_build(ks.drop_last(), k);
        assert(ks.drop_last().push(k) =~= ks);
        assert forall|a: int, b: int| 0 <= a < b < after.len() implies !rank_lt(#[trigger] after[b], #[trigger] after[a]) by {
            if a < j && b == j {
            } else if a == j && b > j {
                lemma_rank_order(prev[b - 1], k, prev[j]);
                if b - 1 > j {
                    lemma_rank_order(prev[b - 1], k, prev[j]);
                    assert(!rank_lt(prev[b - 1], prev[j]));
                }
            } else {
                let a0 = if a < j { a } else { a - 1 };
                let b0 = if b < j { b } else { b - 1 };
                assert(after[a] == prev[a0]);
                assert(after[b] == prev[b0]);
            }
        }
    } else {
        assert(ks =~= sorted_ranks(ks));
    }
}

/// Where `k` goes in `s`: before the first key listed after it.
proof fn choose_insert_pos(s: Seq<RankKey>, k: RankKey) -> (j: int)
    ensures
        0 <= j <= s.len(),
        forall|i: int| 0 <= i < j ==> !rank_lt(k, #[trigger] s[i]),
        j < s.len() ==> rank_lt(k, s[j]),
    decreases s.len(),
{
    if s.len() == 0 {
        0
    } else if rank_lt(k, s[0]) {
        0
    } else {
        let t = s.skip(1);
        let j = choose_insert_pos(t, k);
        assert forall|i: int| 0 <= i < j + 1 implies !rank_lt(k, #[trigger] s[i]) by {
            if i > 0 {
                assert(s[i] == t[i - 1]);
            }
        }
        if j < t.len() {
            assert(s[j + 1] == t[j]);
        }
        j + 1
    }
}

fn size_first_exec(x: Option<u64>, y: Option<u64>) -> (r: bool)
    ensures
        r == size_first(x, y),
{
    match (x, y) {
        (None, Some(_)) => true,
        (Some(p), Some(q)) => p > q,
        _ => false,
    }
}

fn rank_lt_exec(x: &RankKey, y: &RankKey) -> (r: bool)
    ensures
        r == rank_lt(*x, *y),
{
    if x.group != y.group {
        return x.group < y.group;
    }
    if size_first_exec(x.size, y.size) {
        return true;
    }
    if x.size != y.size {
        return false;
    }
    x.a < y.a || (x.a == y.a && x.b < y.b)
}

/// The keys in listing order.
pub fn sort_ranks(keys: &Vec<RankKey>) -> (r: Vec<RankKey>)
    ensures
        r@ == sorted_ranks(keys@),
{
    let mut r: Vec<RankKey> = Vec::new();
    let mut i: usize = 0;
    while i < keys.len()
        invariant
            i <= keys@.len(),
            r@ == sorted_ranks(keys@.take(i as int)),
        decreases keys@.len() - i,
    {
        let k = keys[i];
        let mut j: usize = 0;
        while j < r.len() && !rank_lt_exec(&k, &r[j])
            invariant
                j <= r@.len(),
                forall|m: int| 0 <= m < j ==> !rank_lt(k, #[trigger] r@[m]),
            decreases r@.len() - j,
        {
            j = j + 1;
        }
        proof {
            lemma_insert_rank_at(r@, k, j as int);
            let t = keys@.take(i + 1);
            assert(t.drop_last() =~= keys@.take(i as int));
            assert(t.last() == k);
        }
        r.insert(j, k);
        i = i + 1;
    }
    assert(keys@.take(keys@.len() as int) =~= keys@);
    r
}

// ---------------------------------------------------------------------------
// Filters and sizes
// ---------------------------------------------------------------------------

/// Whether any risk or restore toggle is off.
pub open spec fn spec_has_structured_filter(filter_risk: [bool; 4], filter_restore: [bool; 2]) -> bool {
    !(filter_risk@[0] && filter_risk@[1] && filter_risk@[2] && filter_risk@[3] && filter_restore@[0]
        && filter_restore@[1])
}

/// Whether any risk or restore toggle is off.
pub fn has_structured_filter(filter_risk: &[bool; 4], filter_restore: &[bool; 2]) -> (r: bool)
    ensures
        r == spec_has_structured_filter(*filter_risk, *filter_restore),
{
    !(filter_risk[0] && filter_risk[1] && filter_risk[2] && filter_risk[3] && filter_restore[0] && filter_restore[1])
}

/// Whether an item passes the toggles.
pub open spec fn item_passes(it: Item, filter_risk: [bool; 4], filter_restore: [bool; 2]) -> bool {
    filter_risk@[risk_slot(it.risk_level)] && filter_restore@[restore_slot(it.restore_kind)]
}

/// Sum of the known sizes of the items that pass the toggles, and whether
/// there is any.
pub open spec fn passing_sizes(items: Seq<Item>, filter_risk: [bool; 4], filter_restore: [bool; 2]) -> (nat, bool)
    decreases items.len(),
{
    if items.len() == 0 {
        (0, false)
    } else {
        let prev = passing_sizes(items.drop_last(), filter_risk, filter_restore);
        let it = items.last();
        if item_passes(it, filter_risk, filter_restore) && it.size is Some {
            ((prev.0 + it.size->0) as nat, true)
        } else {
            prev
        }
    }
}

/// The size shown for a module: its total; with the toggles active, the
/// sum of its passing items' known sizes when it has any.
pub open spec fn spec_module_size(ms: ModuleState, filter_risk: [bool; 4], filter_restore: [bool; 2]) -> Option<u64> {
    if !spec_has_structured_filter(filter_risk, filter_restore) {
        ms.total_size
    } else {
        let p = passing_sizes(ms.items@, filter_risk, filter_restore);
        if p.1 {
            Some(p.0 as u64)
        } else {
            ms.total_size
        }
    }
}

/// Whether the sizes of every module's items fit in a `u64`, however they
/// are filtered.
pub open spec fn sizes_fit(items: Seq<Item>) -> bool {
    passing_sizes(items, [true, true, true, true], [true, true]).0 <= u64::MAX
}

proof fn lemma_passing_le(items: Seq<Item>, filter_risk: [bool; 4], filter_restore: [bool; 2])
    ensures
        passing_sizes(items, filter_risk, filter_restore).0 <= passing_sizes(items, [true, true, true, true], [true, true]).0,
    decreases items.len(),
{
    if items.len() > 0 {
        lemma_passing_le(items.drop_last(), filter_risk, filter_restore);
        let all = [true, true, true, true];
        let alr = [true, true];
        assert(item_passes(items.last(), all, alr)) by {
            assert(all@[risk_slot(items.last().risk_level)]);
            assert(alr@[restore_slot(items.last().restore_kind)]);
        }
    }
}

/// The size shown for a module.
pub fn filtered_module_size(ms: &ModuleState, filter_risk: &[bool; 4], filter_restore: &[bool; 2]) -> (r: Option<u64>)
    requires
        sizes_fit(ms.items@),
    ensures
        r == spec_module_size(*ms, *filter_risk, *filter_restore),
{
    if !has_structured_filter(filter_risk, filter_restore) {
        return ms.total_size;
    }
    let mut total: u64 = 0;
    let mut any_sized = false;
    let mut i: usize = 0;
    proof {
        lemma_passing_le(ms.items@, *filter_risk, *filter_restore);
    }
    while i < ms.items.len()
        invariant
            i <= ms.items@.len(),
            sizes_fit(ms.items@),
            passing_sizes(ms.items@, *filter_risk, *filter_restore).0 <= u64::MAX,
            (total as nat, any_sized) == passing_sizes(ms.items@.take(i as int), *filter_risk, *filter_restore),
        decreases ms.items@.len() - i,
    {
        let ghost t = ms.items@.take(i + 1);
        proof {
            assert(t.drop_last() =~= ms.items@.take(i as int));
            assert(t.last() == ms.items@[i as int]);
            lemma_passing_prefix_le(ms.items@, i + 1, *filter_risk, *filter_restore);
        }
        let it = &ms.items[i];
        if matches_structured_filter(it.risk_level, it.restore_kind, filter_risk, filter_restore) {
            match it.size {
                Some(s) => {
                    total = total + s;
                    any_sized = true;
                },
                None => {},
            }
        }
        i = i + 1;
    }
    assert(ms.items@.take(ms.items@.len() as int) =~= ms.items@);
    if any_sized {
        Some(total)
    } else {
        ms.total_size
    }
}

proof fn lemma_passing_prefix_le(items: Seq<Item>, n: int, filter_risk: [bool; 4], filter_restore: [bool; 2])
    requires
        0 <= n <= items.len(),
    ensures
        passing_sizes(items.take(n), filter_risk, filter_restore).0 <= passing_sizes(items, filter_risk, filter_restore).0,
    decreases items.len() - n,
{
    if n < items.len() {
        lemma_passing_prefix_le(items, n + 1, filter_risk, filter_restore);
        let t = items.take(n + 1);
        assert(t.drop_last() =~= items.take(n));
    } else {
        assert(items.take(n) =~= items);
    }
}

/// Whether a module has a row under the toggles: always without them, and
/// while it has no items yet; otherwise when one of its items passes.
pub open spec fn spec_module_passes(ms: ModuleState, filter_risk: [bool; 4], filter_restore: [bool; 2]) -> bool {
    !spec_has_structured_filter(filter_risk, filter_restore) || ms.items@.len() == 0
        || exists|i: int| 0 <= i < ms.items@.len() && item_passes(#[trigger] ms.items@[i], filter_risk, filter_restore)
}

/// Under an active risk or restore toggle, a module with items is listed
/// exactly when some item of it, at any position, has both its risk and
/// its restore toggle on; with no toggle off, or no items yet, it is listed.
pub proof fn lemma_module_passes_any_item(ms: ModuleState, filter_risk: [bool; 4], filter_restore: [bool; 2])
    ensures
        spec_has_structured_filter(filter_risk, filter_restore) && ms.items@.len() > 0 ==> (spec_module_passes(ms, filter_risk, filter_restore)
            <==> exists|i: int| 0 <= i < ms.items@.len() && filter_risk@[risk_slot((#[trigger] ms.items@[i]).risk_level)]
                && filter_restore@[restore_slot(ms.items@[i].restore_kind)]),
        !spec_has_structured_filter(filter_risk, filter_restore) || ms.items@.len() == 0 ==> spec_module_passes(ms, filter_risk, filter_restore),
{
}

fn module_passes(ms: &ModuleState, filter_risk: &[bool; 4], filter_restore: &[bool; 2]) -> (r: bool)
    ensures
        r == spec_module_passes(*ms, *filter_risk, *filter_restore),
        spec_has_structured_filter(*filter_risk, *filter_restore) && ms.items@.len() > 0 ==> (r <==> exists|i: int|
            0 <= i < ms.items@.len() && filter_risk@[risk_slot((#[trigger] ms.items@[i]).risk_level)]
                && filter_restore@[restore_slot(ms.items@[i].restore_kind)]),
{
    proof {
        lemma_module_passes_any_item(*ms, *filter_risk, *filter_restore);
    }
    if !has_structured_filter(filter_risk, filter_restore) || ms.items.len() == 0 {
        return true;
    }
    let mut i: usize = 0;
    while i < ms.items.len()
        invariant
            i <= ms.items@.len(),
            forall|k: int| 0 <= k < i ==> !item_passes(#[trigger] ms.items@[k], *filter_risk, *filter_restore),
        decreases ms.items@.len() - i,
    {
        if matches_structured_filter(ms.items[i].risk_level, ms.items[i].restore_kind, filter_risk, filter_restore) {
            return true;
        }
        i = i + 1;
    }
    false
}

// ---------------------------------------------------------------------------
// Modules
// ---------------------------------------------------------------------------

/// The sort key of module `i`: empty modules (0 B) last, then by size,
/// then by position.
pub open spec fn module_key(ms: ModuleState, i: int, filter_risk: [bool; 4], filter_restore: [bool; 2]) -> RankKey {
    let size = spec_module_size(ms, filter_risk, filter_restore);
    RankKey { group: if size == Some(0u64) { 1 } else { 0 }, size, a: i as usize, b: 0 }
}

/// Whether module `ms` has a row for the query and the toggles; with
/// `navigable`, 0 B modules have none.
pub open spec fn module_listed(ms: ModuleState, query: Seq<char>, filter_risk: [bool; 4], filter_restore: [bool; 2], navigable: bool) -> bool {
    spec_matches_filter(ms.module.name@, ms.module.tags@, query) && spec_module_passes(ms, filter_risk, filter_restore)
        && (!navigable || spec_module_size(ms, filter_risk, filter_restore) != Some(0u64))
}

/// The keys of the listed modules, in module order.
pub open spec fn module_keys(ms: Seq<ModuleState>, query: Seq<char>, filter_risk: [bool; 4], filter_restore: [bool; 2], navigable: bool) -> Seq<RankKey>
    decreases ms.len(),
{
    if ms.len() == 0 {
        Seq::empty()
    } else {
        let prev = module_keys(ms.drop_last(), query, filter_risk, filter_restore, navigable);
        if module_listed(ms.last(), query, filter_risk, filter_restore, navigable) {
            prev.push(module_key(ms.last(), ms.len() - 1, filter_risk, filter_restore))
        } else {
            prev
        }
    }
}

/// The module positions in listing order.
pub open spec fn spec_module_order(ms: Seq<ModuleState>, query: Seq<char>, filter_risk: [bool; 4], filter_restore: [bool; 2], navigable: bool) -> Seq<usize> {
    sorted_ranks(module_keys(ms, query, filter_risk, filter_restore, navigable)).map_values(|k: RankKey| k.a)
}

/// Whether every module's item sizes fit in a `u64`.
pub open spec fn all_sizes_fit(ms: Seq<ModuleState>) -> bool {
    forall|i: int| 0 <= i < ms.len() ==> sizes_fit(#[trigger] ms[i].items@)
}

fn keys_to_positions(ks: &Vec<RankKey>) -> (r: Vec<usize>)
    ensures
        r@ == ks@.map_values(|k: RankKey| k.a),
{
    let mut r: Vec<usize> = Vec::new();
    let mut i: usize = 0;
    while i < ks.len()
        invariant
            i <= ks@.len(),
            r@ == ks@.take(i as int).map_values(|k: RankKey| k.a),
        decreases ks@.len() - i,
    {
        r.push(ks[i].a);
        assert(ks@.take(i + 1).map_values(|k: RankKey| k.a) =~= ks@.take(i as int).map_values(|k: RankKey| k.a).push(ks@[i as int].a));
        i = i + 1;
    }
    assert(ks@.take(ks@.len() as int) =~= ks@);
    r
}

fn module_order(modules: &[ModuleState], query: &str, filter_risk: &[bool; 4], filter_restore: &[bool; 2], navigable: bool) -> (r: Vec<usize>)
    requires
        all_sizes_fit(modules@),
    ensures
        r@ == spec_module_order(modules@, query@, *filter_risk, *filter_restore, navigable),
{
    let mut keys: Vec<RankKey> = Vec::new();
    let mut i: usize = 0;
    while i < modules.len()
        invariant
            i <= modules@.len(),
            all_sizes_fit(modules@),
            keys@ == module_keys(modules@.take(i as int), query@, *filter_risk, *filter_restore, navigable),
        decreases modules@.len() - i,
    {
        let ghost t = modules@.take(i + 1);
        proof {
            assert(t.drop_last() =~= modules@.take(i as int));
            assert(t.last() == modules@[i as int]);
            assert(sizes_fit(modules@[i as int].items@));
        }
        let ms = &modules[i];
        let size = filtered_module_size(ms, filter_risk, filter_restore);
        let listed = matches_filter(ms.module.name.as_str(), ms.module.tags.as_slice(), query)
            && module_passes(ms, filter_risk, filter_restore)
            && (!navigable || size != Some(0u64));
        if listed {
            let group: u64 = if size == Some(0u64) { 1 } else { 0 };
            keys.push(RankKey { group, size, a: i, b: 0 });
        }
        i = i + 1;
    }
    assert(modules@.take(modules@.len() as int) =~= modules@);
    let sorted = sort_ranks(&keys);
    keys_to_positions(&sorted)
}

/// The modules that can be navigated to, in listing order: those matching
/// the query and the toggles, without 0 B modules, by size (unknown sizes
/// first, then the largest), then by position.
pub fn sorted_module_indices(modules: &[ModuleState], query: &str, filter_risk: &[bool; 4], filter_restore: &[bool; 2]) -> (r: Vec<usize>)
    requires
        all_sizes_fit(modules@),
    ensures
        r@ == spec_module_order(modules@, query@, *filter_risk, *filter_restore, true),
{
    module_order(modules, query, filter_risk, filter_restore, true)
}

/// Every module that matches the query and the toggles, in listing order,
/// with 0 B modules last.
pub fn all_sorted_module_indices(modules: &[ModuleState], query: &str, filter_risk: &[bool; 4], filter_restore: &[bool; 2]) -> (r: Vec<usize>)
    requires
        all_sizes_fit(modules@),
    ensures
        r@ == spec_module_order(modules@, query@, *filter_risk, *filter_restore, false),
{
    module_order(modules, query, filter_risk, filter_restore, false)
}

// ---------------------------------------------------------------------------
// Items of a module or of an opened directory
// ---------------------------------------------------------------------------

/// The keys of the items whose name matches the query, in item order.
pub open spec fn item_keys(items: Seq<Item>, query: Seq<char>) -> Seq<RankKey>
    decreases items.len(),
{
    if items.len() == 0 {
        Seq::empty()
    } else {
        let prev = item_keys(items.drop_last(), query);
        if spec_matches_filter(items.last().name@, Seq::empty(), query) {
            prev.push(RankKey { group: 0, size: items.last().size, a: (items.len() - 1) as usize, b: 0 })
        } else {
            prev
        }
    }
}

/// The item positions in listing order: matching items by size (unknown
/// first, then the largest), then by position.
pub open spec fn spec_item_order(items: Seq<Item>, query: Seq<char>) -> Seq<usize> {
    sorted_ranks(item_keys(items, query)).map_values(|k: RankKey| k.a)
}

/// The items whose name matches the query, by size, unknown sizes first.
pub fn sorted_item_indices(items: &[Item], query: &str) -> (r: Vec<usize>)
    ensures
        r@ == spec_item_order(items@, query@),
{
    let mut keys: Vec<RankKey> = Vec::new();
    let mut i: usize = 0;
    let empty: Vec<String> = Vec::new();
    assert(empty@ =~= Seq::<String>::empty());
    while i < items.len()
        invariant
            i <= items@.len(),
            empty@ == Seq::<String>::empty(),
            keys@ == item_keys(items@.take(i as int), query@),
        decreases items@.len() - i,
    {
        let ghost t = items@.take(i + 1);
        proof {
            assert(t.drop_last() =~= items@.take(i as int));
            assert(t.last() == items@[i as int]);
        }
        if matches_filter(items[i].name.as_str(), empty.as_slice(), query) {
            keys.push(RankKey { group: 0, size: items[i].size, a: i, b: 0 });
        }
        i = i + 1;
    }
    assert(items@.take(items@.len() as int) =~= items@);
    let sorted = sort_ranks(&keys);
    keys_to_positions(&sorted)
}


// ---------------------------------------------------------------------------
// Items grouped by target
// ---------------------------------------------------------------------------

/// The target description of an item, as plain text.
pub open spec fn desc_of(it: Item) -> Option<Seq<char>> {
    crate::handlers::opt_view(it.target_description)
}

/// The distinct target descriptions of the listed items, in the order they
/// first appear.
pub open spec fn group_descs(items: Seq<Item>, order: Seq<usize>) -> Seq<Option<Seq<char>>>
    decreases order.len(),
{
    if order.len() == 0 {
        Seq::empty()
    } else {
        let prev = group_descs(items, order.drop_last());
        let d = desc_of(items[order.last() as int]);
        if prev.contains(d) {
            prev
        } else {
            prev.push(d)
        }
    }
}

/// The listed items of the group with description `d`, in listing order.
pub open spec fn group_members(items: Seq<Item>, order: Seq<usize>, d: Option<Seq<char>>) -> Seq<usize>
    decreases order.len(),
{
    if order.len() == 0 {
        Seq::empty()
    } else {
        let prev = group_members(items, order.drop_last(), d);
        if desc_of(items[order.last() as int]) == d {
            prev.push(order.last())
        } else {
            prev
        }
    }
}

/// The total of the known sizes of the given items.
pub open spec fn size_total(items: Seq<Item>, members: Seq<usize>) -> nat
    decreases members.len(),
{
    if members.len() == 0 {
        0
    } else {
        size_total(items, members.drop_last()) + match items[members.last() as int].size {
            Some(s) => s as nat,
            None => 0nat,
        }
    }
}

/// A total as a `u64`, held at the largest value when it exceeds it.
pub open spec fn capped(n: nat) -> u64 {
    if n > u64::MAX {
        u64::MAX
    } else {
        n as u64
    }
}

/// The sort keys of the groups: by total size, largest first, ties in the
/// order the groups first appear.
pub open spec fn group_keys(items: Seq<Item>, order: Seq<usize>) -> Seq<RankKey> {
    let ds = group_descs(items, order);
    Seq::new(ds.len(), |g: int| RankKey {
        group: 0,
        size: Some(capped(size_total(items, group_members(items, order, ds[g])))),
        a: g as usize,
        b: 0,
    })
}

/// The groups' members one group after the other, with where each group
/// starts.
pub open spec fn concat_groups(groups: Seq<Seq<usize>>) -> (Seq<usize>, Seq<usize>)
    decreases groups.len(),
{
    if groups.len() == 0 {
        (Seq::empty(), Seq::empty())
    } else {
        let prev = concat_groups(groups.drop_last());
        (prev.0 + groups.last(), prev.1.push(prev.0.len() as usize))
    }
}

/// The display order of a module's items and where each target group
/// starts: with more than one group, the groups by total size (largest
/// first), each in listing order; else the listing order and no groups.
pub open spec fn spec_display_order(items: Seq<Item>, query: Seq<char>) -> (Seq<usize>, Seq<usize>) {
    let order = spec_item_order(items, query);
    let ds = group_descs(items, order);
    if ds.len() > 1 {
        let ranked = sorted_ranks(group_keys(items, order));
        concat_groups(Seq::new(ranked.len(), |g: int| group_members(items, order, ds[ranked[g].a as int])))
    } else {
        (order, Seq::empty())
    }
}

proof fn lemma_item_keys_bound(items: Seq<Item>, query: Seq<char>)
    ensures
        forall|k: int| 0 <= k < item_keys(items, query).len() ==> (#[trigger] item_keys(items, query)[k]).a < items.len(),
    decreases items.len(),
{
    if items.len() > 0 {
        lemma_item_keys_bound(items.drop_last(), query);
    }
}

pub proof fn lemma_item_order_bound(items: Seq<Item>, query: Seq<char>)
    ensures
        forall|k: int| 0 <= k < spec_item_order(items, query).len() ==> (#[trigger] spec_item_order(items, query)[k]) < items.len(),
{
    let ks = item_keys(items, query);
    let sk = sorted_ranks(ks);
    lemma_item_keys_bound(items, query);
    lemma_sorted_ranks(ks);
    assert forall|k: int| 0 <= k < spec_item_order(items, query).len() implies (#[trigger] spec_item_order(items, query)[k]) < items.len() by {
        let key = sk[k];
        assert(sk.contains(key));
        sk.to_multiset_ensures();
        ks.to_multiset_ensures();
        assert(sk.to_multiset().count(key) > 0);
        assert(ks.to_multiset().count(key) > 0);
        assert(ks.contains(key));
        let j = choose|j: int| 0 <= j < ks.len() && ks[j] == key;
        assert(ks[j].a < items.len());
    }
}

fn same_desc(a: &Option<String>, b: &Option<String>) -> (r: bool)
    ensures
        r == (crate::handlers::opt_view(*a) == crate::handlers::opt_view(*b)),
{
    match (a, b) {
        (Some(x), Some(y)) => crate::text::str_eq(x.as_str(), y.as_str()),
        (None, None) => true,
        _ => false,
    }
}

/// The display order of a module's items and the positions where its
/// target groups start: grouped by target description when there is more
/// than one group (groups by total size, largest first; ties in order of
/// first appearance), else the plain listing order with no groups.
pub fn display_order_item_indices(items: &[Item], query: &str) -> (r: (Vec<usize>, Vec<usize>))
    ensures
        (r.0@, r.1@) == spec_display_order(items@, query@),
{
    let order = sorted_item_indices(items, query);
    proof {
        lemma_item_order_bound(items@, query@);
    }
    let ghost ov = order@;
    let mut descs: Vec<Option<String>> = Vec::new();
    let mut members: Vec<Vec<usize>> = Vec::new();
    let mut k: usize = 0;
    while k < order.len()
        invariant
            k <= order@.len(),
            order@ == ov,
            forall|m: int| 0 <= m < ov.len() ==> (#[trigger] ov[m]) < items@.len(),
            descs@.len() == members@.len(),
            descs@.map_values(|d: Option<String>| crate::handlers::opt_view(d)) == group_descs(items@, ov.take(k as int)),
            forall|g: int| 0 <= g < members@.len() ==> (#[trigger] members@[g])@ == group_members(items@, ov.take(k as int), crate::handlers::opt_view(descs@[g])),
        decreases order@.len() - k,
    {
        let idx = order[k];
        let ghost t = ov.take(k + 1);
        let ghost dv = descs@.map_values(|d: Option<String>| crate::handlers::opt_view(d));
        proof {
            assert(t.drop_last() =~= ov.take(k as int));
            assert(t.last() == idx);
        }
        let d = &items[idx].target_description;
        let mut g: usize = 0;
        while g < descs.len() && !same_desc(&descs[g], d)
            invariant
                g <= descs@.len(),
                forall|m: int| 0 <= m < g ==> crate::handlers::opt_view(#[trigger] descs@[m]) != crate::handlers::opt_view(*d),
            decreases descs@.len() - g,
        {
            g = g + 1;
        }
        if g < descs.len() {
            let ghost before = members@;
            members[g].push(idx);
            proof {
                lemma_group_descs_distinct(items@, ov.take(k as int));
                assert(dv[g as int] == crate::handlers::opt_view(*d));
                assert(dv.contains(crate::handlers::opt_view(*d)));
                assert forall|h: int| 0 <= h < members@.len() implies (#[trigger] members@[h])@ == group_members(items@, t, crate::handlers::opt_view(descs@[h])) by {
                    if h != g {
                        assert(members@[h] == before[h]);
                        if crate::handlers::opt_view(descs@[h]) == crate::handlers::opt_view(*d) {
                            assert(false) by {
                                assert(dv[h] == dv[g as int]);
                            }
                        }
                    }
                }
            }
        } else {
            let ghost before = members@;
            let dc = crate::handlers::opt_clone_pub(d);
            descs.push(dc);
            let mut one: Vec<usize> = Vec::new();
            one.push(idx);
            members.push(one);
            proof {
                assert(!dv.contains(crate::handlers::opt_view(*d))) by {
                    if dv.contains(crate::handlers::opt_view(*d)) {
                        let m = choose|m: int| 0 <= m < dv.len() && dv[m] == crate::handlers::opt_view(*d);
                        assert(dv[m] == crate::handlers::opt_view(descs@[m]));
                    }
                }
                assert(descs@.map_values(|d: Option<String>| crate::handlers::opt_view(d)) =~= dv.push(crate::handlers::opt_view(*d)));
                assert forall|h: int| 0 <= h < members@.len() implies (#[trigger] members@[h])@ == group_members(items@, t, crate::handlers::opt_view(descs@[h])) by {
                    if h < before.len() {
                        assert(members@[h] == before[h]);
                        assert(dv[h] == crate::handlers::opt_view(descs@[h]));
                        if crate::handlers::opt_view(descs@[h]) == crate::handlers::opt_view(*d) {
                            assert(dv.contains(crate::handlers::opt_view(*d)));
                        }
                    } else {
                        let e = group_members(items@, ov.take(k as int), crate::handlers::opt_view(*d));
                        lemma_members_empty(items@, ov.take(k as int), crate::handlers::opt_view(*d));
                        assert(members@[h]@ =~= e.push(idx));
                    }
                }
            }
        }
        k = k + 1;
    }
    proof {
        assert(ov.take(ov.len() as int) =~= ov);
    }
    if descs.len() <= 1 {
        return (order, Vec::new());
    }
    let ghost ds = group_descs(items@, ov);
    let mut keys: Vec<RankKey> = Vec::new();
    let mut g: usize = 0;
    while g < members.len()
        invariant
            g <= members@.len(),
            descs@.len() == members@.len(),
            ds == group_descs(items@, ov),
            ds.len() == members@.len(),
            ds == descs@.map_values(|d: Option<String>| crate::handlers::opt_view(d)),
            forall|m: int| 0 <= m < ov.len() ==> (#[trigger] ov[m]) < items@.len(),
            forall|h: int| 0 <= h < members@.len() ==> (#[trigger] members@[h])@ == group_members(items@, ov, crate::handlers::opt_view(descs@[h])),
            ov == spec_item_order(items@, query@),
            keys@ == group_keys(items@, ov).take(g as int),
        decreases members@.len() - g,
    {
        let ms = &members[g];
        proof {
            assert(ms@ == group_members(items@, ov, ds[g as int]));
            lemma_members_bound(items@, ov, ds[g as int]);
        }
        let mut total: u128 = 0;
        let mut j: usize = 0;
        while j < ms.len()
            invariant
                j <= ms@.len(),
                forall|m: int| 0 <= m < ms@.len() ==> (#[trigger] ms@[m]) < items@.len(),
                total as nat == size_total(items@, ms@.take(j as int)),
                total <= j * 0xffff_ffff_ffff_ffffu128,
            decreases ms@.len() - j,
        {
            proof {
                assert(ms@.take(j + 1).drop_last() =~= ms@.take(j as int));
                assert(j < 0x1_0000_0000_0000_0000u128) by {
                    assert(ms@.len() <= usize::MAX);
                }
                assert((j + 1) * 0xffff_ffff_ffff_ffffu128 == j * 0xffff_ffff_ffff_ffffu128 + 0xffff_ffff_ffff_ffffu128) by (nonlinear_arith);
                assert((j + 1) * 0xffff_ffff_ffff_ffffu128 <= 0xffff_ffff_ffff_ffff_ffff_ffff_ffff_ffffu128) by (nonlinear_arith)
                    requires j < 0x1_0000_0000_0000_0000u128;
            }
            match items[ms[j]].size {
                Some(sz) => {
                    total = total + sz as u128;
                },
                None => {},
            }
            j = j + 1;
        }
        proof {
            assert(ms@.take(ms@.len() as int) =~= ms@);
        }
        let total: u64 = if total > 0xffff_ffff_ffff_ffffu128 { 0xffff_ffff_ffff_ffffu64 } else { total as u64 };
        keys.push(RankKey { group: 0, size: Some(total), a: g, b: 0 });
        proof {
            assert(keys@ =~= group_keys(items@, ov).take(g + 1));
        }
        g = g + 1;
    }
    proof {
        assert(group_keys(items@, ov).take(g as int) =~= group_keys(items@, ov));
    }
    let ranked = sort_ranks(&keys);
    proof {
        lemma_sorted_ranks(keys@);
        assert forall|m: int| 0 <= m < ranked@.len() implies (#[trigger] ranked@[m]).a < members@.len() by {
            let key = ranked@[m];
            assert(ranked@.contains(key));
            ranked@.to_multiset_ensures();
            keys@.to_multiset_ensures();
            assert(ranked@.to_multiset().count(key) > 0);
            assert(keys@.to_multiset().count(key) > 0);
            assert(keys@.contains(key));
            let j = choose|j: int| 0 <= j < keys@.len() && keys@[j] == key;
            assert(keys@[j].a == j as usize);
        }
    }
    let ghost groups = Seq::new(ranked@.len(), |q: int| group_members(items@, ov, ds[ranked@[q].a as int]));
    let mut out: Vec<usize> = Vec::new();
    let mut bounds: Vec<usize> = Vec::new();
    let mut q: usize = 0;
    while q < ranked.len()
        invariant
            q <= ranked@.len(),
            groups.len() == ranked@.len(),
            forall|m: int| 0 <= m < ranked@.len() ==> (#[trigger] ranked@[m]).a < members@.len(),
            descs@.len() == members@.len(),
            forall|h: int| 0 <= h < members@.len() ==> (#[trigger] members@[h])@ == group_members(items@, ov, crate::handlers::opt_view(descs@[h])),
            ds == descs@.map_values(|d: Option<String>| crate::handlers::opt_view(d)),
            groups == Seq::new(ranked@.len(), |p: int| group_members(items@, ov, ds[ranked@[p].a as int])),
            (out@, bounds@) == concat_groups(groups.take(q as int)),
        decreases ranked@.len() - q,
    {
        let gi = ranked[q].a;
        let ghost tq = groups.take(q + 1);
        proof {
            assert(tq.drop_last() =~= groups.take(q as int));
            assert(ds[gi as int] == crate::handlers::opt_view(descs@[gi as int]));
            assert(members@[gi as int]@ == groups[q as int]);
        }
        let start = out.len();
        bounds.push(start);
        let mut j: usize = 0;
        let ghost base = out@;
        while j < members[gi].len()
            invariant
                gi < members@.len(),
                j <= members@[gi as int]@.len(),
                out@ == base + members@[gi as int]@.take(j as int),
            decreases members@[gi as int]@.len() - j,
        {
            out.push(members[gi][j]);
            assert(out@ =~= base + members@[gi as int]@.take(j + 1));
            j = j + 1;
        }
        proof {
            assert(members@[gi as int]@.take(members@[gi as int]@.len() as int) =~= members@[gi as int]@);
        }
        q = q + 1;
    }
    proof {
        assert(groups.take(ranked@.len() as int) =~= groups);
    }
    (out, bounds)
}

proof fn lemma_group_descs_distinct(items: Seq<Item>, order: Seq<usize>)
    ensures
        forall|i: int, j: int| 0 <= i < j < group_descs(items, order).len() ==> #[trigger] group_descs(items, order)[i] != #[trigger] group_descs(items, order)[j],
    decreases order.len(),
{
    if order.len() > 0 {
        lemma_group_descs_distinct(items, order.drop_last());
        let prev = group_descs(items, order.drop_last());
        let cur = group_descs(items, order);
        let d = desc_of(items[order.last() as int]);
        if !prev.contains(d) {
            assert forall|i: int, j: int| 0 <= i < j < cur.len() implies #[trigger] cur[i] != #[trigger] cur[j] by {
                if j == cur.len() - 1 {
                    assert(cur[i] == prev[i]);
                    if cur[i] == cur[j] {
                        assert(prev.contains(d));
                    }
                } else {
                    assert(cur[i] == prev[i]);
                    assert(cur[j] == prev[j]);
                }
            }
        }
    }
}

proof fn lemma_members_empty(items: Seq<Item>, order: Seq<usize>, d: Option<Seq<char>>)
    requires
        !group_descs(items, order).contains(d),
    ensures
        group_members(items, order, d) == Seq::<usize>::empty(),
    decreases order.len(),
{
    if order.len() > 0 {
        let prev = group_descs(items, order.drop_last());
        assert(!prev.contains(d)) by {
            if prev.contains(d) {
                let m = choose|m: int| 0 <= m < prev.len() && prev[m] == d;
                let cur = group_descs(items, order);
                if !prev.contains(desc_of(items[order.last() as int])) {
                    assert(cur[m] == d);
                }
            }
        }
        lemma_members_empty(items, order.drop_last(), d);
        if desc_of(items[order.last() as int]) == d {
            assert(group_descs(items, order).contains(d)) by {
                let cur = group_descs(items, order);
                if prev.contains(d) {
                } else {
                    assert(cur[cur.len() - 1] == d);
                }
            }
        }
    }
}

proof fn lemma_members_bound(items: Seq<Item>, order: Seq<usize>, d: Option<Seq<char>>)
    requires
        forall|m: int| 0 <= m < order.len() ==> (#[trigger] order[m]) < items.len(),
    ensures
        forall|m: int| 0 <= m < group_members(items, order, d).len() ==> (#[trigger] group_members(items, order, d)[m]) < items.len(),
    decreases order.len(),
{
    if order.len() > 0 {
        assert(order[order.len() - 1] < items.len());
        lemma_members_bound(items, order.drop_last(), d);
        let prev = group_members(items, order.drop_last(), d);
        let cur = group_members(items, order, d);
        assert forall|m: int| 0 <= m < cur.len() implies (#[trigger] cur[m]) < items.len() by {
            if m < prev.len() {
                assert(cur[m] == prev[m]);
            } else {
                assert(cur[m] == order[order.len() - 1]);
            }
        }
    }
}

// ---------------------------------------------------------------------------
// All items at once
// ---------------------------------------------------------------------------

/// Whether item `it` of module `ms` has a row in the flat list: its name or
/// its module's name or tags match the query, and it passes the toggles.
pub open spec fn flat_listed(ms: ModuleState, it: Item, query: Seq<char>, filter_risk: [bool; 4], filter_restore: [bool; 2]) -> bool {
    (spec_matches_filter(it.name@, Seq::empty(), query) || spec_matches_filter(ms.module.name@, ms.module.tags@, query))
        && item_passes(it, filter_risk, filter_restore)
}

/// The keys of the listed items of module `mi`'s first `n` items.
pub open spec fn flat_keys_of(ms: ModuleState, mi: int, n: int, query: Seq<char>, filter_risk: [bool; 4], filter_restore: [bool; 2]) -> Seq<RankKey>
    decreases n,
{
    if n <= 0 {
        Seq::empty()
    } else {
        let prev = flat_keys_of(ms, mi, n - 1, query, filter_risk, filter_restore);
        let it = ms.items@[n - 1];
        if flat_listed(ms, it, query, filter_risk, filter_restore) {
            prev.push(RankKey { group: 0, size: it.size, a: mi as usize, b: (n - 1) as usize })
        } else {
            prev
        }
    }
}

/// The keys of the listed items of all modules, module by module.
pub open spec fn flat_keys(ms: Seq<ModuleState>, query: Seq<char>, filter_risk: [bool; 4], filter_restore: [bool; 2]) -> Seq<RankKey>
    decreases ms.len(),
{
    if ms.len() == 0 {
        Seq::empty()
    } else {
        flat_keys(ms.drop_last(), query, filter_risk, filter_restore) + flat_keys_of(
            ms.last(),
            ms.len() - 1,
            ms.last().items@.len() as int,
            query,
            filter_risk,
            filter_restore,
        )
    }
}

/// The (module, item) positions of the flat list in listing order: by
/// size (unknown first, then the largest), then by module, then by item.
pub open spec fn spec_flat_order(ms: Seq<ModuleState>, query: Seq<char>, filter_risk: [bool; 4], filter_restore: [bool; 2]) -> Seq<(usize, usize)> {
    sorted_ranks(flat_keys(ms, query, filter_risk, filter_restore)).map_values(|k: RankKey| (k.a, k.b))
}

/// Every item of every module that matches the query (by its own name or
/// its module's) and the toggles, by size.
pub fn sorted_flat_items(modules: &[ModuleState], query: &str, filter_risk: &[bool; 4], filter_restore: &[bool; 2]) -> (r: Vec<(usize, usize)>)
    ensures
        r@ == spec_flat_order(modules@, query@, *filter_risk, *filter_restore),
        forall|k: int| 0 <= k < r@.len() ==> (#[trigger] r@[k]).0 < modules@.len() && r@[k].1 < modules@[r@[k].0 as int].items@.len(),
{
    let mut keys: Vec<RankKey> = Vec::new();
    let empty: Vec<String> = Vec::new();
    assert(empty@ =~= Seq::<String>::empty());
    let mut mi: usize = 0;
    while mi < modules.len()
        invariant
            mi <= modules@.len(),
            empty@ == Seq::<String>::empty(),
            keys@ == flat_keys(modules@.take(mi as int), query@, *filter_risk, *filter_restore),
            forall|k: int| 0 <= k < keys@.len() ==> (#[trigger] keys@[k]).a < modules@.len() && keys@[k].b < modules@[keys@[k].a as int].items@.len(),
        decreases modules@.len() - mi,
    {
        let ms = &modules[mi];
        let ghost base = keys@;
        let module_hit = matches_filter(ms.module.name.as_str(), ms.module.tags.as_slice(), query);
        let mut ii: usize = 0;
        while ii < ms.items.len()
            invariant
                ii <= ms.items@.len(),
                empty@ == Seq::<String>::empty(),
                module_hit == spec_matches_filter(ms.module.name@, ms.module.tags@, query@),
                keys@ == base + flat_keys_of(*ms, mi as int, ii as int, query@, *filter_risk, *filter_restore),
                mi < modules@.len(),
                *ms == modules@[mi as int],
                forall|k: int| 0 <= k < keys@.len() ==> (#[trigger] keys@[k]).a < modules@.len() && keys@[k].b < modules@[keys@[k].a as int].items@.len(),
            decreases ms.items@.len() - ii,
        {
            let it = &ms.items[ii];
            let listed = (matches_filter(it.name.as_str(), empty.as_slice(), query) || module_hit)
                && matches_structured_filter(it.risk_level, it.restore_kind, filter_risk, filter_restore);
            if listed {
                keys.push(RankKey { group: 0, size: it.size, a: mi, b: ii });
            }
            assert(keys@ =~= base + flat_keys_of(*ms, mi as int, ii + 1, query@, *filter_risk, *filter_restore));
            ii = ii + 1;
        }
        proof {
            let t = modules@.take(mi + 1);
            assert(t.drop_last() =~= modules@.take(mi as int));
            assert(t.last() == modules@[mi as int]);
        }
        mi = mi + 1;
    }
    assert(modules@.take(modules@.len() as int) =~= modules@);
    let sorted = sort_ranks(&keys);
    proof {
        lemma_sorted_ranks(keys@);
        assert forall|k: int| 0 <= k < sorted@.len() implies (#[trigger] sorted@[k]).a < modules@.len() && sorted@[k].b < modules@[sorted@[k].a as int].items@.len() by {
            let key = sorted@[k];
            assert(sorted@.contains(key));
            sorted@.to_multiset_ensures();
            keys@.to_multiset_ensures();
            assert(sorted@.to_multiset().count(key) > 0);
            assert(keys@.to_multiset().count(key) > 0);
            assert(keys@.contains(key));
            let j = choose|j: int| 0 <= j < keys@.len() && keys@[j] == key;
        }
    }
    let mut r: Vec<(usize, usize)> = Vec::new();
    let mut i: usize = 0;
    while i < sorted.len()
        invariant
            i <= sorted@.len(),
            r@ == sorted@.take(i as int).map_values(|k: RankKey| (k.a, k.b)),
            forall|k: int| 0 <= k < sorted@.len() ==> (#[trigger] sorted@[k]).a < modules@.len() && sorted@[k].b < modules@[sorted@[k].a as int].items@.len(),
        decreases sorted@.len() - i,
    {
        r.push((sorted[i].a, sorted[i].b));
        assert(sorted@.take(i + 1).map_values(|k: RankKey| (k.a, k.b)) =~= sorted@.take(i as int).map_values(|k: RankKey| (k.a, k.b)).push((sorted@[i as int].a, sorted@[i as int].b)));
        i = i + 1;
    }
    assert(sorted@.take(sorted@.len() as int) =~= sorted@);
    r
}

proof fn lemma_module_keys_bound(ms: Seq<ModuleState>, query: Seq<char>, filter_risk: [bool; 4], filter_restore: [bool; 2], navigable: bool)
    ensures
        forall|k: int| 0 <= k < module_keys(ms, query, filter_risk, filter_restore, navigable).len()
            ==> (#[trigger] module_keys(ms, query, filter_risk, filter_restore, navigable)[k]).a < ms.len(),
    decreases ms.len(),
{
    if ms.len() > 0 {
        lemma_module_keys_bound(ms.drop_last(), query, filter_risk, filter_restore, navigable);
    }
}

proof fn lemma_module_keys_members(ms: Seq<ModuleState>, query: Seq<char>, filter_risk: [bool; 4], filter_restore: [bool; 2], navigable: bool)
    requires
        ms.len() <= usize::MAX,
    ensures
        forall|k: int| 0 <= k < module_keys(ms, query, filter_risk, filter_restore, navigable).len() ==> ({
            let key = #[trigger] module_keys(ms, query, filter_risk, filter_restore, navigable)[k];
            &&& key.a < ms.len()
            &&& key == module_key(ms[key.a as int], key.a as int, filter_risk, filter_restore)
            &&& module_listed(ms[key.a as int], query, filter_risk, filter_restore, navigable)
        }),
        forall|i: int| 0 <= i < ms.len() && module_listed(#[trigger] ms[i], query, filter_risk, filter_restore, navigable)
            ==> module_keys(ms, query, filter_risk, filter_restore, navigable).contains(module_key(ms[i], i, filter_risk, filter_restore)),
    decreases ms.len(),
{
    if ms.len() > 0 {
        let d = ms.drop_last();
        lemma_module_keys_members(d, query, filter_risk, filter_restore, navigable);
        let pk = module_keys(d, query, filter_risk, filter_restore, navigable);
        let ck = module_keys(ms, query, filter_risk, filter_restore, navigable);
        let n = ms.len() - 1;
        assert forall|i: int| 0 <= i < n implies #[trigger] d[i] == ms[i] by {}
        assert(ms[n] == ms.last());
        if module_listed(ms.last(), query, filter_risk, filter_restore, navigable) {
            assert(ck == pk.push(module_key(ms.last(), n, filter_risk, filter_restore)));
        } else {
            assert(ck == pk);
        }
        assert forall|k: int| 0 <= k < ck.len() implies ({
            let key = #[trigger] ck[k];
            &&& key.a < ms.len()
            &&& key == module_key(ms[key.a as int], key.a as int, filter_risk, filter_restore)
            &&& module_listed(ms[key.a as int], query, filter_risk, filter_restore, navigable)
        }) by {
            if k < pk.len() {
                assert(ck[k] == pk[k]);
                assert(d[pk[k].a as int] == ms[pk[k].a as int]);
            } else {
                assert(ck[k] == module_key(ms.last(), n, filter_risk, filter_restore));
                assert(ck[k].a == n as usize);
                assert(ms[ck[k].a as int] == ms.last());
            }
        }
        assert forall|i: int| 0 <= i < ms.len() && module_listed(#[trigger] ms[i], query, filter_risk, filter_restore, navigable)
            implies ck.contains(module_key(ms[i], i, filter_risk, filter_restore)) by {
            if i < n {
                assert(d[i] == ms[i]);
                assert(module_listed(d[i], query, filter_risk, filter_restore, navigable));
                let k = choose|k: int| 0 <= k < pk.len() && pk[k] == module_key(d[i], i, filter_risk, filter_restore);
                assert(ck[k] == pk[k]);
            } else {
                assert(ck[pk.len() as int] == module_key(ms[i], i, filter_risk, filter_restore));
            }
        }
    }
}

/// Which modules the lists show: module `i` is in the order exactly when
/// its name or tags match the query, it has no items yet, no risk or
/// restore toggle is off, or some item of it (at any position) has both
/// its toggles on; the navigable order also leaves out modules shown as
/// 0 B.
pub proof fn lemma_module_order_members(ms: Seq<ModuleState>, query: Seq<char>, filter_risk: [bool; 4], filter_restore: [bool; 2], navigable: bool, i: int)
    requires
        0 <= i < ms.len(),
        ms.len() <= usize::MAX,
    ensures
        spec_module_order(ms, query, filter_risk, filter_restore, navigable).contains(i as usize) <==> {
            &&& spec_matches_filter(ms[i].module.name@, ms[i].module.tags@, query)
            &&& (!spec_has_structured_filter(filter_risk, filter_restore) || ms[i].items@.len() == 0
                || exists|j: int| 0 <= j < ms[i].items@.len() && filter_risk@[risk_slot((#[trigger] ms[i].items@[j]).risk_level)]
                    && filter_restore@[restore_slot(ms[i].items@[j].restore_kind)])
            &&& (!navigable || spec_module_size(ms[i], filter_risk, filter_restore) != Some(0u64))
        },
{
    let ks = module_keys(ms, query, filter_risk, filter_restore, navigable);
    let sk = sorted_ranks(ks);
    let order = spec_module_order(ms, query, filter_risk, filter_restore, navigable);
    lemma_module_keys_members(ms, query, filter_risk, filter_restore, navigable);
    lemma_sorted_ranks(ks);
    lemma_module_passes_any_item(ms[i], filter_risk, filter_restore);
    sk.to_multiset_ensures();
    ks.to_multiset_ensures();
    if order.contains(i as usize) {
        let k = choose|k: int| 0 <= k < order.len() && order[k] == i as usize;
        let key = sk[k];
        assert(sk.to_multiset().count(key) > 0);
        assert(ks.contains(key));
        let j = choose|j: int| 0 <= j < ks.len() && ks[j] == key;
        assert(order[k] == sk[k].a);
        assert(key.a == i as usize);
        assert(module_listed(ms[ks[j].a as int], query, filter_risk, filter_restore, navigable));
        assert(module_listed(ms[i], query, filter_risk, filter_restore, navigable));
    }
    if module_listed(ms[i], query, filter_risk, filter_restore, navigable) {
        let key = module_key(ms[i], i, filter_risk, filter_restore);
        assert(ks.contains(key));
        assert(ks.to_multiset().count(key) > 0);
        assert(sk.contains(key));
        let k = choose|k: int| 0 <= k < sk.len() && sk[k] == key;
        assert(order[k] == sk[k].a);
        assert(order[k] == i as usize);
    }
}

/// The module lists run by size: a module shown as 0 B is followed only by
/// modules shown as 0 B; a module of known non-zero size is never followed
/// by one of unknown size nor by a larger one; modules of the same size
/// keep their order.
pub proof fn lemma_module_order_by_size(ms: Seq<ModuleState>, query: Seq<char>, filter_risk: [bool; 4], filter_restore: [bool; 2], navigable: bool, k: int)
    requires
        ms.len() <= usize::MAX,
        0 <= k < spec_module_order(ms, query, filter_risk, filter_restore, navigable).len() - 1,
    ensures
        ({
            let order = spec_module_order(ms, query, filter_risk, filter_restore, navigable);
            let sa = spec_module_size(ms[order[k] as int], filter_risk, filter_restore);
            let sb = spec_module_size(ms[order[k + 1] as int], filter_risk, filter_restore);
            &&& sa == Some(0u64) ==> sb == Some(0u64)
            &&& match (sa, sb) {
                (Some(x), None) => x == 0,
                (Some(x), Some(y)) => y == 0 || y <= x,
                _ => true,
            }
            &&& sa == sb ==> order[k] <= order[k + 1]
        }),
{
    let ks = module_keys(ms, query, filter_risk, filter_restore, navigable);
    let sk = sorted_ranks(ks);
    lemma_module_keys_members(ms, query, filter_risk, filter_restore, navigable);
    lemma_sorted_ranks(ks);
    sk.to_multiset_ensures();
    ks.to_multiset_ensures();
    let x = sk[k];
    let y = sk[k + 1];
    assert(sk.to_multiset().count(x) > 0 && sk.to_multiset().count(y) > 0);
    assert(ks.contains(x) && ks.contains(y));
    let jx = choose|j: int| 0 <= j < ks.len() && ks[j] == x;
    let jy = choose|j: int| 0 <= j < ks.len() && ks[j] == y;
    assert(x == module_key(ms[x.a as int], x.a as int, filter_risk, filter_restore));
    assert(y == module_key(ms[y.a as int], y.a as int, filter_risk, filter_restore));
    assert(!rank_lt(sk[k + 1], sk[k]));
}

/// Every position in a module order names a module.
pub proof fn lemma_module_order_bound(ms: Seq<ModuleState>, query: Seq<char>, filter_risk: [bool; 4], filter_restore: [bool; 2], navigable: bool)
    ensures
        forall|k: int| 0 <= k < spec_module_order(ms, query, filter_risk, filter_restore, navigable).len()
            ==> (#[trigger] spec_module_order(ms, query, filter_risk, filter_restore, navigable)[k]) < ms.len(),
{
    let ks = module_keys(ms, query, filter_risk, filter_restore, navigable);
    let sk = sorted_ranks(ks);
    lemma_module_keys_bound(ms, query, filter_risk, filter_restore, navigable);
    lemma_sorted_ranks(ks);
    assert forall|k: int| 0 <= k < spec_module_order(ms, query, filter_risk, filter_restore, navigable).len()
        implies (#[trigger] spec_module_order(ms, query, filter_risk, filter_restore, navigable)[k]) < ms.len() by {
        let key = sk[k];
        assert(sk.contains(key));
        sk.to_multiset_ensures();
        ks.to_multiset_ensures();
        assert(sk.to_multiset().count(key) > 0);
        assert(ks.to_multiset().count(key) > 0);
        assert(ks.contains(key));
        let j = choose|j: int| 0 <= j < ks.len() && ks[j] == key;
        assert(ks[j].a < ms.len());
    }
}

proof fn lemma_concat_bound(groups: Seq<Seq<usize>>, n: int)
    requires
        forall|g: int, m: int| 0 <= g < groups.len() && 0 <= m < groups[g].len() ==> #[trigger] groups[g][m] < n,
    ensures
        forall|m: int| 0 <= m < concat_groups(groups).0.len() ==> #[trigger] concat_groups(groups).0[m] < n,
    decreases groups.len(),
{
    if groups.len() > 0 {
        lemma_concat_bound(groups.drop_last(), n);
        let prev = concat_groups(groups.drop_last());
        let cur = concat_groups(groups);
        assert forall|m: int| 0 <= m < cur.0.len() implies #[trigger] cur.0[m] < n by {
            if m < prev.0.len() {
                assert(cur.0[m] == prev.0[m]);
            } else {
                assert(cur.0[m] == groups.last()[m - prev.0.len()]);
                assert(groups[groups.len() - 1] == groups.last());
            }
        }
    }
}

/// Every row of the display order names an item.
pub proof fn lemma_display_bound(items: Seq<Item>, query: Seq<char>)
    ensures
        forall|m: int| 0 <= m < spec_display_order(items, query).0.len() ==> (#[trigger] spec_display_order(items, query).0[m]) < items.len(),
{
    lemma_item_order_bound(items, query);
    let order = spec_item_order(items, query);
    let ds = group_descs(items, order);
    if ds.len() > 1 {
        let ranked = sorted_ranks(group_keys(items, order));
        let groups = Seq::new(ranked.len(), |g: int| group_members(items, order, ds[ranked[g].a as int]));
        assert forall|g: int, m: int| 0 <= g < groups.len() && 0 <= m < groups[g].len() implies #[trigger] groups[g][m] < items.len() by {
            lemma_members_bound(items, order, ds[ranked[g].a as int]);
        }
        lemma_concat_bound(groups, items.len() as int);
    }
}

} // verus!
