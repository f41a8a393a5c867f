//! The lines of a module's item list: when the items fall into several
//! target groups, each group opens with a header (its description, risk and
//! restore badges, and its size) and the restore hint of its first item.

use vstd::prelude::*;
use crate::manifest::{risk_level_name, RestoreKind, RiskLevel};
use crate::ranking::{capped, display_order_item_indices, lemma_display_bound, spec_display_order};
use crate::types::Item;

verus! {

/// One line of a module's item list.
pub enum DetailLine {
    /// A group's header: its description (`Other` without one), its badges,
    /// the total size of its items, and whether its risk calls for warning.
    Header { label: String, badges: String, size: u64, warn: bool },
    /// The restore steps of the group's first item.
    Hint { steps: String },
    /// An item: its position in the display order and its index.
    Item { pos: usize, index: usize },
}

/// A line as plain values.
pub enum DetailLineView {
    Header { label: Seq<char>, badges: Seq<char>, size: u64, warn: bool },
    Hint { steps: Seq<char> },
    Item { pos: usize, index: usize },
}

pub open spec fn line_view(l: DetailLine) -> DetailLineView {
    match l {
        DetailLine::Header { label, badges, size, warn } => DetailLineView::Header { label: label@, badges: badges@, size, warn },
        DetailLine::Hint { steps } => DetailLineView::Hint { steps: steps@ },
        DetailLine::Item { pos, index } => DetailLineView::Item { pos, index },
    }
}

/// Whether a risk level calls for a warning.
pub open spec fn warns(r: RiskLevel) -> bool {
    r == RiskLevel::Medium || r == RiskLevel::High
}

/// The badges of a group led by item `it`: ` [<risk> risk]` for a medium or
/// high risk, ` [manual restore]` for a manual restore.
pub open spec fn group_badges(it: Item) -> Seq<char> {
    (if warns(it.risk_level) {
        " ["@ + risk_level_name(it.risk_level) + " risk]"@
    } else {
        Seq::empty()
    }) + (if it.restore_kind == RestoreKind::Manual {
        " [manual restore]"@
    } else {
        Seq::empty()
    })
}

/// The sum of the known sizes of the items at positions `from..to` of the
/// order.
pub open spec fn range_size(items: Seq<Item>, order: Seq<usize>, from: int, to: int) -> nat
    decreases to - from,
{
    if to <= from {
        0
    } else {
        range_size(items, order, from, to - 1) + match items[order[to - 1] as int].size {
            Some(s) => s as nat,
            None => 0nat,
        }
    }
}

/// Where group `g` ends in the order.
pub open spec fn group_end(order: Seq<usize>, bounds: Seq<usize>, g: int) -> int {
    if g + 1 < bounds.len() {
        bounds[g + 1] as int
    } else {
        order.len() as int
    }
}

/// The lines of group `g`: its header, the hint, then its items.
pub open spec fn group_lines(items: Seq<Item>, order: Seq<usize>, bounds: Seq<usize>, g: int) -> Seq<DetailLineView> {
    let start = bounds[g] as int;
    let end = group_end(order, bounds, g);
    let stop = if end <= order.len() { end } else { order.len() as int };
    let first = items[order[start] as int];
    let n: nat = if stop > start { (stop - start) as nat } else { 0 };
    (if start < order.len() {
        seq![DetailLineView::Header {
            label: match first.target_description {
                Some(d) => d@,
                None => "Other"@,
            },
            badges: group_badges(first),
            size: capped(range_size(items, order, start, stop)),
            warn: warns(first.risk_level),
        }] + match first.restore_steps {
            Some(s) => seq![DetailLineView::Hint { steps: s@ }],
            None => Seq::empty(),
        }
    } else {
        Seq::empty()
    }) + Seq::new(n, |i: int| DetailLineView::Item { pos: (start + i) as usize, index: order[start + i] })
}

/// The lines of the first `k` groups.
pub open spec fn groups_lines(items: Seq<Item>, order: Seq<usize>, bounds: Seq<usize>, k: int) -> Seq<DetailLineView>
    decreases k,
{
    if k <= 0 {
        Seq::empty()
    } else {
        groups_lines(items, order, bounds, k - 1) + group_lines(items, order, bounds, k - 1)
    }
}

/// The lines of a module's item list for the query: grouped when the
/// display order has groups, else one line per item.
pub open spec fn spec_detail_lines(items: Seq<Item>, query: Seq<char>) -> Seq<DetailLineView> {
    let d = spec_display_order(items, query);
    if d.1.len() == 0 {
        Seq::new(d.0.len(), |i: int| DetailLineView::Item { pos: i as usize, index: d.0[i] })
    } else {
        groups_lines(items, d.0, d.1, d.1.len() as int)
    }
}

/// A group header is named by its first item's description (`Other`
/// without one); it warns, and carries ` [<risk> risk]`, exactly when that
/// item is of medium or high risk, and it carries ` [manual restore]`
/// exactly when that item needs a manual restore.
pub proof fn lemma_group_header_badges(items: Seq<Item>, order: Seq<usize>, bounds: Seq<usize>, g: int)
    requires
        0 <= g < bounds.len(),
        bounds[g] < order.len(),
    ensures
        ({
            let first = items[order[bounds[g] as int] as int];
            let risky = first.risk_level == RiskLevel::Medium || first.risk_level == RiskLevel::High;
            let risk_badge = " ["@ + risk_level_name(first.risk_level) + " risk]"@;
            let manual_badge = " [manual restore]"@;
            group_lines(items, order, bounds, g)[0] matches DetailLineView::Header { label, badges, warn, .. }
            && label == (match first.target_description { Some(d) => d@, None => "Other"@ })
            && warn == risky
            && badges == (if risky { risk_badge } else { Seq::empty() })
                + (if first.restore_kind == RestoreKind::Manual { manual_badge } else { Seq::empty() })
        }),
{
}

fn badges_of(it: &Item) -> (r: String)
    ensures
        r@ == group_badges(*it),
{
    let mut b = String::new();
    if it.risk_level == RiskLevel::Medium || it.risk_level == RiskLevel::High {
        crate::text::push_str(&mut b, " [");
        crate::text::push_str(&mut b, it.risk_level.as_str());
        crate::text::push_str(&mut b, " risk]");
    }
    if it.restore_kind == RestoreKind::Manual {
        crate::text::push_str(&mut b, " [manual restore]");
    }
    assert(b@ =~= group_badges(*it));
    b
}

fn range_size_of(items: &[Item], order: &Vec<usize>, from: usize, to: usize) -> (r: u64)
    requires
        from <= to <= order@.len(),
        forall|m: int| 0 <= m < order@.len() ==> (#[trigger] order@[m]) < items@.len(),
    ensures
        r == capped(range_size(items@, order@, from as int, to as int)),
{
    let mut total: u64 = 0;
    let mut i: usize = from;
    while i < to
        invariant
            from <= i <= to <= order@.len(),
            forall|m: int| 0 <= m < order@.len() ==> (#[trigger] order@[m]) < items@.len(),
            total == capped(range_size(items@, order@, from as int, i as int)),
        decreases to - i,
    {
        let add = match items[order[i]].size {
            Some(s) => s,
            None => 0,
        };
        total = total.saturating_add(add);
        i = i + 1;
    }
    total
}

/// The lines of the item list of a module with `items`, for the query.
pub fn detail_lines(items: &[Item], query: &str) -> (r: Vec<DetailLine>)
    ensures
        r@.map_values(|l: DetailLine| line_view(l)) == spec_detail_lines(items@, query@),
{
    let (order, bounds) = display_order_item_indices(items, query);
    proof {
        lemma_display_bound(items@, query@);
        assert(order@ == spec_display_order(items@, query@).0);
    }
    let mut lines: Vec<DetailLine> = Vec::new();
    if bounds.len() == 0 {
        let mut i: usize = 0;
        while i < order.len()
            invariant
                i <= order@.len(),
                lines@.map_values(|l: DetailLine| line_view(l))
                    == Seq::new(i as nat, |k: int| DetailLineView::Item { pos: k as usize, index: order@[k] }),
            decreases order@.len() - i,
        {
            let ghost prev = lines@.map_values(|l: DetailLine| line_view(l));
            let line = DetailLine::Item { pos: i, index: order[i] };
            lines.push(line);
            assert(lines@.map_values(|l: DetailLine| line_view(l)) =~= prev.push(line_view(line)));
            assert(lines@.map_values(|l: DetailLine| line_view(l))
                =~= Seq::new((i + 1) as nat, |k: int| DetailLineView::Item { pos: k as usize, index: order@[k] }));
            i = i + 1;
        }
        return lines;
    }
    let mut g: usize = 0;
    while g < bounds.len()
        invariant
            g <= bounds@.len(),
            forall|m: int| 0 <= m < order@.len() ==> (#[trigger] order@[m]) < items@.len(),
            lines@.map_values(|l: DetailLine| line_view(l)) == groups_lines(items@, order@, bounds@, g as int),
        decreases bounds@.len() - g,
    {
        let ghost before = lines@.map_values(|l: DetailLine| line_view(l));
        let start = bounds[g];
        let end = if g + 1 < bounds.len() {
            bounds[g + 1]
        } else {
            order.len()
        };
        let stop = if end <= order.len() { end } else { order.len() };
        if start < order.len() {
            let first = &items[order[start]];
            let label = match &first.target_description {
                Some(d) => d.clone(),
                None => "Other".to_owned(),
            };
            let size = if start <= stop {
                range_size_of(items, &order, start, stop)
            } else {
                0
            };
            let warn = first.risk_level == RiskLevel::Medium || first.risk_level == RiskLevel::High;
            lines.push(DetailLine::Header { label, badges: badges_of(first), size, warn });
            match &first.restore_steps {
                Some(s) => lines.push(DetailLine::Hint { steps: s.clone() }),
                None => {},
            }
        }
        let ghost head = lines@.map_values(|l: DetailLine| line_view(l));
        let count: usize = if stop > start { stop - start } else { 0 };
        let mut i: usize = 0;
        while i < count
            invariant
                i <= count,
                count == (if stop > start { stop - start } else { 0 }),
                stop <= order@.len(),
                lines@.map_values(|l: DetailLine| line_view(l))
                    == head + Seq::new(i as nat, |k: int| DetailLineView::Item { pos: (start + k) as usize, index: order@[start + k] }),
            decreases count - i,
        {
            let ghost prev = lines@.map_values(|l: DetailLine| line_view(l));
            let line = DetailLine::Item { pos: start + i, index: order[start + i] };
            lines.push(line);
            assert(lines@.map_values(|l: DetailLine| line_view(l)) =~= prev.push(line_view(line)));
            assert(lines@.map_values(|l: DetailLine| line_view(l)) =~= head
                + Seq::new((i + 1) as nat, |k: int| DetailLineView::Item { pos: (start + k) as usize, index: order@[start + k] }));
            i = i + 1;
        }
        assert(lines@.map_values(|l: DetailLine| line_view(l)) =~= before + group_lines(items@, order@, bounds@, g as int));
        g = g + 1;
    }
    lines
}

} // verus!
