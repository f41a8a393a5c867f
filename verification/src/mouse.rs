//! The mouse: the scroll wheel moves the view, a click picks the row under
//! the pointer (and toggles it when it lands on the checkbox), a double
//! click opens the row.

use vstd::prelude::*;
use crate::confirm::{collect_selected_items, visible_confirm_items, ConfirmView};
use crate::manifest::{RestoreKind, RiskLevel};
use crate::ranking::{
    all_sorted_module_indices, display_order_item_indices, lemma_display_bound, sorted_flat_items, sorted_item_indices,
    sorted_module_indices, spec_display_order, spec_flat_order, spec_module_order,
};
use crate::safety::SafetyLevel;
use crate::session::{browser_rows, key_post, utf8_len, Effect, Key, Session, SessionView};
use crate::types;
use crate::types::Item;
use crate::widgets::{is_checkbox_click, Area};

verus! {

// ---------------------------------------------------------------------------
// Layout
// ---------------------------------------------------------------------------

/// One row constraint of a vertical layout.
#[derive(Debug, Clone, Copy, PartialEq, Eq, Structural)]
pub enum Extent {
    /// Exactly this many rows.
    Length(u16),
    /// At least this many rows.
    Min(u16),
}

/// `ratatui::layout::Layout::split` of a vertical layout with these
/// constraints. Where the rows fall is what the layout solver picks, and
/// when the rows asked for do not fit the solver's choice among equally
/// good layouts can differ from one run to the next, so nothing is claimed
/// about it. Claimed is what the source shows of every outcome: one area
/// per constraint, each starting at the area's column and as wide as the
/// area (clamped, as `Rect::new` does, to end within `u16`).
#[verifier::external_body]
fn split_rows(area: Area, constraints: &[Extent]) -> (r: Vec<Area>)
    ensures
        r@.len() == constraints@.len(),
        forall|k: int| 0 <= k < r@.len() ==> (#[trigger] r@[k]).x == area.x
            && r@[k].width == if area.width > u16::MAX - area.x { (u16::MAX - area.x) as u16 } else { area.width },
{
    let cs: Vec<ratatui::layout::Constraint> = constraints
        .iter()
        .map(|c| match c {
            Extent::Length(n) => ratatui::layout::Constraint::Length(*n),
            Extent::Min(n) => ratatui::layout::Constraint::Min(*n),
        })
        .collect();
    let rect = ratatui::layout::Rect::new(area.x, area.y, area.width, area.height);
    let parts = ratatui::layout::Layout::default().direction(ratatui::layout::Direction::Vertical).constraints(cs).split(rect);
    parts.iter().map(|p| Area { x: p.x, y: p.y, width: p.width, height: p.height }).collect()
}

/// The rows of each view, top to bottom; the list is always the second.
pub open spec fn spec_view_layout(view: types::View) -> Seq<Extent> {
    match view {
        types::View::ModuleList => seq![Extent::Length(3), Extent::Min(1), Extent::Length(2), Extent::Length(1)],
        types::View::ModuleDetail(_) => seq![
            Extent::Length(4),
            Extent::Min(1),
            Extent::Length(1),
            Extent::Length(1),
            Extent::Length(1),
        ],
        types::View::FlatView => seq![Extent::Length(3), Extent::Min(1), Extent::Length(1), Extent::Length(1)],
        types::View::FileBrowser => seq![Extent::Length(3), Extent::Min(1), Extent::Length(1), Extent::Length(1)],
        types::View::CleanupConfirm => seq![Extent::Length(3), Extent::Min(3), Extent::Length(2), Extent::Length(1)],
        _ => Seq::empty(),
    }
}

/// The rows of a view (none for a view without a clickable list).
pub fn view_layout(view: types::View) -> (r: Vec<Extent>)
    ensures
        r@ == spec_view_layout(view),
{
    let r = match view {
        types::View::ModuleList => vec![Extent::Length(3), Extent::Min(1), Extent::Length(2), Extent::Length(1)],
        types::View::ModuleDetail(_) => vec![
            Extent::Length(4),
            Extent::Min(1),
            Extent::Length(1),
            Extent::Length(1),
            Extent::Length(1),
        ],
        types::View::FlatView => vec![Extent::Length(3), Extent::Min(1), Extent::Length(1), Extent::Length(1)],
        types::View::FileBrowser => vec![Extent::Length(3), Extent::Min(1), Extent::Length(1), Extent::Length(1)],
        types::View::CleanupConfirm => vec![Extent::Length(3), Extent::Min(3), Extent::Length(2), Extent::Length(1)],
        _ => Vec::new(),
    };
    assert(r@ =~= spec_view_layout(view));
    r
}

// ---------------------------------------------------------------------------
// Rows of the lists
// ---------------------------------------------------------------------------

/// The first position of `x` in `s`.
pub open spec fn position_of(s: Seq<usize>, x: usize) -> Option<int>
    decreases s.len(),
{
    if s.len() == 0 {
        None
    } else {
        match position_of(s.drop_last(), x) {
            Some(p) => Some(p),
            None => if s.last() == x {
                Some(s.len() - 1)
            } else {
                None
            },
        }
    }
}

/// The screen rows of group `g` of a grouped module list: its header, a
/// restore hint when its first item has restore steps, then its items
/// (positions in the display order).
pub open spec fn group_block(items: Seq<Item>, order: Seq<usize>, bounds: Seq<usize>, g: int) -> Seq<Option<usize>> {
    let start = bounds[g] as int;
    let end = if g + 1 < bounds.len() {
        bounds[g + 1] as int
    } else {
        order.len() as int
    };
    let hint = start < order.len() && items[order[start] as int].restore_steps is Some;
    seq![None::<usize>] + (if hint {
        seq![None::<usize>]
    } else {
        Seq::<Option<usize>>::empty()
    }) + Seq::new(if end > start {
        (end - start) as nat
    } else {
        0nat
    }, |i: int| Some((start + i) as usize))
}

/// The screen rows of the first `n` groups.
pub open spec fn grouped_rows(items: Seq<Item>, order: Seq<usize>, bounds: Seq<usize>, n: int) -> Seq<Option<usize>>
    decreases n,
{
    if n <= 0 {
        Seq::empty()
    } else {
        grouped_rows(items, order, bounds, n - 1) + group_block(items, order, bounds, n - 1)
    }
}

/// Whether a row of the confirmation list has a line of indicators below it.
pub open spec fn has_indicators(c: ConfirmView) -> bool {
    c.safety_level == SafetyLevel::Warn || c.risk_level == RiskLevel::Medium || c.risk_level == RiskLevel::High
        || c.restore_kind == RestoreKind::Manual
}

/// The screen rows of the confirmation list: each item, then a line for
/// its indicators, its restore steps and its removal command where it has
/// them.
pub open spec fn confirm_screen_rows(rs: Seq<ConfirmView>) -> Seq<Option<usize>>
    decreases rs.len(),
{
    if rs.len() == 0 {
        Seq::empty()
    } else {
        let c = rs.last();
        confirm_screen_rows(rs.drop_last()) + seq![Some((rs.len() - 1) as usize)]
            + (if has_indicators(c) { seq![None::<usize>] } else { Seq::<Option<usize>>::empty() })
            + (if c.restore_steps is Some { seq![None::<usize>] } else { Seq::<Option<usize>>::empty() })
            + (if c.removal_command is Some { seq![None::<usize>] } else { Seq::<Option<usize>>::empty() })
    }
}

/// The entry at screen row `k` of a list, counted from its first row.
pub open spec fn row_entry(rows: Seq<Option<usize>>, k: int) -> Option<int> {
    if 0 <= k < rows.len() {
        match rows[k] {
            Some(p) => Some(p as int),
            None => None,
        }
    } else {
        None
    }
}

/// The row of module `items` at screen row `k` of the detail list.
pub open spec fn detail_target(items: Seq<Item>, query: Seq<char>, k: int) -> Option<int> {
    let d = spec_display_order(items, query);
    if d.1.len() == 0 {
        if 0 <= k < d.0.len() {
            Some(k)
        } else {
            None
        }
    } else {
        row_entry(grouped_rows(items, d.0, d.1, d.1.len() as int), k)
    }
}

/// The position to select for a click on screen row `k` of the list (the
/// first row shown counted as `view_offset`).
pub open spec fn click_target(s: Session, k: int) -> Option<int> {
    let v = s@;
    match v.current_view {
        types::View::ModuleList => {
            let all = spec_module_order(v.modules, v.filter_query, v.filter_risk, v.filter_restore, false);
            let nav = spec_module_order(v.modules, v.filter_query, v.filter_risk, v.filter_restore, true);
            if 0 <= k < all.len() {
                position_of(nav, all[k])
            } else {
                None
            }
        },
        types::View::ModuleDetail(m) => if m < v.modules.len() {
            detail_target(v.modules[m as int].items@, v.filter_query, k)
        } else {
            None
        },
        types::View::FlatView => if 0 <= k < spec_flat_order(v.modules, v.filter_query, v.filter_risk, v.filter_restore).len() {
            Some(k)
        } else {
            None
        },
        types::View::FileBrowser => if 0 <= k < browser_rows(v).len() {
            Some(k)
        } else {
            None
        },
        types::View::CleanupConfirm => row_entry(confirm_screen_rows(s.confirm_rows()), k),
        _ => None,
    }
}

/// The offset below `top` of a click on `row`, within `height` rows.
pub open spec fn row_offset(row: u16, top: int, height: int) -> Option<int> {
    if height == 0 || row < top || row - top >= height {
        None
    } else {
        Some(row - top)
    }
}

/// Where the rows of the list of the current view start and how many
/// there are, given the list's area: inside the border, except in the
/// confirmation list, which has none above or below.
pub open spec fn list_rows(view: types::View, table: Area) -> (int, int) {
    match view {
        types::View::CleanupConfirm => (table.y as int, table.height as int),
        _ => (table.y + 1, if table.height >= 2 {
            table.height - 2
        } else {
            0
        }),
    }
}

/// Whether a click in column `col` lands on the checkbox of the list.
pub open spec fn on_checkbox(view: types::View, col: u16, table: Area) -> bool {
    match view {
        types::View::CleanupConfirm => col < table.x + 4,
        _ => col < table.x + 8,
    }
}

/// The position a click picks in the list drawn in `table`.
pub open spec fn picked(s: Session, row: u16, table: Area) -> Option<int> {
    let (top, height) = list_rows(s@.current_view, table);
    match row_offset(row, top, height) {
        Some(off) => click_target(s, s@.view_offset + off),
        None => None,
    }
}

/// What a click picking `pick` does: nothing without a pick; else the pick
/// is selected, and a click on the checkbox then acts as the space key.
pub open spec fn click_post(s0: Session, s1: Session, pick: Option<int>, checkbox: bool, r: Effect) -> bool {
    match pick {
        None => s1@ == s0@ && r is Nothing,
        Some(p) => if checkbox {
            exists|mid: Session| #[trigger] mid@ == (SessionView { selected_index: p as usize, ..s0@ })
                && key_post(mid, s1, Key::Char(' '), false, r)
        } else {
            s1@ == (SessionView { selected_index: p as usize, ..s0@ }) && r is Nothing
        },
    }
}

/// What a click does on a list drawn in `list`: it is taken when the
/// list's top border and the scroll offset leave room to count rows;
/// otherwise nothing changes.
pub open spec fn list_click(s0: Session, s1: Session, col: u16, row: u16, list: Area, r: Effect) -> bool {
    if list.y < u16::MAX && list.x + 8 <= u16::MAX && s0.view_offset + u16::MAX <= usize::MAX {
        click_post(s0, s1, picked(s0, row, list), on_checkbox(s0@.current_view, col, list), r)
    } else {
        s1@ == s0@ && r is Nothing
    }
}

/// What a left click at (`col`, `row`) in a terminal of `width` × `height`
/// does: a terminal narrower than 80 columns, or a view without a list,
/// takes no click; otherwise the click acts on the list wherever the
/// layout placed it (a full-width area at the left edge).
pub open spec fn click_outcome(s0: Session, s1: Session, col: u16, row: u16, width: u16, height: u16, r: Effect) -> bool {
    if width < 80 || spec_view_layout(s0@.current_view).len() < 2 {
        s1@ == s0@ && r is Nothing
    } else {
        exists|list: Area| list.x == 0 && list.width == width && #[trigger] list_click(s0, s1, col, row, list, r)
    }
}

// ---------------------------------------------------------------------------
// Computing the rows
// ---------------------------------------------------------------------------

fn position_in(s: &Vec<usize>, x: usize) -> (r: Option<usize>)
    ensures
        match position_of(s@, x) {
            Some(p) => r == Some(p as usize),
            None => r is None,
        },
{
    let mut i: usize = 0;
    while i < s.len()
        invariant
            i <= s@.len(),
            position_of(s@.take(i as int), x) is None,
        decreases s@.len() - i,
    {
        proof {
            assert(s@.take(i + 1).drop_last() =~= s@.take(i as int));
        }
        if s[i] == x {
            proof {
                lemma_position_prefix(s@, i as int + 1, x);
            }
            return Some(i);
        }
        i = i + 1;
    }
    proof {
        assert(s@.take(s@.len() as int) =~= s@);
    }
    None
}

/// A position found in a prefix stays the first one.
proof fn lemma_position_prefix(s: Seq<usize>, n: int, x: usize)
    requires
        0 <= n <= s.len(),
        position_of(s.take(n), x) is Some,
    ensures
        position_of(s, x) == position_of(s.take(n), x),
    decreases s.len() - n,
{
    if n < s.len() {
        assert(s.take(n + 1).drop_last() =~= s.take(n));
        lemma_position_prefix(s, n + 1, x);
    } else {
        assert(s.take(n) =~= s);
    }
}

/// The screen rows of a grouped module list: for each group its header,
/// a restore hint when its first item has restore steps, then its items
/// (positions in `order`).
pub fn grouped_screen_rows(items: &[Item], order: &Vec<usize>, bounds: &Vec<usize>) -> (r: Vec<Option<usize>>)
    requires
        forall|m: int| 0 <= m < order@.len() ==> (#[trigger] order@[m]) < items@.len(),
    ensures
        r@ == grouped_rows(items@, order@, bounds@, bounds@.len() as int),
{
    let mut rows: Vec<Option<usize>> = Vec::new();
    let mut g: usize = 0;
    while g < bounds.len()
        invariant
            g <= bounds@.len(),
            forall|m: int| 0 <= m < order@.len() ==> (#[trigger] order@[m]) < items@.len(),
            rows@ == grouped_rows(items@, order@, bounds@, g as int),
        decreases bounds@.len() - g,
    {
        let start = bounds[g];
        let end = if g + 1 < bounds.len() {
            bounds[g + 1]
        } else {
            order.len()
        };
        let ghost before = rows@;
        rows.push(None);
        let hint = start < order.len() && items[order[start]].restore_steps.is_some();
        if hint {
            rows.push(None);
        }
        let ghost head = rows@;
        let count: usize = if end > start {
            end - start
        } else {
            0
        };
        let mut i: usize = 0;
        while i < count
            invariant
                i <= count,
                count == (if end > start { end - start } else { 0 }),
                end <= usize::MAX,
                rows@ == head + Seq::new(i as nat, |j: int| Some((start + j) as usize)),
            decreases count - i,
        {
            rows.push(Some(start + i));
            assert(rows@ =~= head + Seq::new((i + 1) as nat, |j: int| Some((start + j) as usize)));
            i = i + 1;
        }
        assert(rows@ =~= before + group_block(items@, order@, bounds@, g as int));
        g = g + 1;
    }
    rows
}

/// The screen rows of the confirmation list: each item (its position),
/// then a line for its indicators, its restore steps and its removal
/// command where it has them.
pub fn confirm_rows_on_screen(rs: &Vec<crate::widgets::ConfirmItem>) -> (r: Vec<Option<usize>>)
    ensures
        r@ == confirm_screen_rows(crate::confirm::rows(rs@)),
{
    let mut out: Vec<Option<usize>> = Vec::new();
    let mut i: usize = 0;
    while i < rs.len()
        invariant
            i <= rs@.len(),
            out@ == confirm_screen_rows(crate::confirm::rows(rs@.take(i as int))),
        decreases rs@.len() - i,
    {
        let c = &rs[i];
        let ghost before = out@;
        proof {
            let t = crate::confirm::rows(rs@.take(i + 1));
            assert(t.drop_last() =~= crate::confirm::rows(rs@.take(i as int)));
            assert(t.last() == c@);
            assert(t.len() == i + 1);
        }
        out.push(Some(i));
        let indicators = c.safety_level == SafetyLevel::Warn || c.risk_level == RiskLevel::Medium
            || c.risk_level == RiskLevel::High || c.restore_kind == RestoreKind::Manual;
        if indicators {
            out.push(None);
        }
        if c.restore_steps.is_some() {
            out.push(None);
        }
        if c.removal_command.is_some() {
            out.push(None);
        }
        assert(out@ =~= confirm_screen_rows(crate::confirm::rows(rs@.take(i + 1))));
        i = i + 1;
    }
    assert(rs@.take(rs@.len() as int) =~= rs@);
    out
}

/// What a screen line of the confirmation list shows, by item position.
#[derive(Debug, Clone, Copy, PartialEq, Eq, Structural)]
pub enum ConfirmLine {
    /// The item's own line: checkbox, name, size and path.
    Item(usize),
    /// Its warning, risk and restore indicators.
    Indicators(usize),
    /// Its restore steps.
    RestoreSteps(usize),
    /// The command that removes it.
    Command(usize),
}

/// The screen lines of the confirmation list, line for line as
/// `confirm_screen_rows` counts them.
pub open spec fn spec_confirm_lines(rs: Seq<ConfirmView>) -> Seq<ConfirmLine>
    decreases rs.len(),
{
    if rs.len() == 0 {
        Seq::empty()
    } else {
        let c = rs.last();
        let i = (rs.len() - 1) as usize;
        spec_confirm_lines(rs.drop_last()) + seq![ConfirmLine::Item(i)]
            + (if has_indicators(c) { seq![ConfirmLine::Indicators(i)] } else { Seq::<ConfirmLine>::empty() })
            + (if c.restore_steps is Some { seq![ConfirmLine::RestoreSteps(i)] } else { Seq::<ConfirmLine>::empty() })
            + (if c.removal_command is Some { seq![ConfirmLine::Command(i)] } else { Seq::<ConfirmLine>::empty() })
    }
}

/// The item a line picks when clicked: its own line picks it, the others
/// nothing.
pub open spec fn line_entry(l: ConfirmLine) -> Option<usize> {
    match l {
        ConfirmLine::Item(i) => Some(i),
        _ => None,
    }
}

/// The screen lines of the confirmation list; clicking line `k` picks what
/// `confirm_rows_on_screen` gives at `k`.
pub fn confirm_lines(rs: &Vec<crate::widgets::ConfirmItem>) -> (r: Vec<ConfirmLine>)
    ensures
        r@ == spec_confirm_lines(crate::confirm::rows(rs@)),
        r@.map_values(|l: ConfirmLine| line_entry(l)) == confirm_screen_rows(crate::confirm::rows(rs@)),
{
    let mut out: Vec<ConfirmLine> = Vec::new();
    let mut i: usize = 0;
    while i < rs.len()
        invariant
            i <= rs@.len(),
            out@ == spec_confirm_lines(crate::confirm::rows(rs@.take(i as int))),
            out@.map_values(|l: ConfirmLine| line_entry(l)) == confirm_screen_rows(crate::confirm::rows(rs@.take(i as int))),
        decreases rs@.len() - i,
    {
        let c = &rs[i];
        let ghost before = out@;
        proof {
            let t = crate::confirm::rows(rs@.take(i + 1));
            assert(t.drop_last() =~= crate::confirm::rows(rs@.take(i as int)));
            assert(t.last() == c@);
            assert(t.len() == i + 1);
        }
        out.push(ConfirmLine::Item(i));
        let indicators = c.safety_level == SafetyLevel::Warn || c.risk_level == RiskLevel::Medium
            || c.risk_level == RiskLevel::High || c.restore_kind == RestoreKind::Manual;
        if indicators {
            out.push(ConfirmLine::Indicators(i));
        }
        if c.restore_steps.is_some() {
            out.push(ConfirmLine::RestoreSteps(i));
        }
        if c.removal_command.is_some() {
            out.push(ConfirmLine::Command(i));
        }
        assert(out@ =~= spec_confirm_lines(crate::confirm::rows(rs@.take(i + 1))));
        assert(out@.map_values(|l: ConfirmLine| line_entry(l)) =~= confirm_screen_rows(crate::confirm::rows(rs@.take(i + 1))));
        i = i + 1;
    }
    assert(rs@.take(rs@.len() as int) =~= rs@);
    out
}

fn entry_at(rows: &Vec<Option<usize>>, k: usize) -> (r: Option<usize>)
    ensures
        match row_entry(rows@, k as int) {
            Some(p) => r == Some(p as usize),
            None => r is None,
        },
{
    if k < rows.len() {
        rows[k]
    } else {
        None
    }
}

impl Session {
    /// The position a click on screen row `k` of the current list picks.
    fn click_target_exec(&self, k: usize) -> (r: Option<usize>)
        requires
            self.wf(),
        ensures
            match click_target(*self, k as int) {
                Some(p) => r == Some(p as usize),
                None => r is None,
            },
    {
        match self.current_view {
            types::View::ModuleList => {
                let all = all_sorted_module_indices(self.modules.as_slice(), self.filter_query.as_str(), &self.filter_risk, &self.filter_restore);
                let nav = sorted_module_indices(self.modules.as_slice(), self.filter_query.as_str(), &self.filter_risk, &self.filter_restore);
                if k < all.len() {
                    position_in(&nav, all[k])
                } else {
                    None
                }
            },
            types::View::ModuleDetail(m) => {
                if m < self.modules.len() {
                    let items = self.modules[m].items.as_slice();
                    let (order, bounds) = display_order_item_indices(items, self.filter_query.as_str());
                    if bounds.len() == 0 {
                        if k < order.len() {
                            Some(k)
                        } else {
                            None
                        }
                    } else {
                        proof {
                            lemma_display_bound(items@, self.filter_query@);
                        }
                        let rows = grouped_screen_rows(items, &order, &bounds);
                        entry_at(&rows, k)
                    }
                } else {
                    None
                }
            },
            types::View::FlatView => {
                let flat = sorted_flat_items(self.modules.as_slice(), self.filter_query.as_str(), &self.filter_risk, &self.filter_restore);
                if k < flat.len() {
                    Some(k)
                } else {
                    None
                }
            },
            types::View::FileBrowser => {
                let n = match self.drill.current_items() {
                    Some(items) => sorted_item_indices(items, self.filter_query.as_str()).len(),
                    None => 0,
                };
                if k < n {
                    Some(k)
                } else {
                    None
                }
            },
            types::View::CleanupConfirm => {
                let all = collect_selected_items(self.modules.as_slice(), &self.selected_items, &self.drill);
                let shown = visible_confirm_items(all, self.filter_query.as_str());
                let rows = confirm_rows_on_screen(&shown);
                entry_at(&rows, k)
            },
            _ => None,
        }
    }

    /// A click at (`col`, `row`) on the current view, whose list is drawn
    /// in `table`: the row under the pointer is selected, and a click on its
    /// checkbox toggles it as the space key does.
    pub fn click_in_table(&mut self, col: u16, row: u16, table: Area) -> (r: Effect)
        requires
            old(self).wf(),
            utf8_len(old(self)@.filter_query) + 4 <= usize::MAX,
            table.y < u16::MAX,
            table.x + 8 <= u16::MAX,
            old(self).view_offset + u16::MAX <= usize::MAX,
        ensures
            final(self).wf(),
            click_post(*old(self), *final(self), picked(*old(self), row, table), on_checkbox(old(self)@.current_view, col, table), r),
    {
        let confirm = match self.current_view {
            types::View::CleanupConfirm => true,
            _ => false,
        };
        let top: u16 = if confirm {
            table.y
        } else {
            table.y + 1
        };
        let height: u16 = if confirm {
            table.height
        } else if table.height >= 2 {
            table.height - 2
        } else {
            0
        };
        if height == 0 || row < top || row - top >= height {
            return Effect::Nothing;
        }
        let off = row - top;
        let pick = self.click_target_exec(self.view_offset + off as usize);
        match pick {
            None => Effect::Nothing,
            Some(p) => {
                let checkbox = if confirm {
                    col < table.x + 4
                } else {
                    is_checkbox_click(col, table)
                };
                self.selected_index = p;
                if checkbox {
                    let ghost mid = *self;
                    let r = self.handle_key(Key::Char(' '), false);
                    assert(mid@ == (SessionView { selected_index: p, ..old(self)@ }));
                    r
                } else {
                    Effect::Nothing
                }
            },
        }
    }

    /// A left click at (`col`, `row`) in a terminal of `width` columns and
    /// `height` rows: the list's area comes from the layout, then
    /// `click_in_table` decides. Terminals narrower than 80 columns show no
    /// list.
    pub fn handle_click(&mut self, col: u16, row: u16, width: u16, height: u16) -> (r: Effect)
        requires
            old(self).wf(),
            utf8_len(old(self)@.filter_query) + 4 <= usize::MAX,
        ensures
            final(self).wf(),
            click_outcome(*old(self), *final(self), col, row, width, height, r),
    {
        if width < 80 {
            return Effect::Nothing;
        }
        let layout = view_layout(self.current_view);
        let parts = split_rows(Area { x: 0, y: 0, width, height }, layout.as_slice());
        if parts.len() < 2 {
            return Effect::Nothing;
        }
        let table = parts[1];
        if table.y == u16::MAX || table.x > u16::MAX - 8 || self.view_offset > usize::MAX - 65535 {
            assert(list_click(*old(self), *self, col, row, table, Effect::Nothing));
            return Effect::Nothing;
        }
        let r = self.click_in_table(col, row, table);
        assert(list_click(*old(self), *self, col, row, table, r));
        r
    }
}

// ---------------------------------------------------------------------------
// Mouse events
// ---------------------------------------------------------------------------

/// A mouse event as the session sees it.
#[derive(Debug, Clone, Copy, PartialEq, Eq, Structural)]
pub enum MouseInput {
    ScrollUp,
    ScrollDown,
    /// The left button went down at a cell.
    LeftDown { col: u16, row: u16 },
    Other,
}

/// Whether a click on `row` repeats the previous click: same row, and less
/// than 400 ms after it (`previous` is its row and the milliseconds since).
pub open spec fn spec_is_double_click(previous: Option<(u16, u64)>, row: u16) -> bool {
    match previous {
        Some((r, elapsed)) => r == row && elapsed < 400,
        None => false,
    }
}

/// Whether a click on `row` is the second of a double click.
pub fn is_double_click(previous: Option<(u16, u64)>, row: u16) -> (r: bool)
    ensures
        r == spec_is_double_click(previous, row),
{
    match previous {
        Some((r, elapsed)) => r == row && elapsed < 400,
        None => false,
    }
}

impl Session {
    /// A mouse event: the wheel scrolls the view by one row; a double
    /// click acts as Enter on the selected row; a single click picks the
    /// row under the pointer.
    pub fn handle_mouse(&mut self, input: MouseInput, double: bool, width: u16, height: u16) -> (r: Effect)
        requires
            old(self).wf(),
            utf8_len(old(self)@.filter_query) + 4 <= usize::MAX,
        ensures
            final(self).wf(),
            match input {
                MouseInput::ScrollUp => final(self)@ == (SessionView {
                    view_offset: if old(self).view_offset > 0 { (old(self).view_offset - 1) as usize } else { 0 },
                    ..old(self)@
                }) && r is Nothing,
                MouseInput::ScrollDown => final(self)@ == (SessionView {
                    view_offset: if old(self).view_offset < usize::MAX { (old(self).view_offset + 1) as usize } else { usize::MAX },
                    ..old(self)@
                }) && r is Nothing,
                MouseInput::LeftDown { col, row } => if double {
                    key_post(*old(self), *final(self), Key::Enter, false, r)
                } else {
                    click_outcome(*old(self), *final(self), col, row, width, height, r)
                },
                MouseInput::Other => final(self)@ == old(self)@ && r is Nothing,
            },
    {
        match input {
            MouseInput::ScrollUp => {
                if self.view_offset > 0 {
                    self.view_offset = self.view_offset - 1;
                }
                Effect::Nothing
            },
            MouseInput::ScrollDown => {
                if self.view_offset < usize::MAX {
                    self.view_offset = self.view_offset + 1;
                }
                Effect::Nothing
            },
            MouseInput::LeftDown { col, row } => if double {
                self.handle_key(Key::Enter, false)
            } else {
                self.handle_click(col, row, width, height)
            },
            MouseInput::Other => Effect::Nothing,
        }
    }
}

} // verus!
