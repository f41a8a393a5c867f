use freespace::cleaner::CleanupAction;
use freespace::manifest::{Module, RestoreKind, RiskLevel};
use freespace::mouse::{confirm_lines, confirm_rows_on_screen, ConfirmLine, grouped_screen_rows, is_double_click, view_layout, Extent, MouseInput};
use freespace::detail::{detail_lines, DetailLine};
use freespace::ranking::display_order_item_indices;
use freespace::safety::SafetyLevel;
use freespace::session::{Effect, Session};
use freespace::types::{Item, ItemType, ModuleState, ModuleStatus, View};
use freespace::widgets::{Area, ConfirmItem};

fn module(name: &str) -> Module {
    Module {
        id: name.to_string(),
        name: name.to_string(),
        version: "1.0.0".to_string(),
        description: "test".to_string(),
        author: "tester".to_string(),
        platforms: vec!["macos".to_string()],
        tags: vec![],
        icon: None,
        icon_color: None,
        targets: vec![],
    }
}

fn item(path: &str, size: u64, desc: Option<&str>, steps: Option<&str>) -> Item {
    Item {
        name: path.rsplit('/').next().unwrap_or(path).to_string(),
        path: path.to_string(),
        size: Some(size),
        item_type: ItemType::Directory,
        target_description: desc.map(|d| d.to_string()),
        safety_level: SafetyLevel::Safe,
        is_shared: false,
        restore_kind: RestoreKind::Auto,
        restore_steps: steps.map(|s| s.to_string()),
        risk_level: RiskLevel::Safe,
        ignore_patterns: vec![],
        action: CleanupAction::Path,
        display_path: None,
    }
}

fn state(name: &str, items: Vec<Item>) -> ModuleState {
    let total = items.iter().map(|i| i.size.unwrap_or(0)).sum();
    ModuleState {
        module: module(name),
        items,
        total_size: Some(total),
        status: ModuleStatus::Ready,
        manifest_path: None,
        update_status: None,
    }
}

fn two_modules() -> Session {
    Session::new(vec![
        state("small", vec![item("/s/a", 10, None, None)]),
        state("large", vec![item("/l/a", 1000, None, None), item("/l/b", 500, None, None)]),
    ])
}

#[test]
fn layouts_put_the_list_second() {
    assert_eq!(
        view_layout(View::ModuleList),
        vec![Extent::Length(3), Extent::Min(1), Extent::Length(2), Extent::Length(1)]
    );
    assert_eq!(view_layout(View::ModuleDetail(0)).len(), 5);
    assert_eq!(
        view_layout(View::CleanupConfirm),
        vec![Extent::Length(3), Extent::Min(3), Extent::Length(2), Extent::Length(1)]
    );
    assert!(view_layout(View::Help).is_empty());
}

#[test]
fn double_click_needs_same_row_and_short_gap() {
    assert!(is_double_click(Some((5, 100)), 5));
    assert!(!is_double_click(Some((5, 400)), 5));
    assert!(!is_double_click(Some((6, 100)), 5));
    assert!(!is_double_click(None, 5));
}

#[test]
fn wheel_scrolls_by_one_row() {
    let mut s = two_modules();
    assert!(matches!(s.handle_mouse(MouseInput::ScrollUp, false, 100, 30), Effect::Nothing));
    assert_eq!(s.view_offset, 0);
    s.handle_mouse(MouseInput::ScrollDown, false, 100, 30);
    s.handle_mouse(MouseInput::ScrollDown, false, 100, 30);
    assert_eq!(s.view_offset, 2);
    s.handle_mouse(MouseInput::ScrollUp, false, 100, 30);
    assert_eq!(s.view_offset, 1);
}

#[test]
fn click_in_module_list_selects_row() {
    let mut s = two_modules();
    let table = Area { x: 0, y: 3, width: 100, height: 10 };
    // The first row inside the border is the largest module.
    s.click_in_table(30, 5, table);
    assert_eq!(s.selected_index, 1);
    s.click_in_table(30, 4, table);
    assert_eq!(s.selected_index, 0);
    assert!(s.selected_items.is_empty());
    // Outside the rows: on the border, or past the last row.
    s.click_in_table(30, 3, table);
    s.click_in_table(30, 12, table);
    assert_eq!(s.selected_index, 0);
}

#[test]
fn click_on_checkbox_toggles_module() {
    let mut s = two_modules();
    let table = Area { x: 0, y: 3, width: 100, height: 10 };
    s.click_in_table(5, 4, table);
    assert_eq!(s.selected_index, 0);
    assert!(s.selected_items.contains("/l/a"));
    assert!(s.selected_items.contains("/l/b"));
    assert!(!s.selected_items.contains("/s/a"));
}

#[test]
fn click_below_last_row_changes_nothing() {
    let mut s = two_modules();
    s.selected_index = 1;
    let table = Area { x: 0, y: 3, width: 100, height: 10 };
    s.click_in_table(30, 7, table);
    assert_eq!(s.selected_index, 1);
}

#[test]
fn click_follows_scroll_offset() {
    let mut s = two_modules();
    s.view_offset = 1;
    let table = Area { x: 0, y: 3, width: 100, height: 10 };
    s.click_in_table(30, 4, table);
    assert_eq!(s.selected_index, 1);
}

#[test]
fn narrow_terminal_takes_no_click() {
    let mut s = two_modules();
    s.selected_index = 1;
    s.handle_click(30, 4, 79, 30);
    assert_eq!(s.selected_index, 1);
}

#[test]
fn click_through_layout_of_module_list() {
    let mut s = two_modules();
    s.selected_index = 1;
    // Title bar takes three rows; the list's border one more.
    s.handle_click(30, 4, 100, 30);
    assert_eq!(s.selected_index, 0);
}

#[test]
fn double_click_opens_selected_module() {
    let mut s = two_modules();
    s.handle_mouse(MouseInput::LeftDown { col: 30, row: 4 }, true, 100, 30);
    assert!(matches!(s.current_view, View::ModuleDetail(_)));
}

#[test]
fn grouped_rows_have_headers_and_hints() {
    let items = vec![
        item("/m/a", 100, Some("caches"), Some("rebuild")),
        item("/m/b", 10, Some("logs"), None),
        item("/m/c", 50, Some("caches"), Some("rebuild")),
    ];
    let (order, bounds) = display_order_item_indices(&items, "");
    assert_eq!(order, vec![0, 2, 1]);
    assert_eq!(bounds, vec![0, 2]);
    let rows = grouped_screen_rows(&items, &order, &bounds);
    assert_eq!(rows, vec![None, None, Some(0), Some(1), None, Some(2)]);
}

#[test]
fn click_in_grouped_detail_skips_headers() {
    let items = vec![
        item("/m/a", 100, Some("caches"), Some("rebuild")),
        item("/m/b", 10, Some("logs"), None),
        item("/m/c", 50, Some("caches"), Some("rebuild")),
    ];
    let mut s = Session::new(vec![state("m", items)]);
    s.current_view = View::ModuleDetail(0);
    let table = Area { x: 0, y: 4, width: 100, height: 10 };
    s.selected_index = 2;
    // Header and hint rows pick nothing.
    s.click_in_table(30, 5, table);
    s.click_in_table(30, 6, table);
    assert_eq!(s.selected_index, 2);
    s.click_in_table(30, 8, table);
    assert_eq!(s.selected_index, 1);
    s.click_in_table(30, 10, table);
    assert_eq!(s.selected_index, 2);
}

fn confirm_item(name: &str, risk: RiskLevel, steps: Option<&str>, cmd: Option<&str>) -> ConfirmItem {
    ConfirmItem {
        name: name.to_string(),
        path: format!("/tmp/{}", name),
        size: Some(1),
        safety_level: SafetyLevel::Safe,
        restore_kind: RestoreKind::Auto,
        restore_steps: steps.map(|s| s.to_string()),
        risk_level: risk,
        removal_command: cmd.map(|c| c.to_string()),
        reversible: true,
        display_path: None,
    }
}

#[test]
fn confirm_rows_carry_detail_lines() {
    let items = vec![
        confirm_item("plain", RiskLevel::Safe, None, None),
        confirm_item("risky", RiskLevel::High, Some("reinstall"), Some("xcrun simctl delete X")),
        confirm_item("last", RiskLevel::Low, None, None),
    ];
    assert_eq!(
        confirm_rows_on_screen(&items),
        vec![Some(0), Some(1), None, None, None, Some(2)]
    );
}

#[test]
fn click_in_confirm_list_uses_rows_without_border() {
    let mut s = Session::new(vec![state(
        "m",
        vec![item("/m/big", 1000, None, None), item("/m/small", 10, None, None)],
    )]);
    s.selected_items.insert("/m/big".to_string());
    s.selected_items.insert("/m/small".to_string());
    s.confirm_checked = s.selected_items.copy();
    s.current_view = View::CleanupConfirm;
    let table = Area { x: 0, y: 3, width: 100, height: 10 };
    s.click_in_table(30, 4, table);
    assert_eq!(s.selected_index, 1);
    s.click_in_table(30, 3, table);
    assert_eq!(s.selected_index, 0);
    // The checkbox of the confirmation list is four columns wide.
    s.click_in_table(3, 3, table);
    assert!(!s.confirm_checked.contains("/m/big"));
    assert!(s.confirm_checked.contains("/m/small"));
}

#[test]
fn confirm_lines_match_click_rows() {
    let items = vec![
        confirm_item("plain", RiskLevel::Safe, None, None),
        confirm_item("risky", RiskLevel::High, Some("reinstall"), Some("xcrun simctl delete X")),
    ];
    assert_eq!(
        confirm_lines(&items),
        vec![
            ConfirmLine::Item(0),
            ConfirmLine::Item(1),
            ConfirmLine::Indicators(1),
            ConfirmLine::RestoreSteps(1),
            ConfirmLine::Command(1),
        ]
    );
}

fn describe(lines: &[DetailLine]) -> Vec<String> {
    lines
        .iter()
        .map(|l| match l {
            DetailLine::Header { label, badges, size, warn } => format!("H {}{} {} {}", label, badges, size, warn),
            DetailLine::Hint { steps } => format!("R {}", steps),
            DetailLine::Item { pos, index } => format!("I {} {}", pos, index),
        })
        .collect()
}

#[test]
fn detail_lines_group_items_with_headers() {
    let mut items = vec![
        item("/m/a", 100, Some("caches"), Some("rebuild")),
        item("/m/b", 10, Some("logs"), None),
        item("/m/c", 50, Some("caches"), Some("rebuild")),
    ];
    items[1].risk_level = RiskLevel::High;
    items[1].restore_kind = RestoreKind::Manual;
    let lines = detail_lines(&items, "");
    assert_eq!(
        describe(&lines),
        vec![
            "H caches 150 false",
            "R rebuild",
            "I 0 0",
            "I 1 2",
            "H logs [high risk] [manual restore] 10 true",
            "I 2 1",
        ]
    );
}

#[test]
fn detail_lines_without_groups_list_items() {
    let items = vec![item("/m/a", 1, None, None), item("/m/b", 2, None, None)];
    assert_eq!(describe(&detail_lines(&items, "")), vec!["I 0 1", "I 1 0"]);
}
