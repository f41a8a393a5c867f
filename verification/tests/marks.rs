use freespace::cleaner::CleanupAction;
use freespace::manifest::{Module, RestoreKind, RiskLevel};
use freespace::marks::{filtered_deduped_total, shown_total};
use freespace::safety::SafetyLevel;
use freespace::session::Session;
use freespace::types::{Item, ItemType, ModuleState, ModuleStatus};
use freespace::widgets::CheckState;

fn module(name: &str) -> Module {
    Module {
        id: name.to_string(),
        name: name.to_string(),
        version: "1.0.0".to_string(),
        description: "test".to_string(),
        author: "tester".to_string(),
        platforms: vec!["macos".to_string()],
        tags: vec![],
        icon: None,
        icon_color: None,
        targets: vec![],
    }
}

fn item(path: &str, size: Option<u64>, risk: RiskLevel, restore: RestoreKind) -> Item {
    Item {
        name: path.rsplit('/').next().unwrap_or(path).to_string(),
        path: path.to_string(),
        size,
        item_type: ItemType::Directory,
        target_description: None,
        safety_level: SafetyLevel::Safe,
        is_shared: false,
        restore_kind: restore,
        restore_steps: None,
        risk_level: risk,
        ignore_patterns: vec![],
        action: CleanupAction::Path,
        display_path: None,
    }
}

fn state(name: &str, items: Vec<Item>) -> ModuleState {
    let total = items.iter().map(|i| i.size.unwrap_or(0)).sum();
    ModuleState {
        module: module(name),
        items,
        total_size: Some(total),
        status: ModuleStatus::Ready,
        manifest_path: None,
        update_status: None,
    }
}

#[test]
fn check_state_of_selected_path_and_below() {
    let mut s = Session::new(vec![]);
    s.selected_items.insert("/a/b".to_string());
    assert_eq!(s.check_state("/a/b"), CheckState::All);
    assert_eq!(s.check_state("/a/b/"), CheckState::All);
    assert_eq!(s.check_state("/a/b/c/d"), CheckState::All);
    assert_eq!(s.check_state("/a"), CheckState::Partial);
    assert_eq!(s.check_state("/"), CheckState::Partial);
    assert_eq!(s.check_state("/a/bc"), CheckState::Empty);
    assert_eq!(s.check_state("/x"), CheckState::Empty);
}

#[test]
fn check_state_with_nothing_selected() {
    let s = Session::new(vec![]);
    assert_eq!(s.check_state("/tmp"), CheckState::Empty);
}

#[test]
fn module_check_state_counts_marked_items() {
    let m = state(
        "m",
        vec![
            item("/m/one", Some(1), RiskLevel::Safe, RestoreKind::Auto),
            item("/m/two", Some(2), RiskLevel::Safe, RestoreKind::Auto),
        ],
    );
    let mut s = Session::new(vec![m, state("empty", vec![])]);
    assert_eq!(s.module_check_state(0), CheckState::Empty);
    assert_eq!(s.module_check_state(1), CheckState::Empty);
    s.selected_items.insert("/m/one/inner".to_string());
    assert_eq!(s.module_check_state(0), CheckState::Partial);
    s.selected_items.insert("/m".to_string());
    assert_eq!(s.module_check_state(0), CheckState::All);
}

#[test]
fn filtered_total_counts_each_path_once() {
    let a = state(
        "a",
        vec![
            item("/shared", Some(100), RiskLevel::Safe, RestoreKind::Auto),
            item("/only-a", Some(10), RiskLevel::High, RestoreKind::Auto),
        ],
    );
    let b = state(
        "b",
        vec![
            item("/shared/", Some(100), RiskLevel::Safe, RestoreKind::Auto),
            item("/only-b", Some(1), RiskLevel::Safe, RestoreKind::Manual),
            item("/unsized", None, RiskLevel::Safe, RestoreKind::Auto),
        ],
    );
    let mut s = Session::new(vec![a, b]);
    assert_eq!(filtered_deduped_total(&s), 111);
    s.filter_risk = [true, true, true, false];
    assert_eq!(filtered_deduped_total(&s), 101);
    s.filter_restore = [true, false];
    assert_eq!(filtered_deduped_total(&s), 100);
}

#[test]
fn shown_total_follows_filter() {
    let a = state(
        "a",
        vec![
            item("/x", Some(5), RiskLevel::Safe, RestoreKind::Auto),
            item("/y", Some(7), RiskLevel::Medium, RestoreKind::Auto),
        ],
    );
    let mut s = Session::new(vec![a]);
    s.deduped_total = 12;
    assert_eq!(shown_total(&s), 12);
    s.filter_risk = [true, true, false, true];
    assert_eq!(shown_total(&s), 5);
}

#[test]
fn module_list_rows_show_filtered_sizes_and_counts() {
    let a = state(
        "a",
        vec![
            item("/x", Some(5), RiskLevel::Safe, RestoreKind::Auto),
            item("/y", Some(7), RiskLevel::Medium, RestoreKind::Auto),
        ],
    );
    let mut b = state("b", vec![]);
    b.status = ModuleStatus::Error("boom".to_string());
    b.total_size = Some(0);
    let mut s = Session::new(vec![a, b]);
    s.selected_items.insert("/x".to_string());
    let rows = s.module_list_rows(true);
    assert_eq!(rows.len(), 2);
    assert_eq!(rows[0].index, 0);
    assert_eq!(rows[0].name, "a");
    assert_eq!(rows[0].icon, "\u{f07c}");
    assert_eq!(rows[0].item_count, 2);
    assert_eq!(rows[0].size, Some(12));
    assert_eq!(rows[0].check, CheckState::Partial);
    assert!(rows[0].status_text.is_none());
    assert_eq!(rows[1].status_text.as_deref(), Some("\u{26a0} boom"));
    assert!(rows[1].dimmed);
    s.filter_risk = [true, true, false, true];
    let rows = s.module_list_rows(false);
    assert_eq!(rows[0].size, Some(5));
    assert_eq!(rows[0].icon, "");
}
