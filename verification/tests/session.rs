use freespace::cleaner::{CleanupAction, CleanupResult};
use freespace::confirm::{collect_selected_items, visible_confirm_items};
use freespace::handlers::identity_path;
use freespace::manifest::{Module, RestoreKind, RiskLevel, Target};
use freespace::ranking::{
    all_sorted_module_indices, display_order_item_indices, sorted_flat_items, sorted_item_indices,
    sorted_module_indices,
};
use freespace::safety::SafetyLevel;
use freespace::session::{normalize_emacs_key, Effect, Key, Session};
use freespace::types::{FlashLevel, Item, ItemType, ModuleState, ModuleStatus, ScanStatus, View};

fn module(name: &str) -> Module {
    Module {
        id: name.to_string(),
        name: name.to_string(),
        version: "1.0.0".to_string(),
        description: "test".to_string(),
        author: "tester".to_string(),
        platforms: vec!["macos".to_string()],
        tags: vec![],
        icon: None,
        icon_color: None,
        targets: vec![Target {
            paths: vec!["~/test".to_string()],
            description: None,
            restore: RestoreKind::default(),
            restore_steps: None,
            risk: RiskLevel::default(),
            ignore: vec![],
        }],
    }
}

fn item(name: &str, path: &str, size: Option<u64>, item_type: ItemType) -> Item {
    Item {
        name: name.to_string(),
        path: path.to_string(),
        size,
        item_type,
        target_description: None,
        safety_level: SafetyLevel::Safe,
        is_shared: false,
        restore_kind: RestoreKind::default(),
        restore_steps: None,
        risk_level: RiskLevel::default(),
        ignore_patterns: vec![],
        action: CleanupAction::Path,
        display_path: None,
    }
}

fn make_module(name: &str, items: Vec<(&str, u64)>) -> ModuleState {
    let items: Vec<Item> = items
        .into_iter()
        .map(|(n, size)| item(n, &format!("/tmp/test/{}", n), Some(size), ItemType::Directory))
        .collect();
    ModuleState {
        module: module(name),
        items,
        total_size: Some(0),
        status: ModuleStatus::Ready,
        manifest_path: None,
        update_status: None,
    }
}

fn make_test_app() -> Session {
    let mut m1 = make_module("docker", vec![("images", 5_000_000_000), ("volumes", 2_000_000_000)]);
    m1.total_size = Some(7_000_000_000);
    let mut m2 = make_module("npm-cache", vec![("_cacache", 1_000_000_000)]);
    m2.total_size = Some(1_000_000_000);
    Session::new(vec![m1, m2])
}

fn press(app: &mut Session, key: Key) -> Effect {
    app.handle_key(key, false)
}

fn ctrl(app: &mut Session, key: Key) -> Effect {
    app.handle_key(key, true)
}


#[test]
fn app_navigate_down_j() {
    let mut app = make_test_app();
    assert_eq!(app.selected_index, 0);
    press(&mut app, Key::Char('j'));
    assert_eq!(app.selected_index, 1);
}

#[test]
fn app_navigate_down_arrow() {
    let mut app = make_test_app();
    press(&mut app, Key::Down);
    assert_eq!(app.selected_index, 1);
}

#[test]
fn app_navigate_up_k() {
    let mut app = make_test_app();
    press(&mut app, Key::Char('j'));
    press(&mut app, Key::Char('k'));
    assert_eq!(app.selected_index, 0);
}

#[test]
fn app_navigate_up_wraps() {
    let mut app = make_test_app();
    press(&mut app, Key::Char('k'));
    assert_eq!(app.selected_index, 1); // wraps to last
}

#[test]
fn app_navigate_down_wraps() {
    let mut app = make_test_app();
    press(&mut app, Key::Char('j'));
    press(&mut app, Key::Char('j'));
    assert_eq!(app.selected_index, 0); // wraps to first
}

#[test]
fn app_enter_opens_detail() {
    let mut app = make_test_app();
    press(&mut app, Key::Enter);
    match app.current_view {
        View::ModuleDetail(_) => {}
        _ => panic!("expected ModuleDetail view"),
    }
}

#[test]
fn app_space_toggles_module_selection() {
    let mut app = make_test_app();
    assert!(app.selected_items.is_empty());
    press(&mut app, Key::Char(' '));
    assert!(!app.selected_items.is_empty());
    // Toggle again to deselect
    press(&mut app, Key::Char(' '));
    assert!(app.selected_items.is_empty());
}

#[test]
fn app_select_all_a() {
    let mut app = make_test_app();
    press(&mut app, Key::Char('a'));
    // All items from both modules are selected
    assert_eq!(app.selected_items.len(), 3);
}

#[test]
fn app_deselect_all_n() {
    let mut app = make_test_app();
    press(&mut app, Key::Char('a'));
    assert_eq!(app.selected_items.len(), 3);
    press(&mut app, Key::Char('n'));
    assert!(app.selected_items.is_empty());
}

#[test]
fn app_q_quits() {
    let mut app = make_test_app();
    press(&mut app, Key::Char('q'));
    assert!(app.should_quit);
}

#[test]
fn app_ctrl_c_quits() {
    let mut app = make_test_app();
    ctrl(&mut app, Key::Char('c'));
    assert!(app.should_quit);
}

#[test]
fn app_ctrl_c_quits_during_filter() {
    let mut app = make_test_app();
    press(&mut app, Key::Char('/'));
    assert!(app.filter_active);
    ctrl(&mut app, Key::Char('c'));
    assert!(app.should_quit);
}

#[test]
fn app_esc_from_detail_returns_to_list() {
    let mut app = make_test_app();
    press(&mut app, Key::Enter);
    assert!(matches!(app.current_view, View::ModuleDetail(_)));
    press(&mut app, Key::Esc);
    assert!(matches!(app.current_view, View::ModuleList));
}

#[test]
fn app_question_mark_opens_help() {
    let mut app = make_test_app();
    press(&mut app, Key::Char('?'));
    assert!(matches!(app.current_view, View::Help));
}

#[test]
fn app_esc_from_help_returns() {
    let mut app = make_test_app();
    press(&mut app, Key::Char('?'));
    assert!(matches!(app.current_view, View::Help));
    press(&mut app, Key::Esc);
    assert!(matches!(app.current_view, View::ModuleList));
}

#[test]
fn app_slash_activates_filter() {
    let mut app = make_test_app();
    press(&mut app, Key::Char('/'));
    assert!(app.filter_active);
}

#[test]
fn app_filter_typing_updates_query() {
    let mut app = make_test_app();
    press(&mut app, Key::Char('/'));
    press(&mut app, Key::Char('d'));
    press(&mut app, Key::Char('o'));
    assert_eq!(app.filter_query, "do");
}

#[test]
fn app_filter_esc_clears() {
    let mut app = make_test_app();
    press(&mut app, Key::Char('/'));
    press(&mut app, Key::Char('t'));
    press(&mut app, Key::Esc);
    assert!(!app.filter_active);
    assert!(app.filter_query.is_empty());
}

#[test]
fn app_filter_enter_accepts() {
    let mut app = make_test_app();
    press(&mut app, Key::Char('/'));
    press(&mut app, Key::Char('d'));
    press(&mut app, Key::Enter);
    assert!(!app.filter_active);
    assert_eq!(app.filter_query, "d"); // query kept
}

#[test]
fn app_filter_backspace_removes_char() {
    let mut app = make_test_app();
    press(&mut app, Key::Char('/'));
    press(&mut app, Key::Char('a'));
    press(&mut app, Key::Char('b'));
    press(&mut app, Key::Backspace);
    assert_eq!(app.filter_query, "a");
}

#[test]
fn app_c_with_selection_opens_confirm() {
    let mut app = make_test_app();
    press(&mut app, Key::Char('a')); // select all
    press(&mut app, Key::Char('c'));
    assert!(matches!(app.current_view, View::CleanupConfirm));
}

#[test]
fn app_c_without_selection_does_nothing() {
    let mut app = make_test_app();
    press(&mut app, Key::Char('c'));
    assert!(matches!(app.current_view, View::ModuleList));
}

#[test]
fn app_cleanup_n_cancels() {
    let mut app = make_test_app();
    press(&mut app, Key::Char('a'));
    let selected_count = app.selected_items.len();
    press(&mut app, Key::Char('c'));
    assert!(matches!(app.current_view, View::CleanupConfirm));
    press(&mut app, Key::Char('n'));
    assert!(matches!(app.current_view, View::ModuleList));
    // Cancelling keeps the selection
    assert_eq!(app.selected_items.len(), selected_count);
}

#[test]
fn app_detail_space_toggles_item() {
    let mut app = make_test_app();
    press(&mut app, Key::Enter); // enter detail
    assert!(matches!(app.current_view, View::ModuleDetail(_)));
    press(&mut app, Key::Char(' '));
    assert_eq!(app.selected_items.len(), 1);
    press(&mut app, Key::Char(' '));
    assert!(app.selected_items.is_empty());
}

#[test]
fn app_detail_backspace_goes_back() {
    let mut app = make_test_app();
    press(&mut app, Key::Enter);
    assert!(matches!(app.current_view, View::ModuleDetail(_)));
    press(&mut app, Key::Backspace);
    assert!(matches!(app.current_view, View::ModuleList));
}

#[test]
fn app_ctrl_n_moves_down() {
    let mut app = make_test_app();
    ctrl(&mut app, Key::Char('n'));
    assert_eq!(app.selected_index, 1);
}

#[test]
fn app_ctrl_p_moves_up() {
    let mut app = make_test_app();
    press(&mut app, Key::Char('j'));
    ctrl(&mut app, Key::Char('p'));
    assert_eq!(app.selected_index, 0);
}

#[test]
fn app_module_list_sorted_excludes_zero_size() {
    let mut m = make_module("empty", vec![]);
    m.total_size = Some(0);
    let app = Session::new(vec![m]);
    let sorted = sorted_module_indices(&app.modules, &app.filter_query, &app.filter_risk, &app.filter_restore);
    assert!(sorted.is_empty()); // 0 B modules are left out of navigation
}

#[test]
fn app_module_list_sorted_respects_filter() {
    let mut app = make_test_app();
    app.filter_query = "dock".to_string();
    let sorted = sorted_module_indices(&app.modules, &app.filter_query, &app.filter_risk, &app.filter_restore);
    assert_eq!(sorted.len(), 1);
}

#[test]
fn app_collect_selected_items_sorted_by_size() {
    let mut app = make_test_app();
    for mi in 0..app.modules.len() {
        for ii in 0..app.modules[mi].items.len() {
            let p = app.modules[mi].items[ii].path.clone();
            app.selected_items.insert(p);
        }
    }
    let items = collect_selected_items(&app.modules, &app.selected_items, &app.drill);
    assert_eq!(items.len(), 3);
    let sizes: Vec<Option<u64>> = items.iter().map(|i| i.size).collect();
    for w in sizes.windows(2) {
        assert!(w[0] >= w[1]);
    }
}

#[test]
fn mod_navigate_down_j() {
    let mut app = make_test_app();
    assert_eq!(app.selected_index, 0);
    press(&mut app, Key::Char('j'));
    assert_eq!(app.selected_index, 1);
}

#[test]
fn mod_navigate_down_arrow() {
    let mut app = make_test_app();
    press(&mut app, Key::Down);
    assert_eq!(app.selected_index, 1);
}

#[test]
fn mod_navigate_up_k() {
    let mut app = make_test_app();
    press(&mut app, Key::Char('j'));
    press(&mut app, Key::Char('k'));
    assert_eq!(app.selected_index, 0);
}

#[test]
fn mod_navigate_up_wraps() {
    let mut app = make_test_app();
    press(&mut app, Key::Char('k'));
    assert_eq!(app.selected_index, 1); // wraps to last
}

#[test]
fn mod_navigate_down_wraps() {
    let mut app = make_test_app();
    press(&mut app, Key::Char('j'));
    press(&mut app, Key::Char('j'));
    assert_eq!(app.selected_index, 0); // wraps to first
}

#[test]
fn mod_enter_opens_detail() {
    let mut app = make_test_app();
    press(&mut app, Key::Enter);
    match app.current_view {
        View::ModuleDetail(_) => {}
        _ => panic!("expected ModuleDetail view"),
    }
}

#[test]
fn mod_space_toggles_module_selection() {
    let mut app = make_test_app();
    assert!(app.selected_items.is_empty());
    press(&mut app, Key::Char(' '));
    assert!(!app.selected_items.is_empty());
    // Toggle again to deselect
    press(&mut app, Key::Char(' '));
    assert!(app.selected_items.is_empty());
}

#[test]
fn mod_select_all_a() {
    let mut app = make_test_app();
    press(&mut app, Key::Char('a'));
    // All items from both modules are selected
    assert_eq!(app.selected_items.len(), 3);
}

#[test]
fn mod_deselect_all_n() {
    let mut app = make_test_app();
    press(&mut app, Key::Char('a'));
    assert_eq!(app.selected_items.len(), 3);
    press(&mut app, Key::Char('n'));
    assert!(app.selected_items.is_empty());
}

#[test]
fn mod_q_quits() {
    let mut app = make_test_app();
    press(&mut app, Key::Char('q'));
    assert!(app.should_quit);
}

#[test]
fn mod_ctrl_c_quits() {
    let mut app = make_test_app();
    ctrl(&mut app, Key::Char('c'));
    assert!(app.should_quit);
}

#[test]
fn mod_ctrl_c_quits_during_filter() {
    let mut app = make_test_app();
    press(&mut app, Key::Char('/'));
    assert!(app.filter_active);
    ctrl(&mut app, Key::Char('c'));
    assert!(app.should_quit);
}

#[test]
fn mod_esc_from_detail_returns_to_list() {
    let mut app = make_test_app();
    press(&mut app, Key::Enter);
    assert!(matches!(app.current_view, View::ModuleDetail(_)));
    press(&mut app, Key::Esc);
    assert!(matches!(app.current_view, View::ModuleList));
}

#[test]
fn mod_question_mark_opens_help() {
    let mut app = make_test_app();
    press(&mut app, Key::Char('?'));
    assert!(matches!(app.current_view, View::Help));
}

#[test]
fn mod_esc_from_help_returns() {
    let mut app = make_test_app();
    press(&mut app, Key::Char('?'));
    assert!(matches!(app.current_view, View::Help));
    press(&mut app, Key::Esc);
    assert!(matches!(app.current_view, View::ModuleList));
}

#[test]
fn mod_slash_activates_filter() {
    let mut app = make_test_app();
    press(&mut app, Key::Char('/'));
    assert!(app.filter_active);
}

#[test]
fn mod_filter_typing_updates_query() {
    let mut app = make_test_app();
    press(&mut app, Key::Char('/'));
    press(&mut app, Key::Char('d'));
    press(&mut app, Key::Char('o'));
    assert_eq!(app.filter_query, "do");
}

#[test]
fn mod_filter_esc_clears() {
    let mut app = make_test_app();
    press(&mut app, Key::Char('/'));
    press(&mut app, Key::Char('t'));
    press(&mut app, Key::Esc);
    assert!(!app.filter_active);
    assert!(app.filter_query.is_empty());
}

#[test]
fn mod_filter_enter_accepts() {
    let mut app = make_test_app();
    press(&mut app, Key::Char('/'));
    press(&mut app, Key::Char('d'));
    press(&mut app, Key::Enter);
    assert!(!app.filter_active);
    assert_eq!(app.filter_query, "d"); // query kept
}

#[test]
fn mod_filter_backspace_removes_char() {
    let mut app = make_test_app();
    press(&mut app, Key::Char('/'));
    press(&mut app, Key::Char('a'));
    press(&mut app, Key::Char('b'));
    press(&mut app, Key::Backspace);
    assert_eq!(app.filter_query, "a");
}

#[test]
fn mod_c_with_selection_opens_confirm() {
    let mut app = make_test_app();
    press(&mut app, Key::Char('a')); // select all
    press(&mut app, Key::Char('c'));
    assert!(matches!(app.current_view, View::CleanupConfirm));
}

#[test]
fn mod_c_without_selection_does_nothing() {
    let mut app = make_test_app();
    press(&mut app, Key::Char('c'));
    assert!(matches!(app.current_view, View::ModuleList));
}

#[test]
fn mod_cleanup_n_cancels() {
    let mut app = make_test_app();
    press(&mut app, Key::Char('a'));
    let selected_count = app.selected_items.len();
    press(&mut app, Key::Char('c'));
    assert!(matches!(app.current_view, View::CleanupConfirm));
    press(&mut app, Key::Char('n'));
    assert!(matches!(app.current_view, View::ModuleList));
    // Cancelling keeps the selection
    assert_eq!(app.selected_items.len(), selected_count);
}

#[test]
fn mod_detail_space_toggles_item() {
    let mut app = make_test_app();
    press(&mut app, Key::Enter); // enter detail
    assert!(matches!(app.current_view, View::ModuleDetail(_)));
    press(&mut app, Key::Char(' '));
    assert_eq!(app.selected_items.len(), 1);
    press(&mut app, Key::Char(' '));
    assert!(app.selected_items.is_empty());
}

#[test]
fn mod_detail_backspace_goes_back() {
    let mut app = make_test_app();
    press(&mut app, Key::Enter);
    assert!(matches!(app.current_view, View::ModuleDetail(_)));
    press(&mut app, Key::Backspace);
    assert!(matches!(app.current_view, View::ModuleList));
}

#[test]
fn mod_ctrl_n_moves_down() {
    let mut app = make_test_app();
    ctrl(&mut app, Key::Char('n'));
    assert_eq!(app.selected_index, 1);
}

#[test]
fn mod_ctrl_p_moves_up() {
    let mut app = make_test_app();
    press(&mut app, Key::Char('j'));
    ctrl(&mut app, Key::Char('p'));
    assert_eq!(app.selected_index, 0);
}

#[test]
fn mod_module_list_sorted_excludes_zero_size() {
    let mut m = make_module("empty", vec![]);
    m.total_size = Some(0);
    let app = Session::new(vec![m]);
    let sorted = sorted_module_indices(&app.modules, &app.filter_query, &app.filter_risk, &app.filter_restore);
    assert!(sorted.is_empty()); // 0 B modules are left out of navigation
}

#[test]
fn mod_module_list_sorted_respects_filter() {
    let mut app = make_test_app();
    app.filter_query = "dock".to_string();
    let sorted = sorted_module_indices(&app.modules, &app.filter_query, &app.filter_risk, &app.filter_restore);
    assert_eq!(sorted.len(), 1);
}

#[test]
fn mod_collect_selected_items_sorted_by_size() {
    let mut app = make_test_app();
    for mi in 0..app.modules.len() {
        for ii in 0..app.modules[mi].items.len() {
            let p = app.modules[mi].items[ii].path.clone();
            app.selected_items.insert(p);
        }
    }
    let items = collect_selected_items(&app.modules, &app.selected_items, &app.drill);
    assert_eq!(items.len(), 3);
    let sizes: Vec<Option<u64>> = items.iter().map(|i| i.size).collect();
    for w in sizes.windows(2) {
        assert!(w[0] >= w[1]);
    }
}
