use freespace::cleaner::{CleanupAction, CleanupResult};
use freespace::confirm::{collect_selected_items, filtered_confirm_item_count};
use freespace::handlers::identity_path;
use freespace::mouse::confirm_rows_on_screen;
use freespace::manifest::{Module, RestoreKind, RiskLevel, Target};
use freespace::ranking::{
    all_sorted_module_indices, display_order_item_indices, sorted_flat_items, sorted_item_indices,
    sorted_module_indices,
};
use freespace::safety::SafetyLevel;
use freespace::session::{normalize_emacs_key, Effect, Key, Session};
use freespace::types::{FlashLevel, Item, ItemType, ModuleState, ModuleStatus, ScanStatus, View};

fn module(name: &str) -> Module {
    Module {
        id: name.to_string(),
        name: name.to_string(),
        version: "1.0.0".to_string(),
        description: "test".to_string(),
        author: "tester".to_string(),
        platforms: vec!["macos".to_string()],
        tags: vec![],
        icon: None,
        icon_color: None,
        targets: vec![Target {
            paths: vec!["~/test".to_string()],
            description: None,
            restore: RestoreKind::default(),
            restore_steps: None,
            risk: RiskLevel::default(),
            ignore: vec![],
        }],
    }
}

fn item(name: &str, path: &str, size: Option<u64>, item_type: ItemType) -> Item {
    Item {
        name: name.to_string(),
        path: path.to_string(),
        size,
        item_type,
        target_description: None,
        safety_level: SafetyLevel::Safe,
        is_shared: false,
        restore_kind: RestoreKind::default(),
        restore_steps: None,
        risk_level: RiskLevel::default(),
        ignore_patterns: vec![],
        action: CleanupAction::Path,
        display_path: None,
    }
}

fn make_module(name: &str, items: Vec<(&str, u64)>) -> ModuleState {
    let items: Vec<Item> = items
        .into_iter()
        .map(|(n, size)| item(n, &format!("/tmp/test/{}", n), Some(size), ItemType::Directory))
        .collect();
    ModuleState {
        module: module(name),
        items,
        total_size: Some(0),
        status: ModuleStatus::Ready,
        manifest_path: None,
        update_status: None,
    }
}

fn make_test_app() -> Session {
    let mut m1 = make_module("docker", vec![("images", 5_000_000_000), ("volumes", 2_000_000_000)]);
    m1.total_size = Some(7_000_000_000);
    let mut m2 = make_module("npm-cache", vec![("_cacache", 1_000_000_000)]);
    m2.total_size = Some(1_000_000_000);
    Session::new(vec![m1, m2])
}

fn press(app: &mut Session, key: Key) -> Effect {
    app.handle_key(key, false)
}

fn sized_module(name: &str, size: u64) -> ModuleState {
    let mut m = make_module(name, vec![("item", size)]);
    m.items[0].path = "/tmp/item".to_string();
    m.total_size = Some(size);
    m
}

fn make_confirm_app() -> Session {
    let mut ms = make_module("test", vec![]);
    ms.items = vec![
        item("big", "/tmp/big", Some(5_000_000_000), ItemType::Directory),
        item("small", "/tmp/small", Some(1_000), ItemType::File),
    ];
    ms.total_size = Some(5_000_001_000);
    let mut app = Session::new(vec![ms]);
    app.selected_items.insert("/tmp/big".to_string());
    app.selected_items.insert("/tmp/small".to_string());
    app.confirm_checked = app.selected_items.copy();
    app.current_view = View::CleanupConfirm;
    app.previous_view = View::ModuleList;
    app
}

#[test]
fn sorted_excludes_zero_size() {
    let mut m = make_module("empty", vec![]);
    m.total_size = Some(0);
    let app = Session::new(vec![m]);
    let sorted = sorted_module_indices(&app.modules, &app.filter_query, &app.filter_risk, &app.filter_restore);
    assert!(sorted.is_empty());
    let all = all_sorted_module_indices(&app.modules, &app.filter_query, &app.filter_risk, &app.filter_restore);
    assert_eq!(all, vec![0]);
}

#[test]
fn sorted_by_size_descending() {
    let app = Session::new(vec![
        sized_module("small", 1_000),
        sized_module("large", 1_000_000),
        sized_module("medium", 100_000),
    ]);
    let sorted = sorted_module_indices(&app.modules, &app.filter_query, &app.filter_risk, &app.filter_restore);
    assert_eq!(sorted.len(), 3);
    // Largest first
    assert_eq!(app.modules[sorted[0]].total_size, Some(1_000_000));
    assert_eq!(app.modules[sorted[1]].total_size, Some(100_000));
    assert_eq!(app.modules[sorted[2]].total_size, Some(1_000));
}

#[test]
fn sorted_respects_filter() {
    let mut app = Session::new(vec![sized_module("docker", 1_000_000), sized_module("npm-cache", 500_000)]);
    app.filter_query = "dock".to_string();
    let sorted = sorted_module_indices(&app.modules, &app.filter_query, &app.filter_risk, &app.filter_restore);
    assert_eq!(sorted.len(), 1);
    assert_eq!(app.modules[sorted[0]].module.name, "docker");
}

#[test]
fn risk_toggles_narrow_module_sizes() {
    let mut m = make_module("mixed", vec![("a", 10), ("b", 20)]);
    m.items[1].risk_level = RiskLevel::High;
    m.total_size = Some(30);
    let mut app = Session::new(vec![m]);
    app.filter_risk = [true, true, true, false];
    assert_eq!(freespace::ranking::filtered_module_size(&app.modules[0], &app.filter_risk, &app.filter_restore), Some(10));
    app.filter_risk = [true; 4];
    assert_eq!(freespace::ranking::filtered_module_size(&app.modules[0], &app.filter_risk, &app.filter_restore), Some(30));
}

#[test]
fn sorted_flat_items_by_size() {
    let app = Session::new(vec![
        make_module("docker", vec![("images", 5_000_000_000)]),
        make_module("npm", vec![("_cacache", 1_000_000_000)]),
    ]);
    let sorted = sorted_flat_items(&app.modules, &app.filter_query, &app.filter_risk, &app.filter_restore);
    assert_eq!(sorted.len(), 2);
    // Largest first
    assert_eq!(app.modules[sorted[0].0].items[sorted[0].1].name, "images");
    assert_eq!(app.modules[sorted[1].0].items[sorted[1].1].name, "_cacache");
}

#[test]
fn sorted_flat_items_respects_filter() {
    let mut app = Session::new(vec![
        make_module("docker", vec![("images", 5_000_000_000)]),
        make_module("npm", vec![("_cacache", 1_000_000_000)]),
    ]);
    app.filter_query = "dock".to_string();
    let sorted = sorted_flat_items(&app.modules, &app.filter_query, &app.filter_risk, &app.filter_restore);
    assert_eq!(sorted.len(), 1);
    assert_eq!(app.modules[sorted[0].0].module.name, "docker");
}

fn make_detail_app() -> Session {
    let mut ms = make_module("test-module", vec![]);
    ms.items = vec![
        item("large-dir", "/tmp/large-dir", Some(5_000_000_000), ItemType::Directory),
        item("small-file", "/tmp/small-file", Some(1_000), ItemType::File),
    ];
    ms.total_size = Some(5_000_001_000);
    let mut app = Session::new(vec![ms]);
    app.current_view = View::ModuleDetail(0);
    app
}

#[test]
fn sorted_items_by_size_descending() {
    let app = make_detail_app();
    let sorted = sorted_item_indices(&app.modules[0].items, &app.filter_query);
    assert_eq!(sorted.len(), 2);
    assert_eq!(app.modules[0].items[sorted[0]].name, "large-dir");
    assert_eq!(app.modules[0].items[sorted[1]].name, "small-file");
}

#[test]
fn sorted_items_respects_filter() {
    let mut app = make_detail_app();
    app.filter_query = "large".to_string();
    let sorted = sorted_item_indices(&app.modules[0].items, &app.filter_query);
    assert_eq!(sorted.len(), 1);
    assert_eq!(app.modules[0].items[sorted[0]].name, "large-dir");
}

#[test]
fn unknown_sizes_list_first() {
    let items = vec![
        item("a", "/a", Some(5), ItemType::File),
        item("b", "/b", None, ItemType::File),
        item("c", "/c", Some(9), ItemType::File),
    ];
    assert_eq!(sorted_item_indices(&items, ""), vec![1, 2, 0]);
}

#[test]
fn groups_order_by_total_size() {
    let mut items = vec![
        item("a", "/a", Some(5), ItemType::File),
        item("b", "/b", Some(1), ItemType::File),
        item("c", "/c", Some(3), ItemType::File),
    ];
    items[0].target_description = Some("small group".to_string());
    items[1].target_description = Some("big group".to_string());
    items[2].target_description = Some("big group".to_string());
    items[1].size = Some(4);
    let (order, bounds) = display_order_item_indices(&items, "");
    assert_eq!(order, vec![1, 2, 0]);
    assert_eq!(bounds, vec![0, 2]);
    let single = vec![item("x", "/x", Some(1), ItemType::File)];
    assert_eq!(display_order_item_indices(&single, ""), (vec![0], vec![]));
}

#[test]
fn detail_group_jumps() {
    let mut ms = make_module("g", vec![]);
    ms.items = vec![
        item("a", "/a", Some(5), ItemType::File),
        item("b", "/b", Some(4), ItemType::File),
        item("c", "/c", Some(3), ItemType::File),
    ];
    ms.items[0].target_description = Some("one".to_string());
    ms.items[1].target_description = Some("two".to_string());
    ms.items[2].target_description = Some("two".to_string());
    let mut app = Session::new(vec![ms]);
    app.current_view = View::ModuleDetail(0);
    // groups: "two" (7) at 0..2, "one" (5) at 2
    press(&mut app, Key::Char('l'));
    assert_eq!(app.selected_index, 2);
    press(&mut app, Key::Char('h'));
    assert_eq!(app.selected_index, 0);
    press(&mut app, Key::Char('j'));
    press(&mut app, Key::Char('h'));
    assert_eq!(app.selected_index, 0);
}

#[test]
fn collect_selected_items_returns_all() {
    let app = make_confirm_app();
    let items = collect_selected_items(&app.modules, &app.selected_items, &app.drill);
    assert_eq!(items.len(), 2);
}

#[test]
fn collect_selected_items_sorted_by_size_desc() {
    let app = make_confirm_app();
    let items = collect_selected_items(&app.modules, &app.selected_items, &app.drill);
    // Largest first
    assert_eq!(items[0].name, "big");
    assert_eq!(items[1].name, "small");
}

#[test]
fn filtered_confirm_count_all() {
    let app = make_confirm_app();
    assert_eq!(filtered_confirm_item_count(&app), 2);
}

#[test]
fn filtered_confirm_count_with_filter() {
    let mut app = make_confirm_app();
    app.filter_query = "big".to_string();
    assert_eq!(filtered_confirm_item_count(&app), 1);
}

#[test]
fn toggle_removes_item_from_confirm_checked() {
    let mut app = make_confirm_app();
    assert_eq!(app.confirm_checked.len(), 2);
    // Unchecking the first visible item (sorted by size desc = "big")
    app.confirm_checked.remove("/tmp/big");
    assert_eq!(app.confirm_checked.len(), 1);
    assert!(!app.confirm_checked.contains("/tmp/big"));
    assert!(app.confirm_checked.contains("/tmp/small"));
}

#[test]
fn confirm_space_and_all_keys() {
    let mut app = make_confirm_app();
    press(&mut app, Key::Char(' '));
    assert!(!app.confirm_checked.contains("/tmp/big"));
    press(&mut app, Key::Char('a'));
    assert_eq!(app.confirm_checked.len(), 2);
    press(&mut app, Key::Char('a'));
    assert!(app.confirm_checked.is_empty());
    assert!(matches!(press(&mut app, Key::Char('d')), Effect::Nothing));
    press(&mut app, Key::Char('a'));
    assert!(matches!(press(&mut app, Key::Char('d')), Effect::StartCleanup { permanent: true }));
    assert!(matches!(press(&mut app, Key::Char('t')), Effect::StartCleanup { permanent: false }));
}

#[test]
fn handler_items_carry_their_command_into_the_confirm_list() {
    let mut app = make_confirm_app();
    let path = identity_path("xcode.simulator-devices", "ABC-123");
    let mut it = item("iPhone 14", &path, Some(500_000_000), ItemType::Directory);
    it.display_path = Some("/Users/x/Library/Developer/CoreSimulator/Devices/ABC-123".to_string());
    it.risk_level = RiskLevel::Medium;
    it.restore_steps = Some("Recreate in Xcode".to_string());
    it.action = CleanupAction::Handler { handler: "xcode.simulator-devices", id: "ABC-123".to_string() };
    app.modules[0].items.push(it);
    app.selected_items.insert(path.clone());
    let items = collect_selected_items(&app.modules, &app.selected_items, &app.drill);
    let handler_item = items.iter().find(|i| i.name == "iPhone 14").expect("handler item present");
    assert_eq!(handler_item.removal_command.as_deref(), Some("xcrun simctl delete ABC-123"));
    assert!(!handler_item.reversible);
    assert!(handler_item.shown_path().starts_with("/Users/x/Library/Developer/CoreSimulator"));
}

#[test]
fn begin_cleanup_moves_checked_out_of_the_selection() {
    let mut app = make_confirm_app();
    app.selected_items.insert("/tmp/other".to_string());
    let paths = app.begin_cleanup(true).unwrap();
    assert_eq!(paths.len(), 2);
    assert!(app.confirm_checked.is_empty());
    assert_eq!(app.selected_items.len(), 1);
    assert!(matches!(app.current_view, View::CleanupProgress));
    let p = app.cleanup_progress.as_ref().unwrap();
    assert_eq!((p.total, p.done, p.permanent, p.halted), (2, 0, true, false));
    // a second start has nothing checked
    assert!(app.begin_cleanup(false).is_none());
}

#[test]
fn progress_keys_halt_then_finish() {
    let mut app = make_confirm_app();
    app.begin_cleanup(false).unwrap();
    assert!(matches!(press(&mut app, Key::Char('q')), Effect::HaltCleanup));
    assert!(app.cleanup_progress.as_ref().unwrap().halted);
    assert!(!app.should_quit);
    assert!(matches!(press(&mut app, Key::Enter), Effect::CleanupFinished));
    assert!(matches!(app.current_view, View::ModuleList));
    assert!(app.cleanup_progress.is_none());
}

#[test]
fn emacs_keys_become_arrows() {
    assert_eq!(normalize_emacs_key(Key::Char('n'), true), Key::Down);
    assert_eq!(normalize_emacs_key(Key::Char('p'), true), Key::Up);
    assert_eq!(normalize_emacs_key(Key::Char('f'), true), Key::Right);
    assert_eq!(normalize_emacs_key(Key::Char('b'), true), Key::Left);
    assert_eq!(normalize_emacs_key(Key::Char('n'), false), Key::Char('n'));
}

#[test]
fn file_browser_round_trip() {
    let mut app = make_detail_app();
    match press(&mut app, Key::Enter) {
        Effect::OpenDirectory { path, parent_selected_index } => {
            assert_eq!(path, "/tmp/large-dir");
            assert_eq!(parent_selected_index, 0);
            let children = vec![
                item("x", "/tmp/large-dir/x", Some(7), ItemType::File),
                item("y", "/tmp/large-dir/y", None, ItemType::Directory),
            ];
            app.open_directory(path, children, parent_selected_index);
        }
        _ => panic!("expected a directory to open"),
    }
    assert!(matches!(app.current_view, View::FileBrowser));
    // unknown sizes first: y, then x
    press(&mut app, Key::Char('j'));
    press(&mut app, Key::Char(' '));
    assert!(app.selected_items.contains("/tmp/large-dir/x"));
    assert_eq!(app.drill.lookup_meta("/tmp/large-dir/x"), Some((Some(7), SafetyLevel::Safe)));
    press(&mut app, Key::Char('n'));
    assert!(app.selected_items.is_empty());
    press(&mut app, Key::Backspace);
    assert!(matches!(app.current_view, View::ModuleDetail(0)));
    assert!(!app.drill.is_active());
}

#[test]
fn info_remove_flow() {
    let mut app = make_test_app();
    app.modules[1].manifest_path = Some("/mods/npm-cache/module.toml".to_string());
    app.current_view = View::Info(1);
    press(&mut app, Key::Char('r'));
    assert!(app.info_confirm_remove);
    match press(&mut app, Key::Char('y')) {
        Effect::RemoveModuleFiles(dir) => assert_eq!(dir.as_deref(), Some("/mods/npm-cache")),
        _ => panic!("expected the module files to go"),
    }
    assert_eq!(app.modules.len(), 1);
    assert!(matches!(app.current_view, View::ModuleList));
}

#[test]
fn update_prompt_answers() {
    let mut app = make_test_app();
    app.current_view = View::Info(0);
    assert!(matches!(app.ask_update(0, vec![]), Effect::UpdateModules(ref v) if v == &vec![0]));
    assert!(matches!(app.ask_update(0, vec![1]), Effect::Nothing));
    press(&mut app, Key::Char('j'));
    press(&mut app, Key::Char('k'));
    match press(&mut app, Key::Enter) {
        Effect::UpdateModules(v) => assert_eq!(v, vec![0, 1]),
        _ => panic!("expected an update"),
    }
    assert!(app.info_confirm_update.is_none());
}

#[test]
fn scan_results_fill_modules() {
    let mut app = Session::new(vec![make_module("m", vec![])]);
    app.item_discovered(0, item("a", "/a", None, ItemType::File), SafetyLevel::Warn, None);
    app.item_discovered(0, item("b", "/usr", None, ItemType::File), SafetyLevel::Deny, None);
    assert_eq!(app.modules[0].items.len(), 1);
    assert_eq!(app.modules[0].items[0].safety_level, SafetyLevel::Warn);
    assert_eq!(app.blocked_paths.len(), 1);
    assert_eq!(app.blocked_paths[0].1, "denied");
    app.item_sized(0, 0, 40, Some("/real/a".to_string()));
    assert_eq!(app.modules[0].items[0].size, Some(40));
    assert_eq!(app.modules[0].total_size, Some(40));
    assert_eq!(app.deduped_total, 40);
    app.module_complete(0);
    assert!(matches!(app.modules[0].status, ModuleStatus::Ready));
    app.scan_complete();
    assert_eq!(app.scan_status, ScanStatus::Complete);
}

#[test]
fn shared_paths_count_once() {
    let mut app = Session::new(vec![make_module("m", vec![]), make_module("n", vec![])]);
    app.item_discovered(0, item("a", "/a", None, ItemType::File), SafetyLevel::Safe, None);
    app.item_discovered(1, item("a", "/a", None, ItemType::File), SafetyLevel::Safe, None);
    app.item_sized(0, 0, 10, Some("/a".to_string()));
    app.item_sized(1, 0, 10, Some("/a".to_string()));
    assert_eq!(app.deduped_total, 10);
    assert!(app.modules[1].items[0].is_shared);
    app.reset_count();
    app.recount_item(1, 0, "/a".to_string());
    app.recount_item(0, 0, "/a".to_string());
    assert_eq!(app.deduped_total, 10);
    assert!(!app.modules[1].items[0].is_shared);
    assert!(app.modules[0].items[0].is_shared);
}

#[test]
fn cleanup_results_update_modules() {
    let mut app = make_test_app();
    app.selected_items.insert("/tmp/test/images".to_string());
    let result = CleanupResult {
        succeeded: vec!["/tmp/test/images".to_string(), "/tmp/test/images/".to_string()],
        failed: vec![("/tmp/test/volumes".to_string(), "denied".to_string())],
    };
    let gone = app.apply_cleanup_result(&result);
    assert_eq!(gone.len(), 1);
    assert_eq!(app.modules[0].items.len(), 1);
    assert_eq!(app.modules[0].total_size, Some(2_000_000_000));
    assert!(app.selected_items.is_empty());
    let (text, level) = app.flash_message.clone().unwrap();
    assert_eq!(text, "1/2 cleaned; 1 blocked by safety rules");
    assert_eq!(level, FlashLevel::Warning);
    let blocked = CleanupResult { succeeded: vec![], failed: vec![("/x".to_string(), "no".to_string())] };
    app.apply_cleanup_result(&blocked);
    assert_eq!(app.flash_message.clone().unwrap().0, "Blocked: 1 item denied by safety rules");
}

#[test]
fn removed_drill_entries_shrink_their_parent() {
    let mut app = make_test_app();
    app.open_directory(
        "/tmp/test/images".to_string(),
        vec![item("layer", "/tmp/test/images/layer", Some(1_000_000_000), ItemType::Directory)],
        0,
    );
    let result = CleanupResult { succeeded: vec!["/tmp/test/images/layer".to_string()], failed: vec![] };
    app.apply_cleanup_result(&result);
    assert_eq!(app.modules[0].items[0].size, Some(4_000_000_000));
    assert_eq!(app.modules[0].total_size, Some(6_000_000_000));
    assert!(app.flash_message.is_none());
    assert!(!app.drill.is_active());
}

#[test]
fn normalize_ctrl_n_to_down() {
    assert_eq!(normalize_emacs_key(Key::Char('n'), true), Key::Down);
}

#[test]
fn normalize_ctrl_p_to_up() {
    assert_eq!(normalize_emacs_key(Key::Char('p'), true), Key::Up);
}

#[test]
fn normalize_ctrl_f_to_right() {
    assert_eq!(normalize_emacs_key(Key::Char('f'), true), Key::Right);
}

#[test]
fn normalize_ctrl_b_to_left() {
    assert_eq!(normalize_emacs_key(Key::Char('b'), true), Key::Left);
}

#[test]
fn normalize_passthrough_no_modifier() {
    assert_eq!(normalize_emacs_key(Key::Char('n'), false), Key::Char('n'));
}

fn make_handler_confirm_app() -> Session {
    let mut app = make_confirm_app();
    let path = identity_path("xcode.simulator-devices", "ABC-123");
    let mut it = item("iPhone 14", &path, Some(500_000_000), ItemType::Directory);
    it.display_path = Some("/Users/x/Library/Developer/CoreSimulator/Devices/ABC-123".to_string());
    it.risk_level = RiskLevel::Medium;
    it.restore_steps = Some("Recreate in Xcode".to_string());
    it.action = CleanupAction::Handler { handler: "xcode.simulator-devices", id: "ABC-123".to_string() };
    app.modules[0].items.push(it);
    app.selected_items.insert(path.clone());
    app.confirm_checked.insert(path);
    app
}

#[test]
fn row_mapping_accounts_for_the_command_sub_row() {
    let app = make_handler_confirm_app();
    let items = collect_selected_items(&app.modules, &app.selected_items, &app.drill);
    let map = confirm_rows_on_screen(&items);

    let handler_idx = items.iter().position(|i| i.name == "iPhone 14").unwrap();

    assert_eq!(map.iter().filter(|e| **e == Some(handler_idx)).count(), 1);
    assert_eq!(map.iter().filter(|e| e.is_some()).count(), items.len());

    let handler_row = map.iter().position(|e| *e == Some(handler_idx)).unwrap();
    let sub_rows = map[handler_row + 1..].iter().take_while(|e| e.is_none()).count();
    assert_eq!(sub_rows, 3, "indicators + restore steps + command");
}

#[test]
fn trashing_irreversible_items_asks_first() {
    let mut app = make_handler_confirm_app();
    assert!(app.irreversible_checked_count() > 0);

    let effect = app.request_trash();
    assert!(app.confirm_irreversible_prompt, "should prompt rather than silently deleting permanently");
    assert!(matches!(effect, Effect::Nothing));
}

#[test]
fn declining_the_prompt_drops_irreversible_items() {
    let mut app = make_handler_confirm_app();
    let handler_path = identity_path("xcode.simulator-devices", "ABC-123");
    app.confirm_checked.clear();
    app.confirm_checked.insert(handler_path.clone());

    app.request_trash();
    assert!(app.confirm_irreversible_prompt);

    let effect = app.resolve_irreversible_prompt(false);
    assert!(!app.confirm_irreversible_prompt);
    assert!(
        !app.confirm_checked.contains(&handler_path),
        "declining should uncheck the item that cannot be trashed"
    );
    assert!(matches!(effect, Effect::Nothing));
}

#[test]
fn path_only_selections_do_not_prompt() {
    let mut app = make_confirm_app();
    assert_eq!(app.irreversible_checked_count(), 0);
    let effect = app.request_trash();
    assert!(!app.confirm_irreversible_prompt, "ordinary path items trash without an extra prompt");
    assert!(matches!(effect, Effect::StartCleanup { permanent: false }));
}

#[test]
fn accepting_the_prompt_trashes_everything_checked() {
    let mut app = make_handler_confirm_app();
    assert!(matches!(press(&mut app, Key::Char('t')), Effect::Nothing));
    assert!(app.confirm_irreversible_prompt);
    // Other keys wait for an answer.
    assert!(matches!(press(&mut app, Key::Char('x')), Effect::Nothing));
    assert!(app.confirm_irreversible_prompt);
    assert!(matches!(press(&mut app, Key::Char('y')), Effect::StartCleanup { permanent: false }));
    assert!(!app.confirm_irreversible_prompt);
    assert_eq!(app.confirm_checked.len(), 3);
}

#[test]
fn declining_with_paths_left_still_trashes_them() {
    let mut app = make_handler_confirm_app();
    press(&mut app, Key::Char('t'));
    assert!(matches!(press(&mut app, Key::Esc), Effect::StartCleanup { permanent: false }));
    assert_eq!(app.confirm_checked.len(), 2);
    assert!(app.confirm_checked.contains("/tmp/big"));
    assert!(app.confirm_checked.contains("/tmp/small"));
}

#[test]
fn shared_path_gives_one_confirm_row() {
    let mut a = make_module("a", vec![]);
    a.items = vec![item("shared", "/tmp/shared", Some(10), ItemType::Directory)];
    let mut b = make_module("b", vec![]);
    b.items = vec![
        item("shared-again", "/tmp/shared/", Some(10), ItemType::Directory),
        item("own", "/tmp/own", Some(5), ItemType::File),
    ];
    let mut app = Session::new(vec![a, b]);
    app.selected_items.insert("/tmp/shared".to_string());
    app.selected_items.insert("/tmp/own".to_string());
    let items = collect_selected_items(&app.modules, &app.selected_items, &app.drill);
    let names: Vec<&str> = items.iter().map(|i| i.name.as_str()).collect();
    assert_eq!(names, vec!["shared", "own"]);
}
