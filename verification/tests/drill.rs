use freespace::cleaner::CleanupAction;
use freespace::drill::DrillState;
use freespace::manifest::{RestoreKind, RiskLevel};
use freespace::safety::SafetyLevel;
use freespace::types::{Item, ItemType};

fn make_item(name: &str, path: &str, size: Option<u64>) -> Item {
    Item {
        name: name.into(),
        path: path.to_string(),
        size,
        item_type: ItemType::File,
        target_description: None,
        safety_level: SafetyLevel::Safe,
        is_shared: false,
        restore_kind: RestoreKind::default(),
        restore_steps: None,
        risk_level: RiskLevel::default(),
        ignore_patterns: Vec::new(),
        action: CleanupAction::Path,
        display_path: None,
    }
}

fn size_of(sizes: &[(String, u64)], path: &str) -> u64 {
    sizes.iter().find(|(p, _)| p == path).map(|(_, s)| *s).unwrap()
}


#[test]
fn drill_drill_state_push_pop_restores_index() {
    let mut ds = DrillState::new();
    assert!(!ds.is_active());
    ds.push("/a".to_string(), vec![], 5);
    assert!(ds.is_active());
    assert_eq!(ds.depth(), 1);
    let idx = ds.pop();
    assert_eq!(idx, Some(5));
    assert!(!ds.is_active());
}

#[test]
fn drill_drill_state_items_or_fallback() {
    let ds = DrillState::new();
    let fallback = vec![make_item("x", "/x", Some(1))];
    assert_eq!(ds.items_or(&fallback).len(), 1);
}

#[test]
fn drill_drill_state_items_or_drill() {
    let mut ds = DrillState::new();
    let drill_items = vec![make_item("a", "/a", None), make_item("b", "/b", None)];
    ds.push("/dir".to_string(), drill_items, 0);
    let fallback: Vec<Item> = vec![];
    assert_eq!(ds.items_or(&fallback).len(), 2);
}

#[test]
fn drill_drill_state_update_item_size_syncs_cache() {
    let mut ds = DrillState::new();
    let items = vec![make_item("f", "/f", None)];
    ds.push("/dir".to_string(), items, 0);
    ds.cache_selection("/f".to_string(), (None, SafetyLevel::Safe));
    ds.update_item_size(0, 0, 42);
    let meta = ds.lookup_meta("/f").unwrap();
    assert_eq!(meta.0, Some(42));
}

#[test]
fn drill_drill_state_cache_uncache() {
    let mut ds = DrillState::new();
    ds.cache_selection("/x".to_string(), (Some(10), SafetyLevel::Warn));
    assert!(ds.lookup_meta("/x").is_some());
    ds.uncache_selection("/x");
    assert!(ds.lookup_meta("/x").is_none());
}

#[test]
fn drill_drill_state_clear_resets() {
    let mut ds = DrillState::new();
    ds.push("/a".to_string(), vec![], 0);
    ds.cache_selection("/x".to_string(), (Some(1), SafetyLevel::Safe));
    ds.clear();
    assert!(!ds.is_active());
    assert!(ds.lookup_meta("/x").is_none());
}

#[test]
fn drill_drill_state_lookup_meta_stack_first() {
    let mut ds = DrillState::new();
    let items = vec![make_item("f", "/f", Some(100))];
    ds.push("/dir".to_string(), items, 0);
    // The cache holds another value: the stack wins
    ds.cache_selection("/f".to_string(), (Some(999), SafetyLevel::Warn));
    let meta = ds.lookup_meta("/f").unwrap();
    assert_eq!(meta.0, Some(100));
    assert_eq!(meta.1, SafetyLevel::Safe);
}

#[test]
fn drill_drill_state_breadcrumb_parts() {
    let mut ds = DrillState::new();
    ds.push("/a/dir1".to_string(), vec![], 0);
    ds.push("/a/dir1/sub".to_string(), vec![], 0);
    let parts = ds.breadcrumb_parts();
    assert_eq!(parts, vec!["dir1", "sub"]);
}

#[test]
fn drill_drill_state_collect_item_sizes() {
    let mut ds = DrillState::new();
    let items = vec![make_item("a", "/a", Some(10)), make_item("b", "/b", None)];
    ds.push("/dir".to_string(), items, 0);
    let sizes = ds.collect_item_sizes();
    assert_eq!(sizes.len(), 1);
    assert_eq!(size_of(&sizes, "/a"), 10);
}

#[test]
fn app_drill_state_push_pop_restores_index() {
    let mut ds = DrillState::new();
    assert!(!ds.is_active());
    ds.push("/a".to_string(), vec![], 5);
    assert!(ds.is_active());
    assert_eq!(ds.depth(), 1);
    let idx = ds.pop();
    assert_eq!(idx, Some(5));
    assert!(!ds.is_active());
}

#[test]
fn app_drill_state_items_or_fallback() {
    let ds = DrillState::new();
    let fallback = vec![make_item("x", "/x", Some(1))];
    assert_eq!(ds.items_or(&fallback).len(), 1);
}

#[test]
fn app_drill_state_items_or_drill() {
    let mut ds = DrillState::new();
    let drill_items = vec![make_item("a", "/a", None), make_item("b", "/b", None)];
    ds.push("/dir".to_string(), drill_items, 0);
    let fallback: Vec<Item> = vec![];
    assert_eq!(ds.items_or(&fallback).len(), 2);
}

#[test]
fn app_drill_state_update_item_size_syncs_cache() {
    let mut ds = DrillState::new();
    let items = vec![make_item("f", "/f", None)];
    ds.push("/dir".to_string(), items, 0);
    ds.cache_selection("/f".to_string(), (None, SafetyLevel::Safe));
    ds.update_item_size(0, 0, 42);
    let meta = ds.lookup_meta("/f").unwrap();
    assert_eq!(meta.0, Some(42));
}

#[test]
fn app_drill_state_cache_uncache() {
    let mut ds = DrillState::new();
    ds.cache_selection("/x".to_string(), (Some(10), SafetyLevel::Warn));
    assert!(ds.lookup_meta("/x").is_some());
    ds.uncache_selection("/x");
    assert!(ds.lookup_meta("/x").is_none());
}

#[test]
fn app_drill_state_clear_resets() {
    let mut ds = DrillState::new();
    ds.push("/a".to_string(), vec![], 0);
    ds.cache_selection("/x".to_string(), (Some(1), SafetyLevel::Safe));
    ds.clear();
    assert!(!ds.is_active());
    assert!(ds.lookup_meta("/x").is_none());
}

#[test]
fn app_drill_state_lookup_meta_stack_first() {
    let mut ds = DrillState::new();
    let items = vec![make_item("f", "/f", Some(100))];
    ds.push("/dir".to_string(), items, 0);
    // The cache holds another value: the stack wins
    ds.cache_selection("/f".to_string(), (Some(999), SafetyLevel::Warn));
    let meta = ds.lookup_meta("/f").unwrap();
    assert_eq!(meta.0, Some(100));
    assert_eq!(meta.1, SafetyLevel::Safe);
}

#[test]
fn app_drill_state_breadcrumb_parts() {
    let mut ds = DrillState::new();
    ds.push("/a/dir1".to_string(), vec![], 0);
    ds.push("/a/dir1/sub".to_string(), vec![], 0);
    let parts = ds.breadcrumb_parts();
    assert_eq!(parts, vec!["dir1", "sub"]);
}

#[test]
fn app_drill_state_collect_item_sizes() {
    let mut ds = DrillState::new();
    let items = vec![make_item("a", "/a", Some(10)), make_item("b", "/b", None)];
    ds.push("/dir".to_string(), items, 0);
    let sizes = ds.collect_item_sizes();
    assert_eq!(sizes.len(), 1);
    assert_eq!(size_of(&sizes, "/a"), 10);
}

#[test]
fn cache_keys_compare_as_paths() {
    let mut ds = DrillState::new();
    ds.cache_selection("/x/y".to_string(), (Some(1), SafetyLevel::Safe));
    ds.cache_selection("/x//y/".to_string(), (Some(2), SafetyLevel::Warn));
    assert_eq!(ds.lookup_meta("/x/./y"), Some((Some(2), SafetyLevel::Warn)));
    ds.uncache_selection("/x/y/");
    assert_eq!(ds.lookup_meta("/x/y"), None);
}

#[test]
fn later_sizes_win_in_collection() {
    let mut ds = DrillState::new();
    ds.push("/d".to_string(), vec![make_item("a", "/a", Some(1))], 0);
    ds.push("/e".to_string(), vec![make_item("a", "/a/", Some(7)), make_item("c", "/c", Some(3))], 0);
    let sizes = ds.collect_item_sizes();
    assert_eq!(sizes.len(), 2);
    assert_eq!(size_of(&sizes, "/a"), 7);
    assert_eq!(size_of(&sizes, "/c"), 3);
}

#[test]
fn out_of_range_size_update_changes_nothing() {
    let mut ds = DrillState::new();
    ds.push("/d".to_string(), vec![make_item("a", "/a", None)], 0);
    ds.update_item_size(3, 0, 9);
    ds.update_item_size(0, 4, 9);
    assert_eq!(ds.lookup_meta("/a"), Some((None, SafetyLevel::Safe)));
    assert_eq!(ds.scan_paths_at_depth(0), vec!["/a".to_string()]);
    assert!(ds.scan_paths_at_depth(1).is_empty());
    assert!(ds.current_items().is_some());
}

#[test]
fn breadcrumb_of_root_is_whole_path() {
    let mut ds = DrillState::new();
    ds.push("/".to_string(), vec![], 0);
    assert_eq!(ds.breadcrumb_parts(), vec!["/"]);
    assert_eq!(ds.pop(), Some(0));
    assert_eq!(ds.pop(), None);
}
