use freespace::config::{config_dir_in, default_modules_dir, AppConfig, IconsConfig};

#[test]
fn default_config_values() {
    let config = AppConfig::default();
    assert!(config.dry_run);
    assert!(config.module_dirs.is_empty());
    assert!(config.search_dirs.is_empty());
    assert!(config.audit_log);
    assert!(config.protected_paths.is_empty());
    assert!(config.enforce_scope);
    assert!(IconsConfig::default().enabled);
}

#[test]
fn default_modules_dir_path() {
    let dir = default_modules_dir();
    if let Some(dir) = dir {
        assert!(dir.ends_with("modules"));
        assert!(dir.ends_with(".config/freespace/modules"));
    }
}

#[test]
fn config_dir_under_home() {
    assert_eq!(config_dir_in("/home/u"), "/home/u/.config/freespace");
    assert_eq!(config_dir_in("/home/u/"), "/home/u/.config/freespace");
}

#[test]
fn add_search_dir_refuses_duplicates() {
    let mut config = AppConfig::default();
    assert!(config.add_search_dir("~/Projects".to_string()));
    assert!(!config.add_search_dir("~/Projects".to_string()));
    assert_eq!(config.search_dirs, vec!["~/Projects".to_string()]);
}

#[test]
fn remove_search_dir_reports_presence() {
    let mut config = AppConfig::default();
    config.search_dirs = vec!["a".to_string(), "b".to_string(), "a".to_string()];
    assert!(config.remove_search_dir("a"));
    assert_eq!(config.search_dirs, vec!["b".to_string()]);
    assert!(!config.remove_search_dir("a"));
}

#[test]
fn add_then_remove_restores() {
    let mut config = AppConfig::default();
    config.search_dirs = vec!["x".to_string()];
    assert!(config.add_search_dir("y".to_string()));
    assert!(config.remove_search_dir("y"));
    assert_eq!(config.search_dirs, vec!["x".to_string()]);
}

#[test]
fn config_dir_path() {
    let dir = freespace::config::config_dir();
    if let Some(dir) = dir {
        assert!(dir.ends_with(".config/freespace"));
    }
}
