use freespace::safety::{
    block_reason, default_deny_paths, expand_protected_paths, expand_user_path_with, is_path_denied, is_path_in_scope,
    validate_target_pattern, DenyEntry, SafetyLevel,
};

fn builtin_deny(home: Option<&str>) -> Vec<DenyEntry> {
    default_deny_paths("linux", &home.map(|h| h.to_string()))
        .into_iter()
        .map(|p| DenyEntry { shown: p.clone(), canonical: p })
        .collect()
}

#[test]
fn root_path_denied() {
    assert!(is_path_denied("/", &builtin_deny(None)).is_some());
}

#[test]
fn denied_root() {
    assert!(is_path_denied("/", &[]).is_some());
}

#[test]
fn denied_system_child() {
    assert!(is_path_denied("/usr/bin/ls", &builtin_deny(None)).is_some());
}

#[test]
fn allowed_path_outside_the_lists() {
    assert!(is_path_denied("/tmp/safe.txt", &builtin_deny(Some("/home/u"))).is_none());
}

#[test]
fn denied_extra_user_path_names_the_rule() {
    let mut deny = builtin_deny(Some("/home/u"));
    deny.push(DenyEntry { shown: "~/Work".to_string(), canonical: "/home/u/Work".to_string() });
    assert_eq!(is_path_denied("/home/u/Work/sub", &deny), Some("~/Work".to_string()));
    assert_eq!(is_path_denied("/home/u/.ssh", &deny), Some("/home/u/.ssh".to_string()));
    assert_eq!(is_path_denied("/home/u/Workshop", &deny), None);
}

#[test]
fn deny_paths_per_platform() {
    let mac = default_deny_paths("macos", &Some("/Users/me".to_string()));
    assert!(mac.contains(&"/System".to_string()));
    assert!(mac.contains(&"/Applications".to_string()));
    assert!(mac.contains(&"/Users/me/.ssh".to_string()));
    assert!(mac.contains(&"/Users/me/Documents".to_string()));
    assert_eq!(default_deny_paths("plan9", &None), Vec::<String>::new());
}

#[test]
fn valid_pattern_normal() {
    assert!(validate_target_pattern("~/Library/Caches/test").is_ok());
}

#[test]
fn valid_pattern_glob() {
    assert!(validate_target_pattern("**/node_modules").is_ok());
}

#[test]
fn invalid_pattern_traversal() {
    assert!(validate_target_pattern("~/Library/../../../etc/passwd").is_err());
}

#[test]
fn invalid_pattern_traversal_mid() {
    assert!(validate_target_pattern("/home/user/../root").is_err());
}

#[test]
fn traversal_message_names_the_pattern() {
    let err = validate_target_pattern("a/../b").unwrap_err();
    assert!(err.contains("'a/../b'"));
    assert!(err.contains(".."));
}

#[test]
fn expand_absolute_path() {
    let result = expand_protected_paths(&["/opt/data".to_string()]);
    assert_eq!(result[0], "/opt/data");
}

#[test]
fn expand_user_path_against_home() {
    let home = Some("/home/u".to_string());
    assert_eq!(expand_user_path_with("~/Work", &home), "/home/u/Work");
    assert_eq!(expand_user_path_with("~", &home), "~");
    assert_eq!(expand_user_path_with("~/Work", &None), "~/Work");
}

#[test]
fn block_reasons_by_level() {
    assert_eq!(
        block_reason(SafetyLevel::Deny, Some("/usr".to_string()), true),
        Some("blocked by safety rule: /usr".to_string())
    );
    assert_eq!(
        block_reason(SafetyLevel::Warn, Some("x".to_string()), false),
        Some("blocked by safety rule: x".to_string())
    );
    assert_eq!(block_reason(SafetyLevel::Warn, Some("x".to_string()), true), None);
    assert_eq!(block_reason(SafetyLevel::Safe, None, false), None);
}

fn home() -> Option<String> {
    dirs::home_dir().map(|h| h.to_string_lossy().into_owned())
}

#[test]
fn deny_paths_contains_macos_system() {
    let paths = default_deny_paths("macos", &home());
    assert!(paths.contains(&"/System".to_string()));
    assert!(paths.contains(&"/Applications".to_string()));
    assert!(paths.contains(&"/Library".to_string()));
}

#[test]
fn deny_paths_contains_home_sensitive() {
    let home = home();
    let paths = default_deny_paths("linux", &home);
    if let Some(home) = home {
        let base = home.trim_end_matches('/').to_string();
        assert!(paths.contains(&format!("{}/.ssh", base)));
        assert!(paths.contains(&format!("{}/Documents", base)));
    }
}

#[test]
fn expand_tilde_path() {
    let result = expand_protected_paths(&["~/Work".to_string()]);
    if let Some(home) = home() {
        assert_eq!(result[0], format!("{}/Work", home.trim_end_matches('/')));
    }
}

#[test]
fn in_scope_home_subdir() {
    if let Some(home) = home() {
        let test_path = format!("{}/some_cache_dir", home.trim_end_matches('/'));
        assert!(is_path_in_scope(&test_path, &Some(home)));
    }
}

#[test]
fn out_of_scope_system_path() {
    assert!(!is_path_in_scope("/usr/local/bin", &Some("/home/u".to_string())));
    assert!(!is_path_in_scope("/home/u/x", &None));
    assert!(is_path_in_scope("/home/u/x", &Some("/home/u/".to_string())));
    assert!(!is_path_in_scope("/home/user2", &Some("/home/u".to_string())));
}
