use freespace::manifest::{validate_id, Module, RawModule, RawTarget, RestoreKind, RiskLevel};

fn strings(v: &toml::Value, what: &str) -> Result<Vec<String>, String> {
    match v {
        toml::Value::String(s) => Ok(vec![s.clone()]),
        toml::Value::Array(items) => items
            .iter()
            .map(|i| i.as_str().map(|s| s.to_string()).ok_or_else(|| format!("{what}: expected a string")))
            .collect(),
        _ => Err(format!("{what}: expected a string or list of strings")),
    }
}

fn string_list(t: &toml::Table, key: &str) -> Result<Vec<String>, String> {
    match t.get(key) {
        Some(toml::Value::Array(items)) => items
            .iter()
            .map(|i| i.as_str().map(|s| s.to_string()).ok_or_else(|| format!("{key}: expected a string")))
            .collect(),
        Some(_) => Err(format!("{key}: expected a list")),
        None => Err(format!("missing field `{key}`")),
    }
}

fn required(t: &toml::Table, key: &str) -> Result<String, String> {
    match t.get(key) {
        Some(toml::Value::String(s)) => Ok(s.clone()),
        Some(_) => Err(format!("{key}: expected a string")),
        None => Err(format!("missing field `{key}`")),
    }
}

fn optional(t: &toml::Table, key: &str) -> Result<Option<String>, String> {
    match t.get(key) {
        Some(toml::Value::String(s)) => Ok(Some(s.clone())),
        Some(_) => Err(format!("{key}: expected a string")),
        None => Ok(None),
    }
}

fn raw_target(v: &toml::Value) -> Result<RawTarget, String> {
    let t = v.as_table().ok_or("target: expected a table")?;
    Ok(RawTarget {
        path: t.get("path").map(|p| strings(p, "path")).transpose()?,
        paths: t.get("paths").map(|p| strings(p, "paths")).transpose()?,
        description: optional(t, "description")?,
        restore: optional(t, "restore")?,
        restore_steps: optional(t, "restore_steps")?,
        risk: optional(t, "risk")?,
        ignore: match t.get("ignore") {
            Some(i) => strings(i, "ignore")?,
            None => Vec::new(),
        },
    })
}

/// Decodes a manifest as `module.toml` writes it and validates it.
fn parse(text: &str) -> Result<Module, String> {
    let t: toml::Table = toml::from_str(text).map_err(|e| e.to_string())?;
    let targets = match t.get("targets") {
        Some(toml::Value::Array(items)) => items.iter().map(raw_target).collect::<Result<Vec<_>, _>>()?,
        Some(_) => return Err("targets: expected a list".to_string()),
        None => return Err("missing field `targets`".to_string()),
    };
    let raw = RawModule {
        id: required(&t, "id")?,
        name: required(&t, "name")?,
        version: required(&t, "version")?,
        description: required(&t, "description")?,
        author: required(&t, "author")?,
        platforms: string_list(&t, "platforms")?,
        tags: match t.get("tags") {
            Some(_) => string_list(&t, "tags")?,
            None => Vec::new(),
        },
        icon: optional(&t, "icon")?,
        icon_color: optional(&t, "icon_color")?,
        targets,
    };
    Module::from_raw(raw).map_err(|e| e.message())
}

fn valid_global_toml() -> &'static str {
    r#"
    id = "test-module"
    name = "test-module"
    version = "1.0.0"
    description = "A test module"
    author = "tester"
    platforms = ["macos", "linux"]

    [[targets]]
    path = "~/Library/Caches/test"
    description = "Test cache"
    "#
}

#[test]
fn parse_valid_global_target() {
    let module = parse(valid_global_toml()).unwrap();
    assert_eq!(module.id, "test-module");
    assert_eq!(module.name, "test-module");
    assert_eq!(module.version, "1.0.0");
    assert_eq!(module.targets.len(), 1);
    assert_eq!(module.targets[0].paths, vec!["~/Library/Caches/test"]);
}

#[test]
fn parse_valid_local_target() {
    let toml_str = r#"
    id = "node-modules"
    name = "node-modules"
    version = "1.0.0"
    description = "Node modules"
    author = "tester"
    platforms = ["macos", "linux"]

    [[targets]]
    path = "**/node_modules"
    description = "Node dependencies"
    "#;
    let module = parse(toml_str).unwrap();
    assert_eq!(module.targets[0].paths, vec!["**/node_modules"]);
}

#[test]
fn parse_multiple_targets() {
    let toml_str = r#"
    id = "multi"
    name = "multi"
    version = "1.0.0"
    description = "Multiple targets"
    author = "tester"
    platforms = ["macos"]

    [[targets]]
    path = "~/Library/Caches/foo"
    description = "Foo"

    [[targets]]
    path = "**/bar"
    description = "Bar"
    "#;
    let module = parse(toml_str).unwrap();
    assert_eq!(module.targets.len(), 2);
}

#[test]
fn parse_missing_required_fields() {
    let toml_str = r#"
    id = "incomplete"
    name = "incomplete"
    "#;
    assert!(parse(toml_str).is_err());
}

#[test]
fn parse_empty_targets() {
    let toml_str = r#"
    id = "empty"
    name = "empty"
    version = "1.0.0"
    description = "No targets"
    author = "tester"
    platforms = ["macos"]
    targets = []
    "#;
    let module = parse(toml_str).unwrap();
    assert!(module.targets.is_empty());
}

#[test]
fn parse_optional_description_on_target() {
    let toml_str = r#"
    id = "nodesc"
    name = "nodesc"
    version = "1.0.0"
    description = "Module desc"
    author = "tester"
    platforms = ["macos"]

    [[targets]]
    path = "~/tmp"
    "#;
    let module = parse(toml_str).unwrap();
    assert!(module.targets[0].description.is_none());
}

// --- id validation ---

#[test]
fn valid_id_simple() {
    assert!(validate_id("docker").is_ok());
}

#[test]
fn valid_id_kebab() {
    assert!(validate_id("node-modules").is_ok());
}

#[test]
fn valid_id_with_digits() {
    assert!(validate_id("xcode-16").is_ok());
}

#[test]
fn invalid_id_empty() {
    assert!(validate_id("").is_err());
}

#[test]
fn invalid_id_spaces() {
    assert!(validate_id("Node Modules").is_err());
}

#[test]
fn invalid_id_uppercase() {
    assert!(validate_id("UPPER").is_err());
}

#[test]
fn invalid_id_trailing_hyphen() {
    assert!(validate_id("trailing-").is_err());
}

#[test]
fn invalid_id_leading_hyphen() {
    assert!(validate_id("-leading").is_err());
}

#[test]
fn parse_rejects_traversal_in_target() {
    let toml_str = r#"
    id = "evil"
    name = "evil"
    version = "1.0.0"
    description = "test"
    author = "tester"
    platforms = ["macos"]

    [[targets]]
    path = "~/Library/../../../etc/passwd"
    "#;
    let err = parse(toml_str).unwrap_err();
    assert!(err.contains(".."));
}

// --- multi-path tests ---

#[test]
fn parse_paths_array() {
    let toml_str = r#"
    id = "multi-path"
    name = "multi-path"
    version = "1.0.0"
    description = "test"
    author = "tester"
    platforms = ["macos"]

    [[targets]]
    paths = ["~/Library/Caches/foo", "~/Library/Caches/bar"]
    description = "Multiple caches"
    "#;
    let module = parse(toml_str).unwrap();
    assert_eq!(module.targets.len(), 1);
    assert_eq!(
        module.targets[0].paths,
        vec!["~/Library/Caches/foo", "~/Library/Caches/bar"]
    );
}

#[test]
fn parse_single_path_backward_compat() {
    let module = parse(valid_global_toml()).unwrap();
    assert_eq!(module.targets[0].paths, vec!["~/Library/Caches/test"]);
}

#[test]
fn parse_rejects_both_path_and_paths() {
    let toml_str = r#"
    id = "both"
    name = "both"
    version = "1.0.0"
    description = "test"
    author = "tester"
    platforms = ["macos"]

    [[targets]]
    path = "~/foo"
    paths = ["~/bar"]
    "#;
    let err = parse(toml_str).unwrap_err();
    assert!(err.contains("not both"));
}

#[test]
fn parse_rejects_neither_path_nor_paths() {
    let toml_str = r#"
    id = "neither"
    name = "neither"
    version = "1.0.0"
    description = "test"
    author = "tester"
    platforms = ["macos"]

    [[targets]]
    description = "no path at all"
    "#;
    let err = parse(toml_str).unwrap_err();
    assert!(err.contains("either"));
}

#[test]
fn parse_rejects_empty_paths_array() {
    let toml_str = r#"
    id = "empty-paths"
    name = "empty-paths"
    version = "1.0.0"
    description = "test"
    author = "tester"
    platforms = ["macos"]

    [[targets]]
    paths = []
    "#;
    let err = parse(toml_str).unwrap_err();
    assert!(err.contains("empty"));
}

#[test]
fn parse_rejects_traversal_in_paths_array() {
    let toml_str = r#"
    id = "evil-paths"
    name = "evil-paths"
    version = "1.0.0"
    description = "test"
    author = "tester"
    platforms = ["macos"]

    [[targets]]
    paths = ["~/Library/Caches/ok", "~/Library/../../../etc/passwd"]
    "#;
    let err = parse(toml_str).unwrap_err();
    assert!(err.contains(".."));
}

#[test]
fn parse_multiple_valid_paths() {
    let toml_str = r#"
    id = "multi"
    name = "multi"
    version = "1.0.0"
    description = "test"
    author = "tester"
    platforms = ["macos"]

    [[targets]]
    paths = ["~/Library/Caches/a", "~/Library/Caches/b", "~/Library/Caches/c"]
    "#;
    let module = parse(toml_str).unwrap();
    assert_eq!(module.targets[0].paths.len(), 3);
    assert_eq!(module.targets[0].paths[0], "~/Library/Caches/a");
    assert_eq!(module.targets[0].paths[1], "~/Library/Caches/b");
    assert_eq!(module.targets[0].paths[2], "~/Library/Caches/c");
}

#[test]
fn parse_path_accepts_list() {
    let toml_str = r#"
    id = "path-list"
    name = "path-list"
    version = "1.0.0"
    description = "test"
    author = "tester"
    platforms = ["macos"]

    [[targets]]
    path = ["~/Library/Caches/foo", "~/Library/Caches/bar"]
    "#;
    let module = parse(toml_str).unwrap();
    assert_eq!(
        module.targets[0].paths,
        vec!["~/Library/Caches/foo", "~/Library/Caches/bar"]
    );
}

#[test]
fn parse_paths_accepts_single_string() {
    let toml_str = r#"
    id = "paths-str"
    name = "paths-str"
    version = "1.0.0"
    description = "test"
    author = "tester"
    platforms = ["macos"]

    [[targets]]
    paths = "~/Library/Caches/foo"
    "#;
    let module = parse(toml_str).unwrap();
    assert_eq!(module.targets[0].paths, vec!["~/Library/Caches/foo"]);
}

#[test]
fn parse_tags() {
    let toml_str = r#"
    id = "tagged"
    name = "tagged"
    version = "1.0.0"
    description = "Tagged module"
    author = "tester"
    platforms = ["macos"]
    tags = ["cache", "build-artifacts"]
    targets = []
    "#;
    let module = parse(toml_str).unwrap();
    assert_eq!(module.tags, vec!["cache", "build-artifacts"]);
}

#[test]
fn parse_empty_tags() {
    let toml_str = r#"
    id = "empty-tags"
    name = "empty-tags"
    version = "1.0.0"
    description = "Empty tags"
    author = "tester"
    platforms = ["macos"]
    tags = []
    targets = []
    "#;
    let module = parse(toml_str).unwrap();
    assert!(module.tags.is_empty());
}

#[test]
fn parse_missing_tags_defaults_to_empty() {
    let module = parse(valid_global_toml()).unwrap();
    assert!(module.tags.is_empty());
}

// --- icon validation ---

#[test]
fn parse_nerd_font_icon() {
    let icon = "\u{e7a8}"; // Rust icon (Nerd Font)
    let toml_str = format!(
        r#"
    id = "icon-test"
    name = "icon-test"
    version = "1.0.0"
    description = "test"
    author = "tester"
    platforms = ["macos"]
    icon = "{icon}"
    targets = []
    "#
    );
    let module = parse(&toml_str).unwrap();
    assert_eq!(module.icon.as_deref(), Some("\u{e7a8}"));
}

#[test]
fn parse_icon_color() {
    let icon = "\u{e7a8}";
    let toml_str = format!(
        r##"
    id = "color-test"
    name = "color-test"
    version = "1.0.0"
    description = "test"
    author = "tester"
    platforms = ["macos"]
    icon = "{icon}"
    icon_color = "#CE422B"
    targets = []
    "##
    );
    let module = parse(&toml_str).unwrap();
    assert_eq!(module.icon_color.as_deref(), Some("#CE422B"));
}

#[test]
fn parse_missing_icon_defaults_to_none() {
    let module = parse(valid_global_toml()).unwrap();
    assert!(module.icon.is_none());
    assert!(module.icon_color.is_none());
}

#[test]
fn parse_rejects_emoji_icon() {
    let toml_str = r#"
    id = "emoji"
    name = "emoji"
    version = "1.0.0"
    description = "test"
    author = "tester"
    platforms = ["macos"]
    icon = "🐳"
    targets = []
    "#;
    let err = parse(toml_str).unwrap_err();
    assert!(err.contains("Nerd Font"));
}

#[test]
fn parse_rejects_multi_char_icon() {
    let toml_str = r#"
    id = "multi"
    name = "multi"
    version = "1.0.0"
    description = "test"
    author = "tester"
    platforms = ["macos"]
    icon = "ab"
    targets = []
    "#;
    let err = parse(toml_str).unwrap_err();
    assert!(err.contains("single character"));
}

#[test]
fn parse_rejects_empty_icon() {
    let toml_str = r#"
    id = "empty-icon"
    name = "empty-icon"
    version = "1.0.0"
    description = "test"
    author = "tester"
    platforms = ["macos"]
    icon = ""
    targets = []
    "#;
    let err = parse(toml_str).unwrap_err();
    assert!(err.contains("empty"));
}

#[test]
fn parse_icon_unicode_escape_4digit() {
    let toml_str = r#"
    id = "uplus"
    name = "uplus"
    version = "1.0.0"
    description = "test"
    author = "tester"
    platforms = ["macos"]
    icon = "U+E7A8"
    targets = []
    "#;
    let module = parse(toml_str).unwrap();
    assert_eq!(module.icon.as_deref(), Some("\u{e7a8}"));
}

#[test]
fn parse_icon_unicode_escape_5digit() {
    let toml_str = r#"
    id = "uplus5"
    name = "uplus5"
    version = "1.0.0"
    description = "test"
    author = "tester"
    platforms = ["macos"]
    icon = "U+F0000"
    targets = []
    "#;
    let module = parse(toml_str).unwrap();
    assert_eq!(module.icon.as_deref(), Some("\u{F0000}"));
}

#[test]
fn parse_icon_unicode_escape_lowercase() {
    let toml_str = r#"
    id = "uplus-lower"
    name = "uplus-lower"
    version = "1.0.0"
    description = "test"
    author = "tester"
    platforms = ["macos"]
    icon = "U+e7a8"
    targets = []
    "#;
    let module = parse(toml_str).unwrap();
    assert_eq!(module.icon.as_deref(), Some("\u{e7a8}"));
}

#[test]
fn parse_icon_unicode_escape_rejects_non_pua() {
    let toml_str = r#"
    id = "uplus-bad"
    name = "uplus-bad"
    version = "1.0.0"
    description = "test"
    author = "tester"
    platforms = ["macos"]
    icon = "U+0041"
    targets = []
    "#;
    let err = parse(toml_str).unwrap_err();
    assert!(err.contains("Nerd Font"));
}

#[test]
fn parse_rejects_invalid_id() {
    let toml_str = r#"
    id = "Bad Id"
    name = "Bad Id"
    version = "1.0.0"
    description = "test"
    author = "tester"
    platforms = ["macos"]
    targets = []
    "#;
    assert!(parse(toml_str).is_err());
}

// --- restore / risk tests ---

#[test]
fn parse_restore_and_risk() {
    let toml_str = r#"
    id = "risk-test"
    name = "risk-test"
    version = "1.0.0"
    description = "test"
    author = "tester"
    platforms = ["macos"]

    [[targets]]
    path = "~/Library/Caches/test"
    description = "Test cache"
    restore = "manual"
    restore_steps = "Run `foo install`"
    risk = "low"
    "#;
    let module = parse(toml_str).unwrap();
    assert_eq!(module.targets[0].restore, RestoreKind::Manual);
    assert_eq!(
        module.targets[0].restore_steps.as_deref(),
        Some("Run `foo install`")
    );
    assert_eq!(module.targets[0].risk, RiskLevel::Low);
}

#[test]
fn parse_all_risk_levels() {
    for (level_str, expected) in [
        ("safe", RiskLevel::Safe),
        ("low", RiskLevel::Low),
        ("medium", RiskLevel::Medium),
        ("high", RiskLevel::High),
    ] {
        let toml_str = format!(
            r#"
            id = "r"
            name = "r"
            version = "1.0.0"
            description = "t"
            author = "t"
            platforms = ["macos"]

            [[targets]]
            path = "~/tmp"
            risk = "{}"
            "#,
            level_str
        );
        let module = parse(&toml_str).unwrap();
        assert_eq!(module.targets[0].risk, expected);
    }
}

#[test]
fn parse_all_restore_kinds() {
    for (kind_str, expected) in [("auto", RestoreKind::Auto), ("manual", RestoreKind::Manual)] {
        let toml_str = format!(
            r#"
            id = "r"
            name = "r"
            version = "1.0.0"
            description = "t"
            author = "t"
            platforms = ["macos"]

            [[targets]]
            path = "~/tmp"
            restore = "{}"
            "#,
            kind_str
        );
        let module = parse(&toml_str).unwrap();
        assert_eq!(module.targets[0].restore, expected);
    }
}

#[test]
fn parse_defaults() {
    let module = parse(valid_global_toml()).unwrap();
    assert_eq!(module.targets[0].risk, RiskLevel::Safe);
    assert_eq!(module.targets[0].restore, RestoreKind::Auto);
    assert!(module.targets[0].restore_steps.is_none());
}

#[test]
fn parse_invalid_risk_level_rejected() {
    let toml_str = r#"
    id = "bad"
    name = "bad"
    version = "1.0.0"
    description = "t"
    author = "t"
    platforms = ["macos"]

    [[targets]]
    path = "~/tmp"
    risk = "unknown"
    "#;
    let err = parse(toml_str).unwrap_err();
    assert!(err.contains("unknown risk level"));
}

// --- ignore tests ---

#[test]
fn parse_ignore_single_string() {
    let toml_str = r#"
    id = "ign"
    name = "ign"
    version = "1.0.0"
    description = "t"
    author = "t"
    platforms = ["macos"]

    [[targets]]
    path = "~/tmp"
    ignore = "config.json"
    "#;
    let module = parse(toml_str).unwrap();
    assert_eq!(module.targets[0].ignore, vec!["config.json"]);
}

#[test]
fn parse_ignore_list() {
    let toml_str = r#"
    id = "ign"
    name = "ign"
    version = "1.0.0"
    description = "t"
    author = "t"
    platforms = ["macos"]

    [[targets]]
    path = "~/tmp"
    ignore = ["config.json", "*.lock"]
    "#;
    let module = parse(toml_str).unwrap();
    assert_eq!(module.targets[0].ignore, vec!["config.json", "*.lock"]);
}

#[test]
fn parse_ignore_omitted_defaults_empty() {
    let module = parse(valid_global_toml()).unwrap();
    assert!(module.targets[0].ignore.is_empty());
}

#[test]
fn parse_ignore_rejects_absolute_path() {
    let toml_str = r#"
    id = "ign"
    name = "ign"
    version = "1.0.0"
    description = "t"
    author = "t"
    platforms = ["macos"]

    [[targets]]
    path = "~/tmp"
    ignore = "/etc/passwd"
    "#;
    let err = parse(toml_str).unwrap_err();
    assert!(err.contains("relative"));
}

#[test]
fn parse_ignore_rejects_traversal() {
    let toml_str = r#"
    id = "ign"
    name = "ign"
    version = "1.0.0"
    description = "t"
    author = "t"
    platforms = ["macos"]

    [[targets]]
    path = "~/tmp"
    ignore = "../secret"
    "#;
    let err = parse(toml_str).unwrap_err();
    assert!(err.contains(".."));
}

#[test]
fn parse_ignore_rejects_empty_string() {
    let toml_str = r#"
    id = "ign"
    name = "ign"
    version = "1.0.0"
    description = "t"
    author = "t"
    platforms = ["macos"]

    [[targets]]
    path = "~/tmp"
    ignore = ""
    "#;
    let err = parse(toml_str).unwrap_err();
    assert!(err.contains("empty"));
}

#[test]
fn parse_invalid_restore_kind_rejected() {
    let toml_str = r#"
    id = "bad"
    name = "bad"
    version = "1.0.0"
    description = "t"
    author = "t"
    platforms = ["macos"]

    [[targets]]
    path = "~/tmp"
    restore = "unknown"
    "#;
    let err = parse(toml_str).unwrap_err();
    assert!(err.contains("unknown restore kind"));
}
