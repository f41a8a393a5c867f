use freespace::manager::{
    catalog_ids, find_requested, load_catalog, reconcile, supports_platform, InstallError, LoadedModule,
    ModuleOrigin, UserModule,
};
use freespace::manifest::Module;

fn module(id: &str, platforms: &[&str]) -> Module {
    Module {
        id: id.to_string(),
        name: id.to_string(),
        version: "1.0.0".to_string(),
        description: "test".to_string(),
        author: "tester".to_string(),
        platforms: platforms.iter().map(|p| p.to_string()).collect(),
        tags: Vec::new(),
        icon: None,
        icon_color: None,
        targets: Vec::new(),
    }
}

fn builtin(id: &str) -> LoadedModule {
    LoadedModule { module: module(id, &["linux"]), manifest_path: None, origin: ModuleOrigin::Builtin }
}

fn user(id: &str, vendored: bool) -> UserModule {
    UserModule {
        module: module(id, &["linux"]),
        manifest_path: format!("/m/{id}/module.toml"),
        vendored_copy: vendored,
    }
}

#[test]
fn user_module_replaces_builtin_of_same_id() {
    let r = reconcile(vec![builtin("docker"), builtin("npm")], vec![user("docker", false), user("extra", false)], vec![]);
    let ids: Vec<(&str, ModuleOrigin)> = r.modules.iter().map(|m| (m.module.id.as_str(), m.origin)).collect();
    assert_eq!(
        ids,
        vec![("npm", ModuleOrigin::Builtin), ("docker", ModuleOrigin::User), ("extra", ModuleOrigin::User)]
    );
    assert_eq!(r.modules[1].manifest_path.as_deref(), Some("/m/docker/module.toml"));
    assert!(r.superseded.is_empty());
}

#[test]
fn vendored_copy_is_superseded() {
    let r = reconcile(vec![builtin("docker")], vec![user("docker", true), user("own", true)], vec!["w".to_string()]);
    let ids: Vec<&str> = r.modules.iter().map(|m| m.module.id.as_str()).collect();
    assert_eq!(ids, vec!["docker", "own"]);
    assert_eq!(r.modules[0].origin, ModuleOrigin::Builtin);
    assert_eq!(r.superseded, vec!["docker".to_string()]);
    assert_eq!(r.warnings, vec!["w".to_string()]);
}

#[test]
fn catalog_filters_disabled_platform_and_reports_failures() {
    let parsed = vec![
        ("a".to_string(), Ok(module("a", &["linux"]))),
        ("b".to_string(), Ok(module("b", &["macos"]))),
        ("c".to_string(), Err("bad toml".to_string())),
        ("d".to_string(), Ok(module("d", &["linux", "macos"]))),
    ];
    let (mods, warnings) = load_catalog(parsed, &["d".to_string()], "linux");
    let ids: Vec<&str> = mods.iter().map(|m| m.id.as_str()).collect();
    assert_eq!(ids, vec!["a"]);
    assert_eq!(warnings, vec!["built-in module 'c' is invalid: bad toml".to_string()]);
}

#[test]
fn catalog_ids_ignore_disabled_list() {
    let mods = vec![module("a", &["linux"]), module("b", &["macos"]), module("c", &["linux"])];
    assert_eq!(catalog_ids(&mods, "linux"), vec!["a".to_string(), "c".to_string()]);
    assert!(supports_platform(&mods[1], "macos"));
    assert!(!supports_platform(&mods[1], "linux"));
}

#[test]
fn requested_module_is_found_by_directory() {
    let mods = vec![("x".to_string(), module("x", &[])), ("docker".to_string(), module("docker", &[]))];
    assert_eq!(find_requested(&mods, "docker"), Some(1));
    assert_eq!(find_requested(&mods, "nope"), None);
}

#[test]
fn install_error_messages() {
    assert_eq!(InstallError::GitNotFound.message(), "git is not installed or not in PATH");
    assert_eq!(
        InstallError::ModuleNotInRepo { name: "a".to_string(), available: "b, c".to_string() }.message(),
        "module 'a' not found in source. Available: b, c"
    );
    assert_eq!(InstallError::Other("x".to_string()).message(), "x");
}

fn synthetic_catalog() -> Vec<(String, Result<Module, String>)> {
    vec![
        ("alpha".to_string(), Ok(module("alpha", &["linux", "macos"]))),
        ("beta".to_string(), Ok(module("beta", &["linux", "macos"]))),
        ("gamma".to_string(), Ok(module("gamma", &["linux", "macos"]))),
    ]
}

#[test]
fn disabled_ids_are_filtered_out() {
    let (all, _) = load_catalog(synthetic_catalog(), &[], "linux");
    assert!(!all.is_empty(), "expected catalog modules on this platform");
    let first = all[0].id.clone();

    let (filtered, _) = load_catalog(synthetic_catalog(), std::slice::from_ref(&first), "linux");
    assert!(!filtered.iter().any(|m| m.id == first), "disabled id '{}' should not load", first);
    assert_eq!(filtered.len(), all.len() - 1);
}
