use freespace::scanner::{dir_step, expand_tilde, item_name, local_item_name, DirStep};

#[test]
fn expand_tilde_no_tilde() {
    assert_eq!(expand_tilde("/usr/local", Some("/home/u")), "/usr/local");
}

#[test]
fn expand_tilde_with_home_value() {
    assert_eq!(expand_tilde("~/Documents", Some("/home/u")), "/home/u/Documents");
    assert_eq!(expand_tilde("~/Documents", None), "~/Documents");
}

#[test]
fn local_item_name_with_parent() {
    assert_eq!(local_item_name("/home/user/myproject/node_modules", "node_modules"), "myproject/node_modules");
}

#[test]
fn local_item_name_no_parent() {
    // The parent is "", which has no file name
    let name = local_item_name("node_modules", "node_modules");
    assert_eq!(name, "node_modules");
}

#[test]
fn item_names() {
    assert_eq!(item_name("/a/b/cache"), "cache");
    assert_eq!(item_name("/"), "/");
}

#[test]
fn directory_steps() {
    assert_eq!(dir_step(1, ".git", "node_modules", None), DirStep::Skip);
    assert_eq!(dir_step(0, ".root", "node_modules", None), DirStep::Descend);
    assert_eq!(dir_step(2, "node_modules", "node_modules", None), DirStep::Report);
    assert_eq!(dir_step(2, "node_modules", "node_modules", Some(false)), DirStep::Skip);
    assert_eq!(dir_step(2, "node_modules", "node_modules", Some(true)), DirStep::Report);
    assert_eq!(dir_step(3, ".venv", ".venv", None), DirStep::Report);
    assert_eq!(dir_step(3, "src", "node_modules", None), DirStep::Descend);
}

#[test]
fn expand_tilde_with_home() {
    let home = dirs::home_dir().map(|h| h.to_string_lossy().into_owned());
    let result = expand_tilde("~/Documents", home.as_deref());
    if home.is_some() {
        assert!(!result.starts_with('~'));
        assert!(result.ends_with("/Documents"));
    }
}
