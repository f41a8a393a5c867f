use freespace::paths::{expand_tilde, expand_tilde_with};

#[test]
fn absolute_path_unchanged() {
    assert_eq!(expand_tilde("/usr/local"), "/usr/local");
}

#[test]
fn relative_path_unchanged() {
    assert_eq!(expand_tilde("foo/bar"), "foo/bar");
}

#[test]
fn tilde_forms_against_a_home() {
    let home = Some("/home/u".to_string());
    assert_eq!(expand_tilde_with("~", &home), "/home/u");
    assert_eq!(expand_tilde_with("~/Documents", &home), "/home/u/Documents");
    assert_eq!(expand_tilde_with("~user/x", &home), "~user/x");
    assert_eq!(expand_tilde_with("~/x", &None), "~/x");
}

fn home() -> Option<String> {
    dirs::home_dir().map(|h| h.to_string_lossy().into_owned())
}

#[test]
fn bare_tilde() {
    let result = expand_tilde("~");
    if let Some(home) = home() {
        assert_eq!(result, home);
    }
}

#[test]
fn tilde_slash_prefix() {
    let result = expand_tilde("~/Documents");
    if let Some(home) = home() {
        assert_eq!(result, format!("{}/Documents", home.trim_end_matches('/')));
    }
}
