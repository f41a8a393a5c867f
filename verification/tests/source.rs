use freespace::source::SourceIdentifier;

fn assert_git(src: &SourceIdentifier, host: &str, owner: &str, repo: &str) {
    match src {
        SourceIdentifier::Git {
            host: h,
            owner: o,
            repo: r,
            ..
        } => {
            assert_eq!(h, host);
            assert_eq!(o, owner);
            assert_eq!(r, repo);
        }
        _ => panic!("expected Git variant"),
    }
}

// --- github: prefix ---

#[test]
fn parse_github_basic() {
    let src = SourceIdentifier::parse("github:user/repo").unwrap();
    assert_git(&src, "github.com", "user", "repo");
}

#[test]
fn parse_github_with_ref() {
    let src = SourceIdentifier::parse("github:user/repo@v1.0.0").unwrap();
    assert_git(&src, "github.com", "user", "repo");
    assert_eq!(src.git_ref().map(|s| s.as_str()), Some("v1.0.0"));
}

#[test]
fn parse_github_with_module() {
    let src = SourceIdentifier::parse("github:user/repo#my-module").unwrap();
    assert_git(&src, "github.com", "user", "repo");
    assert_eq!(src.module_subdir().map(|s| s.as_str()), Some("my-module"));
}

#[test]
fn parse_github_with_ref_and_module() {
    let src = SourceIdentifier::parse("github:user/repo@main#docker").unwrap();
    assert_git(&src, "github.com", "user", "repo");
    assert_eq!(src.git_ref().map(|s| s.as_str()), Some("main"));
    assert_eq!(src.module_subdir().map(|s| s.as_str()), Some("docker"));
}

// --- HTTPS URLs ---

#[test]
fn parse_https_github() {
    let src =
        SourceIdentifier::parse("https://github.com/nicorichard/freespace-modules").unwrap();
    assert_git(&src, "github.com", "nicorichard", "freespace-modules");
}

#[test]
fn parse_https_with_git_suffix() {
    let src = SourceIdentifier::parse("https://github.com/user/repo.git").unwrap();
    assert_git(&src, "github.com", "user", "repo");
}

#[test]
fn parse_https_trailing_slash() {
    let src = SourceIdentifier::parse("https://github.com/user/repo/").unwrap();
    assert_git(&src, "github.com", "user", "repo");
}

#[test]
fn parse_https_custom_host() {
    let src = SourceIdentifier::parse("https://gitlab.com/team/project").unwrap();
    assert_git(&src, "gitlab.com", "team", "project");
}

#[test]
fn parse_https_self_hosted() {
    let src = SourceIdentifier::parse("https://git.internal.co/org/modules.git").unwrap();
    assert_git(&src, "git.internal.co", "org", "modules");
}

// --- SSH URLs ---

#[test]
fn parse_ssh_github() {
    let src = SourceIdentifier::parse("git@github.com:user/repo.git").unwrap();
    assert_git(&src, "github.com", "user", "repo");
}

#[test]
fn parse_ssh_custom_host() {
    let src = SourceIdentifier::parse("git@gitlab.com:team/project.git").unwrap();
    assert_git(&src, "gitlab.com", "team", "project");
}

// --- Shorthand (defaults to github.com) ---

#[test]
fn parse_shorthand() {
    let src = SourceIdentifier::parse("nicorichard/freespace-modules").unwrap();
    assert_git(&src, "github.com", "nicorichard", "freespace-modules");
}

#[test]
fn parse_shorthand_with_ref() {
    let src = SourceIdentifier::parse("user/repo@v2.0").unwrap();
    assert_git(&src, "github.com", "user", "repo");
    assert_eq!(src.git_ref().map(|s| s.as_str()), Some("v2.0"));
}

#[test]
fn parse_shorthand_with_module() {
    let src = SourceIdentifier::parse("user/repo#docker").unwrap();
    assert_git(&src, "github.com", "user", "repo");
    assert_eq!(src.module_subdir().map(|s| s.as_str()), Some("docker"));
}

// --- Local paths ---

#[test]
fn parse_local_absolute_path() {
    let src = SourceIdentifier::parse("/tmp/my-module").unwrap();
    match src {
        SourceIdentifier::Local { path } => {
            assert_eq!(path, "/tmp/my-module");
        }
        _ => panic!("expected Local variant"),
    }
}

#[test]
fn parse_local_relative_path() {
    let src = SourceIdentifier::parse("./modules/test").unwrap();
    assert!(matches!(src, SourceIdentifier::Local { .. }));
}

#[test]
fn parse_tilde_path_not_git() {
    let src = SourceIdentifier::parse("~/modules/test").unwrap();
    assert!(matches!(src, SourceIdentifier::Local { .. }));
}

// --- Error cases ---

#[test]
fn parse_github_missing_repo() {
    assert!(SourceIdentifier::parse("github:user").is_err());
}

#[test]
fn parse_github_empty_owner() {
    assert!(SourceIdentifier::parse("github:/repo").is_err());
}

#[test]
fn parse_github_empty_repo() {
    assert!(SourceIdentifier::parse("github:user/").is_err());
}

#[test]
fn parse_github_empty_ref() {
    assert!(SourceIdentifier::parse("github:user/repo@").is_err());
}

#[test]
fn parse_github_empty_module() {
    assert!(SourceIdentifier::parse("github:user/repo#").is_err());
}

// --- clone_urls ---

#[test]
fn clone_urls_github() {
    let src = SourceIdentifier::parse("github:user/repo").unwrap();
    assert_eq!(
        src.clone_urls(),
        vec![
            "https://github.com/user/repo.git".to_string(),
            "git@github.com:user/repo.git".to_string(),
        ]
    );
}

#[test]
fn clone_urls_custom_host() {
    let src = SourceIdentifier::parse("https://gitlab.com/team/project").unwrap();
    assert_eq!(
        src.clone_urls(),
        vec![
            "https://gitlab.com/team/project.git".to_string(),
            "git@gitlab.com:team/project.git".to_string(),
        ]
    );
}

#[test]
fn clone_urls_local_is_empty() {
    let src = SourceIdentifier::parse("/tmp/foo").unwrap();
    assert!(src.clone_urls().is_empty());
}

// --- default_dir_name ---

#[test]
fn default_dir_name_git() {
    let src = SourceIdentifier::parse("github:user/my-modules").unwrap();
    assert_eq!(src.default_dir_name(), "my-modules");
}

#[test]
fn default_dir_name_local() {
    let src = SourceIdentifier::parse("/home/user/my-module").unwrap();
    assert_eq!(src.default_dir_name(), "my-module");
}

// --- Display ---

#[test]
fn display_github_full() {
    let src = SourceIdentifier::parse("github:user/repo@v1#mod").unwrap();
    assert_eq!(src.to_display_string(), "github:user/repo@v1#mod");
}

#[test]
fn display_custom_host() {
    let src = SourceIdentifier::parse("https://gitlab.com/team/project").unwrap();
    assert_eq!(src.to_display_string(), "git:gitlab.com/team/project");
}

#[test]
fn display_local() {
    let src = SourceIdentifier::parse("/tmp/test").unwrap();
    assert_eq!(src.to_display_string(), "/tmp/test");
}

// --- repository_string ---

#[test]
fn repository_string_github() {
    let src = SourceIdentifier::parse("github:user/repo@v1#mod").unwrap();
    assert_eq!(src.repository_string(), "github:user/repo");
}

#[test]
fn repository_string_custom_host() {
    let src = SourceIdentifier::parse("https://gitlab.com/team/project").unwrap();
    assert_eq!(src.repository_string(), "git:gitlab.com/team/project");
}

#[test]
fn repository_string_local() {
    let src = SourceIdentifier::parse("/tmp/test").unwrap();
    assert_eq!(src.repository_string(), "local:/tmp/test");
}

// --- Round-trip: source.toml repository strings parse back correctly ---

#[test]
fn roundtrip_github_repository_string() {
    let src = SourceIdentifier::parse("github:user/repo").unwrap();
    let repo_str = src.repository_string();
    let parsed = SourceIdentifier::parse(&repo_str).unwrap();
    assert_git(&parsed, "github.com", "user", "repo");
}

#[test]
fn roundtrip_custom_host_repository_string() {
    let src = SourceIdentifier::parse("https://gitlab.com/team/project").unwrap();
    let repo_str = src.repository_string();
    let parsed = SourceIdentifier::parse(&repo_str).unwrap();
    assert_git(&parsed, "gitlab.com", "team", "project");
}
