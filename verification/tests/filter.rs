use freespace::filter::{matches_filter, matches_structured_filter};
use freespace::manifest::{RestoreKind, RiskLevel};

#[test]
fn filter_matches_filter_empty_query() {
    assert!(matches_filter("anything", &[], ""));
}

#[test]
fn filter_matches_filter_case_insensitive() {
    assert!(matches_filter("Docker", &[], "docker"));
    assert!(matches_filter("docker", &[], "DOCK"));
}

#[test]
fn filter_matches_filter_no_match() {
    assert!(!matches_filter("docker", &[], "npm"));
}

#[test]
fn app_matches_filter_empty_query() {
    assert!(matches_filter("anything", &[], ""));
}

#[test]
fn app_matches_filter_case_insensitive() {
    assert!(matches_filter("Docker", &[], "docker"));
    assert!(matches_filter("docker", &[], "DOCK"));
}

#[test]
fn app_matches_filter_no_match() {
    assert!(!matches_filter("docker", &[], "npm"));
}

#[test]
fn matches_filter_tag_hash_prefix() {
    let tags = vec!["cache".to_string(), "ios".to_string()];
    assert!(matches_filter("docker", &tags, "#cache"));
    assert!(!matches_filter("docker", &tags, "#build-artifacts"));
}

#[test]
fn matches_filter_tag_hash_empty() {
    assert!(matches_filter("docker", &[], "#"));
}

#[test]
fn matches_filter_tag_case_insensitive() {
    let tags = vec!["cache".to_string()];
    assert!(matches_filter("docker", &tags, "#CA"));
}

#[test]
fn matches_filter_plain_query_matches_tags() {
    let tags = vec!["cache".to_string()];
    assert!(matches_filter("docker", &tags, "cache"));
}

#[test]
fn tag_query_ignores_the_name() {
    assert!(!matches_filter("docker", &[], "#docker"));
}

#[test]
fn structured_filter_all_enabled() {
    assert!(matches_structured_filter(
        RiskLevel::High,
        RestoreKind::Manual,
        &[true; 4],
        &[true; 2],
    ));
}

#[test]
fn structured_filter_risk_disabled() {
    assert!(!matches_structured_filter(
        RiskLevel::High,
        RestoreKind::Auto,
        &[true, true, true, false],
        &[true; 2],
    ));
}

#[test]
fn structured_filter_restore_disabled() {
    assert!(!matches_structured_filter(
        RiskLevel::Safe,
        RestoreKind::Manual,
        &[true; 4],
        &[true, false],
    ));
}

#[test]
fn structured_filter_both_must_match() {
    assert!(matches_structured_filter(
        RiskLevel::Medium,
        RestoreKind::Auto,
        &[true, true, true, true],
        &[true, false],
    ));
    assert!(!matches_structured_filter(
        RiskLevel::Medium,
        RestoreKind::Manual,
        &[true, true, true, true],
        &[true, false],
    ));
}
