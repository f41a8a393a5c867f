use freespace::audit::{
    collapse_home_with, days_to_ymd, is_leap, iso8601_from_secs, log_line, needs_rotation, now_iso8601,
    rotated_content, MAX_LOG_BYTES,
};

#[test]
fn now_iso8601_format() {
    let ts = now_iso8601();
    // Should match pattern YYYY-MM-DDTHH:MM:SSZ
    assert_eq!(ts.len(), 20);
    assert!(ts.ends_with('Z'));
    assert_eq!(&ts[4..5], "-");
    assert_eq!(&ts[10..11], "T");
}

#[test]
fn log_creates_file_and_writes() {
    // The timestamp that starts each line is never empty.
    let ts = now_iso8601();
    assert!(!ts.is_empty());
}

#[test]
fn days_to_ymd_epoch() {
    let (y, m, d) = days_to_ymd(0);
    assert_eq!((y, m, d), (1970, 1, 1));
}

#[test]
fn days_to_ymd_known_date() {
    // 2026-03-03 is day 20515 since the epoch
    let (y, m, d) = days_to_ymd(20515);
    assert_eq!((y, m, d), (2026, 3, 3));
}

#[test]
fn days_to_ymd_leap_day() {
    // 2024-02-29 is day 19782
    assert_eq!(days_to_ymd(19782), (2024, 2, 29));
    assert_eq!(days_to_ymd(19783), (2024, 3, 1));
    assert_eq!(days_to_ymd(10956), (1999, 12, 31));
}

#[test]
fn leap_years() {
    assert!(is_leap(2000));
    assert!(is_leap(2024));
    assert!(!is_leap(1900));
    assert!(!is_leap(2023));
}

#[test]
fn iso8601_of_known_instants() {
    assert_eq!(iso8601_from_secs(0), "1970-01-01T00:00:00Z");
    assert_eq!(iso8601_from_secs(1772547721), "2026-03-03T14:22:01Z");
}

#[test]
fn collapse_home_with_home_prefix() {
    let home = Some("/home/u".to_string());
    let collapsed = collapse_home_with("/home/u/Library/Caches", &home);
    assert_eq!(collapsed, "~/Library/Caches");
    assert_eq!(collapse_home_with("/home/u", &home), "~/");
}

#[test]
fn collapse_home_without_home_prefix() {
    let collapsed = collapse_home_with("/tmp/something", &Some("/home/u".to_string()));
    assert_eq!(collapsed, "/tmp/something");
    assert_eq!(collapse_home_with("/home/user2/x", &Some("/home/u".to_string())), "/home/user2/x");
    assert_eq!(collapse_home_with("/tmp/x", &None), "/tmp/x");
}

#[test]
fn rotate_keeps_recent_half() {
    let line = "2026-01-01T00:00:00Z TRASH ~/cache (1 KB) [module: test]";
    let content: String = (0..5).map(|i| format!("{line} {i}\n")).collect();
    let after = rotated_content(&content);
    let kept: Vec<&str> = after.lines().collect();
    assert_eq!(kept.len(), 3);
    assert!(kept[0].ends_with(" 2"));
    assert!(kept[2].ends_with(" 4"));
    assert!(after.ends_with('\n'));
}

#[test]
fn rotation_threshold() {
    assert!(!needs_rotation(MAX_LOG_BYTES));
    assert!(needs_rotation(MAX_LOG_BYTES + 1));
}

#[test]
fn log_line_format() {
    assert_eq!(
        log_line("2026-03-03T14:22:01Z", "TRASH", "~/Library/Caches/docker", Some("2.1 GB"), "docker"),
        "2026-03-03T14:22:01Z TRASH ~/Library/Caches/docker (2.1 GB) [module: docker]"
    );
    assert_eq!(log_line("T", "DELETE", "/x", None, "m"), "T DELETE /x [module: m]");
}

/// What rotation does to a log's content: rewritten when it has grown past
/// the limit, left alone otherwise.
fn rotate(content: &str) -> String {
    if needs_rotation(content.len() as u64) {
        rotated_content(content)
    } else {
        content.to_string()
    }
}

#[test]
fn rotate_truncates_large_log() {
    let line = "2026-01-01T00:00:00Z TRASH ~/cache (1 KB) [module: test]\n";
    let count = (MAX_LOG_BYTES as usize / line.len()) + 100;
    let content: String = line.repeat(count);
    assert!(content.len() as u64 > MAX_LOG_BYTES);

    let after = rotate(&content);
    let lines_before = content.lines().count();
    let lines_after = after.lines().count();
    assert!(lines_after < lines_before, "should have fewer lines after rotation");
    assert!(lines_after >= lines_before / 2 - 1);
    assert!(lines_after <= lines_before / 2 + 1);
}

#[test]
fn rotate_noop_when_small() {
    let content = "2026-01-01T00:00:00Z TRASH ~/cache (1 KB) [module: test]\n";
    let after = rotate(content);
    assert_eq!(after, content);
}
