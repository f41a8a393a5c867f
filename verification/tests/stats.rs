use freespace::stats::{escape_json, format_stats, parse_stats, Stats};

#[test]
fn round_trip_empty() {
    let stats = Stats::from_parts(0, Vec::new());
    let json = format_stats(&stats);
    let parsed = parse_stats(&json).unwrap();
    assert_eq!(parsed.total_freed, 0);
    assert!(parsed.modules().is_empty());
}

#[test]
fn round_trip_with_data() {
    let stats = Stats::from_parts(
        5_000_000,
        vec![
            ("docker".to_string(), 3_000_000),
            ("xcode".to_string(), 2_000_000),
        ],
    );
    let json = format_stats(&stats);
    let parsed = parse_stats(&json).unwrap();
    assert_eq!(parsed.total_freed, 5_000_000);
    assert_eq!(parsed.modules().len(), 2);
    assert_eq!(parsed.modules()[0], ("docker".to_string(), 3_000_000));
    assert_eq!(parsed.modules()[1], ("xcode".to_string(), 2_000_000));
}

#[test]
fn record_accumulates() {
    let mut stats = Stats::from_parts(0, Vec::new());
    stats.record("docker", 100);

    // A second record for the same module
    stats.record("docker", 200);

    assert_eq!(stats.total_freed, 300);
    assert_eq!(stats.module_total("docker"), 300);
    assert_eq!(stats.module_total("unknown"), 0);
}

#[test]
fn module_total_lookup() {
    let stats = Stats::from_parts(500, vec![("a".to_string(), 200), ("b".to_string(), 300)]);
    assert_eq!(stats.module_total("a"), 200);
    assert_eq!(stats.module_total("b"), 300);
    assert_eq!(stats.module_total("c"), 0);
}

#[test]
fn parse_handles_garbage() {
    assert!(parse_stats("not json").is_none());
    assert!(parse_stats("").is_none());
}

#[test]
fn escape_json_special_chars() {
    assert_eq!(escape_json("hello"), "hello");
    assert_eq!(escape_json("say \"hi\""), "say \\\"hi\\\"");
}

#[test]
fn record_zero_is_noop() {
    let mut stats = Stats::from_parts(100, vec![("a".to_string(), 100)]);
    // recording zero bytes changes nothing
    stats.record("a", 0);
    assert_eq!(stats.total_freed, 100);
    assert_eq!(stats.module_total("a"), 100);
}

#[test]
fn format_stats_exact_text() {
    let stats = Stats::from_parts(7, vec![("a".to_string(), 3), ("b\"c".to_string(), 4)]);
    assert_eq!(
        format_stats(&stats),
        "{\"total_freed\":7,\"modules\":{\"a\":3,\"b\\\"c\":4}}\n"
    );
}

#[test]
fn load_without_file_is_empty() {
    let stats = Stats::load(None);
    assert_eq!(stats.total_freed, 0);
    assert!(stats.modules().is_empty());
    let garbage = Stats::load(Some("{".to_string()));
    assert_eq!(garbage.total_freed, 0);
}
