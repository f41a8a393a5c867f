use freespace::widgets::{
    centered_rect, checkbox_str, cmp_size_desc, dedup_paths, elapsed_text, is_checkbox_click, parse_hex_color, wrap_reason,
    Area, CheckState,
};
use std::cmp::Ordering;

#[test]
fn checkbox_none() {
    assert_eq!(checkbox_str(&CheckState::Empty), "[ ]");
}

#[test]
fn checkbox_all() {
    assert_eq!(checkbox_str(&CheckState::All), "[x]");
}

#[test]
fn checkbox_partial() {
    assert_eq!(checkbox_str(&CheckState::Partial), "[~]");
}

#[test]
fn cmp_size_desc_both_some() {
    assert_eq!(cmp_size_desc(Some(100), Some(200)), Ordering::Greater);
    assert_eq!(cmp_size_desc(Some(200), Some(100)), Ordering::Less);
    assert_eq!(cmp_size_desc(Some(100), Some(100)), Ordering::Equal);
}

#[test]
fn cmp_size_desc_none_before_some() {
    assert_eq!(cmp_size_desc(None, Some(100)), Ordering::Less);
    assert_eq!(cmp_size_desc(Some(100), None), Ordering::Greater);
}

#[test]
fn cmp_size_desc_both_none() {
    assert_eq!(cmp_size_desc(None, None), Ordering::Equal);
}

fn strings(v: &[&str]) -> Vec<String> {
    v.iter().map(|s| s.to_string()).collect()
}

#[test]
fn dedup_paths_removes_children() {
    let result = dedup_paths(&strings(&["/a/b", "/a/b/c", "/a/b/c/d"]));
    assert_eq!(result.len(), 1);
    assert!(result.contains(&"/a/b".to_string()));
}

#[test]
fn dedup_paths_keeps_disjoint() {
    let result = dedup_paths(&strings(&["/a/b", "/c/d"]));
    assert_eq!(result.len(), 2);
    assert!(result.contains(&"/a/b".to_string()));
    assert!(result.contains(&"/c/d".to_string()));
}

#[test]
fn dedup_paths_single_item() {
    let result = dedup_paths(&strings(&["/a/b"]));
    assert_eq!(result.len(), 1);
}

#[test]
fn dedup_paths_empty() {
    let result = dedup_paths(&[]);
    assert!(result.is_empty());
}

#[test]
fn dedup_paths_drops_repeats_and_keeps_siblings() {
    let result = dedup_paths(&strings(&["/a/b/", "/a/b", "/a/bc", "/a/b/x"]));
    assert_eq!(result, strings(&["/a/b/", "/a/bc"]));
}

#[test]
fn long_reasons_wrap_instead_of_truncating() {
    let reason = "`xcrun simctl runtime delete UUID` exited 1: \
                  The runtime is currently in use by a booted device";
    let lines = wrap_reason(reason, 40);
    assert!(lines.len() > 1, "expected wrapping, got {lines:?}");
    assert!(lines[0].starts_with("   \u{21b3} "));
    // No word is lost in the wrap.
    let joined: String = lines.join(" ");
    for word in reason.split_whitespace() {
        assert!(joined.contains(word), "lost '{word}'");
    }
}

#[test]
fn empty_reason_still_renders_a_line() {
    assert_eq!(wrap_reason("", 40), vec!["   \u{21b3} (no detail)"]);
}

#[test]
fn wrap_reason_exact_lines() {
    assert_eq!(
        wrap_reason("aaa bbb ccc", 12),
        vec!["   \u{21b3} aaa bbb".to_string(), "     ccc".to_string()]
    );
    assert_eq!(wrap_reason("  x  ", 1), vec!["   \u{21b3} x".to_string()]);
}

#[test]
fn elapsed_texts() {
    assert_eq!(elapsed_text(59), "just now");
    assert_eq!(elapsed_text(60), "1 minute ago");
    assert_eq!(elapsed_text(3599), "59 minutes ago");
    assert_eq!(elapsed_text(7200), "2 hours ago");
    assert_eq!(elapsed_text(86400), "1 day ago");
}

#[test]
fn parse_hex_color_reads_rgb() {
    assert_eq!(parse_hex_color("#2496ED"), Some((0x24, 0x96, 0xED)));
    assert_eq!(parse_hex_color("#000000"), Some((0, 0, 0)));
    assert_eq!(parse_hex_color("#ffffff"), Some((255, 255, 255)));
}

#[test]
fn parse_hex_color_rejects_malformed() {
    assert_eq!(parse_hex_color("2496ED"), None);
    assert_eq!(parse_hex_color("#2496E"), None);
    assert_eq!(parse_hex_color("#2496EDA"), None);
    assert_eq!(parse_hex_color("#gg0000"), None);
    assert_eq!(parse_hex_color("#-10000"), None);
    assert_eq!(parse_hex_color(""), None);
}

#[test]
fn parse_hex_color_accepts_plus_signed_fields() {
    assert_eq!(parse_hex_color("#+1+2+f"), Some((1, 2, 15)));
}

#[test]
fn checkbox_click_zone() {
    let at_origin = Area { x: 0, y: 0, width: 80, height: 24 };
    assert!(is_checkbox_click(7, at_origin));
    assert!(!is_checkbox_click(8, at_origin));
    let shifted = Area { x: 5, y: 2, width: 60, height: 20 };
    assert!(is_checkbox_click(12, shifted));
    assert!(!is_checkbox_click(13, shifted));
}

#[test]
fn centered_rect_scales_and_centres() {
    let r = centered_rect(Area { x: 0, y: 0, width: 100, height: 50 }, 70);
    assert_eq!(r, Area { x: 15, y: 7, width: 70, height: 35 });
}

#[test]
fn centered_rect_keeps_minimum_and_fits_area() {
    let r = centered_rect(Area { x: 3, y: 4, width: 30, height: 5 }, 70);
    assert_eq!(r, Area { x: 0, y: 0, width: 30, height: 5 });
    let r = centered_rect(Area { x: 0, y: 0, width: 50, height: 20 }, 70);
    assert_eq!(r, Area { x: 5, y: 3, width: 40, height: 14 });
}
