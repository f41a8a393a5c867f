use freespace::exec::{check_output, display_argv, is_whitespace, Output};

#[test]
fn display_argv_quotes_only_when_needed() {
    assert_eq!(display_argv(&["xcrun", "simctl", "delete", "ABC-123"]), "xcrun simctl delete ABC-123");
    assert_eq!(display_argv(&["echo", "two words"]), "echo \"two words\"");
}

#[test]
fn display_argv_quotes_empty_and_quotes() {
    assert_eq!(display_argv(&["a", "", "say \"x\""]), "a \"\" \"say \\\"x\\\"\"");
    assert_eq!(display_argv(&[]), "");
}

#[test]
fn whitespace_is_unicode_white_space() {
    assert!(is_whitespace(' '));
    assert!(is_whitespace('\t'));
    assert!(is_whitespace('\u{3000}'));
    assert!(!is_whitespace('x'));
    assert!(!is_whitespace('\u{200b}'));
}

fn output(stderr: &str, status: Option<i32>) -> Output {
    Output { stdout: "out\n".to_string(), stderr: stderr.to_string(), status }
}

#[test]
fn error_summary_takes_first_nonblank_line() {
    assert_eq!(output("\n   \r\n  boom here  \nmore", Some(1)).error_summary(), "exited 1: boom here");
    assert_eq!(output("", Some(-3)).error_summary(), "exited -3: no error output");
    assert_eq!(output("killed\r\n", None).error_summary(), "terminated by signal: killed");
}

#[test]
fn checked_runs_fail_on_nonzero_status() {
    assert_eq!(check_output(&["echo", "hi"], output("", Some(0))), Ok("out\n".to_string()));
    assert_eq!(
        check_output(&["false"], output("nope", Some(1))),
        Err("`false` exited 1: nope".to_string())
    );
    assert!(check_output(&["x"], output("", None)).is_err());
}
