use freespace::cleaner::{
    is_preserved, plan_step, record_outcome, reversible_first, CleanupAction, CleanupItem, CleanupMessage, CleanupOptions,
    CleanupResult, StepPlan, Sweep,
};
use freespace::handlers::{identity_path, HandlerKind};
use freespace::safety::{block_reason, SafetyLevel};

fn handler_item(id: &str) -> CleanupItem {
    CleanupItem {
        path: identity_path("xcode.simulator-devices", id),
        ignore_patterns: Vec::new(),
        module_id: "xcode-simulators".to_string(),
        size: Some(1024),
        action: CleanupAction::Handler { handler: "xcode.simulator-devices", id: id.to_string() },
    }
}

fn path_item(path: &str) -> CleanupItem {
    CleanupItem::from_path(path.to_string())
}

fn opts(dry_run: bool, allow_warned: bool) -> CleanupOptions {
    CleanupOptions { dry_run, audit_log: false, enforce_scope: false, allow_warned, ..CleanupOptions::default() }
}

#[test]
fn handler_actions_are_never_reversible() {
    assert!(CleanupAction::Path.is_reversible());
    assert!(!handler_item("ABC").action.is_reversible());
}

#[test]
fn handler_action_exposes_the_exact_command() {
    assert_eq!(
        handler_item("ABC-123").action.removal_command().as_deref(),
        Some("xcrun simctl delete ABC-123")
    );
    assert_eq!(CleanupAction::Path.removal_command(), None);
}

#[test]
fn reversible_work_is_ordered_before_irreversible() {
    let items = vec![handler_item("FIRST"), path_item("/tmp/a.txt"), handler_item("SECOND"), path_item("/tmp/b.txt")];
    let ordered = reversible_first(&items);
    let reversible: Vec<bool> = ordered.iter().map(|i| i.action.is_reversible()).collect();
    assert_eq!(reversible, vec![true, true, false, false]);
    let paths: Vec<&str> = ordered.iter().map(|i| i.path.as_str()).collect();
    assert_eq!(
        paths,
        vec![
            "/tmp/a.txt",
            "/tmp/b.txt",
            "freespace-handler/xcode.simulator-devices/FIRST",
            "freespace-handler/xcode.simulator-devices/SECOND"
        ]
    );
}

#[test]
fn warn_tier_blocked_without_allow() {
    let o = opts(false, false);
    let result = block_reason(SafetyLevel::Warn, Some("/Library/Logs".to_string()), o.allow_warned);
    assert!(result.is_some());
    assert!(result.unwrap().contains("blocked by safety rule"));
}

#[test]
fn warn_tier_allowed_with_flag() {
    let o = opts(false, true);
    let result = block_reason(SafetyLevel::Warn, Some("/Library/Logs".to_string()), o.allow_warned);
    assert!(result.is_none());
}

#[test]
fn deny_tier_always_blocked() {
    let o = opts(false, true);
    let result = block_reason(SafetyLevel::Deny, Some("/usr".to_string()), o.allow_warned);
    assert!(result.is_some());
    assert!(result.unwrap().contains("blocked by safety rule"));
}

#[test]
fn dry_run_does_not_invoke_the_handler() {
    let plan = plan_step(&handler_item("ABC"), &opts(true, false), SafetyLevel::Deny, None, false);
    assert!(matches!(plan, StepPlan::Succeed));
    let plan = plan_step(&handler_item("ABC"), &opts(false, false), SafetyLevel::Deny, None, false);
    match plan {
        StepPlan::RunHandler { handler, id } => {
            assert_eq!(handler, HandlerKind::SimulatorDevices);
            assert_eq!(id, "ABC");
        }
        _ => panic!("expected the handler to run"),
    }
    // In a dry run the batch records the item as done, with nothing run.
    let item = handler_item("ABC");
    let mut sweep = Sweep::new(1);
    assert!(sweep.go_on(false));
    let outcome = match plan_step(&item, &opts(true, false), SafetyLevel::Deny, None, false) {
        StepPlan::Succeed => Ok(()),
        StepPlan::Fail(m) => Err(m),
        _ => panic!("a dry run runs nothing"),
    };
    sweep.handled_item(item.path.clone(), outcome, item.action.removal_command());
    assert!(!sweep.go_on(false));
    match sweep.finish() {
        CleanupMessage::Complete(r) => {
            assert_eq!(r.succeeded.len(), 1);
            assert!(r.failed.is_empty());
        }
        _ => panic!("expected completion"),
    }
}

#[test]
fn unknown_handler_fails_the_item_rather_than_the_batch() {
    let item = CleanupItem {
        action: CleanupAction::Handler { handler: "gone.missing", id: "x".to_string() },
        ..CleanupItem::from_path("freespace-handler/gone.missing/x".to_string())
    };
    let other = path_item("/tmp/fine");
    let mut sweep = Sweep::new(2);
    for it in [&item, &other] {
        assert!(sweep.go_on(false));
        let outcome = match plan_step(it, &opts(true, false), SafetyLevel::Safe, None, false) {
            StepPlan::Fail(m) => {
                assert!(m.contains("unknown handler"));
                Err(m)
            }
            StepPlan::Succeed => Ok(()),
            _ => panic!("a dry run runs nothing"),
        };
        sweep.handled_item(it.path.clone(), outcome, None);
    }
    assert!(!sweep.go_on(false));
    match sweep.finish() {
        CleanupMessage::Complete(r) => {
            assert_eq!(r.failed.len(), 1, "the unknown handler fails its own item");
            assert_eq!(r.succeeded, vec!["/tmp/fine".to_string()], "the rest of the batch goes on");
        }
        _ => panic!("expected completion"),
    }
}

#[test]
fn path_steps_follow_safety_and_options() {
    let plain = path_item("/tmp/x");
    assert!(matches!(
        plan_step(&plain, &opts(false, false), SafetyLevel::Deny, Some("/tmp".to_string()), false),
        StepPlan::Fail(_)
    ));
    assert!(matches!(plan_step(&plain, &opts(true, false), SafetyLevel::Safe, None, true), StepPlan::Succeed));
    assert!(matches!(plan_step(&plain, &opts(false, false), SafetyLevel::Safe, None, true), StepPlan::Remove));
    let mut ignoring = path_item("/tmp/dir");
    ignoring.ignore_patterns = vec!["*.lock".to_string()];
    assert!(matches!(
        plan_step(&ignoring, &opts(false, false), SafetyLevel::Safe, None, true),
        StepPlan::RemoveFiltered
    ));
    assert!(matches!(plan_step(&ignoring, &opts(false, false), SafetyLevel::Safe, None, false), StepPlan::Remove));
}

#[test]
fn outcomes_are_recorded() {
    let mut result = CleanupResult { succeeded: Vec::new(), failed: Vec::new() };
    record_outcome(&mut result, "/a".to_string(), Ok(()));
    record_outcome(&mut result, "/b".to_string(), Err("denied".to_string()));
    assert_eq!(result.succeeded, vec!["/a".to_string()]);
    assert_eq!(result.failed, vec![("/b".to_string(), "denied".to_string())]);
}

#[test]
fn ignore_patterns_keep_matching_entries() {
    let patterns = vec!["*.lock".to_string(), "config.plist".to_string(), "[".to_string()];
    assert!(is_preserved("a.lock", &patterns));
    assert!(is_preserved("config.plist", &patterns));
    assert!(!is_preserved("data.dat", &patterns));
    assert!(!is_preserved("[", &patterns));
}

#[test]
fn sweep_reports_each_item_then_completes() {
    let mut sweep = Sweep::new(2);
    assert!(sweep.go_on(false));
    match sweep.handled_item("/a".to_string(), Ok(()), None) {
        CleanupMessage::Progress { done, total, path, label } => {
            assert_eq!((done, total, path.as_str(), label), (1, 2, "/a", None));
        }
        _ => panic!("expected progress"),
    }
    assert!(sweep.go_on(false));
    match sweep.handled_item("/b".to_string(), Err("denied".to_string()), Some("cmd".to_string())) {
        CleanupMessage::Progress { done, total, label, .. } => {
            assert_eq!((done, total, label.as_deref()), (2, 2, Some("cmd")));
        }
        _ => panic!("expected progress"),
    }
    assert!(!sweep.go_on(false));
    assert!(sweep.ended);
    match sweep.finish() {
        CleanupMessage::Complete(r) => {
            assert_eq!(r.succeeded, vec!["/a".to_string()]);
            assert_eq!(r.failed, vec![("/b".to_string(), "denied".to_string())]);
        }
        _ => panic!("expected completion"),
    }
}

#[test]
fn sweep_stops_at_cancel() {
    let mut sweep = Sweep::new(3);
    assert!(sweep.go_on(false));
    sweep.handled_item("/a".to_string(), Ok(()), None);
    assert!(!sweep.go_on(true));
    assert!(sweep.ended);
    assert_eq!(sweep.handled, 1);
    match sweep.finish() {
        CleanupMessage::Complete(r) => assert_eq!(r.succeeded.len(), 1),
        _ => panic!("expected completion"),
    }
}
