use freespace::handlers::{all_ids, get, identity_path, resolve_id, Handler, HandlerKind, IDENTITY_PREFIX};

#[test]
fn registered_ids_resolve() {
    for id in all_ids() {
        assert!(get(id).is_some(), "handler '{id}' should resolve");
        assert_eq!(resolve_id(id), Some(id));
    }
}

#[test]
fn unknown_id_does_not_resolve() {
    assert!(get("not.a.handler").is_none());
    assert!(resolve_id("not.a.handler").is_none());
}

#[test]
fn handler_ids_are_unique() {
    let ids = all_ids();
    for (i, a) in ids.iter().enumerate() {
        for b in ids.iter().skip(i + 1) {
            assert_ne!(a, b, "duplicate handler id '{a}'");
        }
    }
}

#[test]
fn identity_paths_are_relative_and_namespaced() {
    let path = identity_path("xcode.simulator-devices", "ABC-123");
    assert!(!path.starts_with('/'), "identity path must be relative: {}", path);
    assert!(path.starts_with(IDENTITY_PREFIX));
    assert!(path.ends_with("ABC-123"));
    assert_eq!(path, "freespace-handler/xcode.simulator-devices/ABC-123");
}

#[test]
fn identity_paths_are_distinct_per_item_and_handler() {
    assert_ne!(identity_path("a", "1"), identity_path("a", "2"));
    assert_ne!(identity_path("a", "1"), identity_path("b", "1"));
}

#[test]
fn kinds_describe_their_removal() {
    assert_eq!(HandlerKind::SimulatorRuntimes.id(), "xcode.simulator-runtimes");
    assert_eq!(
        HandlerKind::SimulatorRuntimes.describe_removal("R 1"),
        "xcrun simctl runtime delete \"R 1\""
    );
    assert_eq!(get("xcode.simulator-devices"), Some(HandlerKind::SimulatorDevices));
}
