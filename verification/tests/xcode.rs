use freespace::handlers::{Handler, HandlerItem};
use freespace::xcode::{
    chosen_runtime_builds, parse_chosen_runtime, platform_label, runtime_label, short_date, Device, Runtime,
    SimulatorDevices, SimulatorRuntimes,
};

const DEVICES_JSON: &str = r#"{
  "devices" : {
    "com.apple.CoreSimulator.SimRuntime.iOS-26-2" : [
      {
        "lastBootedAt" : "2026-07-23T01:26:48Z",
        "dataPath" : "/Users/x/Library/Developer/CoreSimulator/Devices/AAA/data",
        "dataPathSize" : 3035803648,
        "udid" : "AAA",
        "isAvailable" : true,
        "state" : "Shutdown",
        "name" : "iPhone 17 Pro"
      }
    ],
    "com.apple.CoreSimulator.SimRuntime.iOS-16-4" : [
      {
        "dataPath" : "/Users/x/Library/Developer/CoreSimulator/Devices/BBB/data",
        "dataPathSize" : 500,
        "udid" : "BBB",
        "isAvailable" : false,
        "state" : "Shutdown",
        "name" : "iPhone 14"
      },
      {
        "dataPath" : "/Users/x/Library/Developer/CoreSimulator/Devices/CCC/data",
        "dataPathSize" : 900,
        "udid" : "CCC",
        "isAvailable" : false,
        "state" : "Booted",
        "name" : "iPhone 13"
      }
    ]
  }
}"#;

const RUNTIMES_JSON: &str = r#"{
  "R1" : {
    "build" : "23C54",
    "deletable" : true,
    "identifier" : "R1",
    "lastUsedAt" : "2026-07-23T01:26:48Z",
    "platformIdentifier" : "com.apple.platform.iphonesimulator",
    "runtimeBundlePath" : "/Library/Developer/CoreSimulator/Volumes/iOS_23C54/x.simruntime",
    "sizeBytes" : 8381044573,
    "version" : "26.2"
  },
  "R2" : {
    "build" : "21A00",
    "deletable" : false,
    "identifier" : "R2",
    "platformIdentifier" : "com.apple.platform.watchsimulator",
    "sizeBytes" : 100,
    "version" : "10.0"
  }
}"#;

fn text(v: &serde_json::Value, key: &str) -> Option<String> {
    v.get(key).and_then(|x| x.as_str()).map(|s| s.to_string())
}

fn devices(json: &str) -> Vec<(String, Vec<Device>)> {
    let v: serde_json::Value = serde_json::from_str(json).unwrap();
    let groups = v.get("devices").unwrap().as_object().unwrap();
    groups
        .iter()
        .map(|(runtime, list)| {
            let ds = list
                .as_array()
                .unwrap()
                .iter()
                .map(|d| Device {
                    udid: text(d, "udid").unwrap(),
                    name: text(d, "name").unwrap(),
                    is_available: d.get("isAvailable").and_then(|x| x.as_bool()).unwrap_or(false),
                    state: text(d, "state").unwrap_or_default(),
                    data_path: text(d, "dataPath"),
                    data_path_size: d.get("dataPathSize").and_then(|x| x.as_u64()),
                    last_booted_at: text(d, "lastBootedAt"),
                })
                .collect();
            (runtime.clone(), ds)
        })
        .collect()
}

fn runtimes(json: &str) -> Vec<Runtime> {
    let v: serde_json::Value = serde_json::from_str(json).unwrap();
    v.as_object()
        .unwrap()
        .values()
        .map(|r| Runtime {
            identifier: text(r, "identifier").unwrap(),
            version: text(r, "version").unwrap_or_default(),
            build: text(r, "build").unwrap_or_default(),
            deletable: r.get("deletable").and_then(|x| x.as_bool()).unwrap_or(false),
            size_bytes: r.get("sizeBytes").and_then(|x| x.as_u64()),
            last_used_at: text(r, "lastUsedAt"),
            runtime_bundle_path: text(r, "runtimeBundlePath"),
            platform_identifier: text(r, "platformIdentifier"),
        })
        .collect()
}

fn device_items() -> Vec<HandlerItem> {
    SimulatorDevices::build_items(&devices(DEVICES_JSON))
}

fn runtime_items(in_use: &[String]) -> Vec<HandlerItem> {
    SimulatorRuntimes::build_items(&runtimes(RUNTIMES_JSON), in_use)
}

#[test]
fn devices_only_offers_unavailable_shutdown_devices() {
    let items = device_items();
    let ids: Vec<_> = items.iter().map(|i| i.id.as_str()).collect();
    assert_eq!(ids, vec!["BBB"], "available and booted devices are excluded");
}

#[test]
fn devices_carry_size_and_device_directory() {
    let items = device_items();
    let item = &items[0];
    assert_eq!(item.size, Some(500));
    assert_eq!(item.name, "iPhone 14");
    // The device directory, not the `data` subdirectory.
    assert_eq!(
        item.display_path.as_deref().unwrap(),
        "/Users/x/Library/Developer/CoreSimulator/Devices/BBB"
    );
    assert!(item.detail.as_ref().unwrap().contains("iOS 16.4"));
    assert_eq!(item.detail.as_deref(), Some("iOS 16.4 · never booted"));
}

#[test]
fn devices_removal_command_is_itemised() {
    let cmd = SimulatorDevices.describe_removal("BBB");
    assert_eq!(cmd, "xcrun simctl delete BBB");
    assert!(!cmd.contains("all"));
    assert!(!cmd.contains("unavailable"));
}

#[test]
fn runtimes_skip_non_deletable() {
    let items = runtime_items(&[]);
    let ids: Vec<_> = items.iter().map(|i| i.id.as_str()).collect();
    assert_eq!(ids, vec!["R1"], "pinned runtimes are never offered");
}

#[test]
fn runtimes_report_size_and_label() {
    let items = runtime_items(&[]);
    assert_eq!(items[0].size, Some(8381044573));
    assert_eq!(items[0].name, "iOS 26.2 runtime");
    assert!(!items[0].in_use);
    assert_eq!(items[0].detail.as_deref(), Some("build 23C54 · last used 2026-07-23"));
}

#[test]
fn runtimes_flag_builds_still_chosen_by_an_sdk() {
    let items = runtime_items(&["23C54".to_string()]);
    assert!(items[0].in_use);
    assert!(items[0].detail.as_ref().unwrap().contains("still selected"));
}

#[test]
fn runtimes_removal_command_uses_supported_api() {
    assert_eq!(SimulatorRuntimes.describe_removal("R1"), "xcrun simctl runtime delete R1");
}

#[test]
fn runtime_labels_are_human_readable() {
    assert_eq!(runtime_label("com.apple.CoreSimulator.SimRuntime.iOS-26-2"), "iOS 26.2");
    assert_eq!(platform_label("com.apple.platform.watchsimulator"), "watchOS");
    assert_eq!(short_date("2026-07-23T01:26:48Z"), "2026-07-23");
}

#[test]
fn chosen_runtime_lines_yield_builds() {
    // Both shapes simctl emits: a matched runtime, and a bare SDK default.
    let matched = "    Chosen Runtime: iOS 26.2 (26.2 - 23C54) - com.apple.CoreSimulator.SimRuntime.iOS-26-2";
    let bare = "    Chosen Runtime: 23K50";
    assert_eq!(parse_chosen_runtime(matched).as_deref(), Some("23C54"));
    assert_eq!(parse_chosen_runtime(bare).as_deref(), Some("23K50"));
    assert_eq!(parse_chosen_runtime("    SDK Build: 23C53"), None);
}

#[test]
fn chosen_runtime_builds_from_output() {
    let out = "iphoneos26.2:\n    Chosen Runtime: iOS 26.2 (26.2 - 23C54) - x\n    SDK Build: 23C53\n    Chosen Runtime: 23K50\r\n";
    assert_eq!(chosen_runtime_builds(out), vec!["23C54".to_string(), "23K50".to_string()]);
}

#[test]
fn items_sort_by_size_then_name() {
    let d = |udid: &str, name: &str, size: Option<u64>| Device {
        udid: udid.to_string(),
        name: name.to_string(),
        is_available: false,
        state: String::new(),
        data_path: None,
        data_path_size: size,
        last_booted_at: Some("2025-01-02T03:04:05Z".to_string()),
    };
    let groups = vec![(
        "com.apple.CoreSimulator.SimRuntime.tvOS-18-0".to_string(),
        vec![d("1", "b", Some(5)), d("2", "z", None), d("3", "a", Some(5)), d("4", "c", Some(9))],
    )];
    let items = SimulatorDevices::build_items(&groups);
    let ids: Vec<_> = items.iter().map(|i| i.id.as_str()).collect();
    assert_eq!(ids, vec!["4", "3", "1", "2"]);
    assert_eq!(items[0].detail.as_deref(), Some("tvOS 18.0 · last booted 2025-01-02"));
    assert_eq!(items[0].display_path, None);
}

#[test]
fn platform_labels_fall_back_to_simulator() {
    assert_eq!(platform_label("com.apple.platform.iphonesimulator"), "iOS");
    assert_eq!(platform_label("com.apple.platform.appletvsimulator"), "tvOS");
    assert_eq!(platform_label("com.apple.platform.xrsimulator"), "visionOS");
    assert_eq!(platform_label("other"), "Simulator");
    assert_eq!(runtime_label("plain"), "plain");
}
