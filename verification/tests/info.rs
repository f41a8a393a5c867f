use freespace::info::{info_rows, wrap_value, InfoRow, RowStyle};
use freespace::manifest::{Module, RestoreKind, RiskLevel, Target};
use freespace::source::SourceInfo;
use freespace::types::{ModuleState, ModuleStatus, ModuleUpdateStatus};

fn target(paths: &[&str], desc: Option<&str>, restore: RestoreKind, risk: RiskLevel, steps: Option<&str>) -> Target {
    Target {
        paths: paths.iter().map(|p| p.to_string()).collect(),
        description: desc.map(|d| d.to_string()),
        restore,
        restore_steps: steps.map(|s| s.to_string()),
        risk,
        ignore: vec![],
    }
}

fn state(targets: Vec<Target>, manifest: Option<&str>, update: Option<ModuleUpdateStatus>) -> ModuleState {
    ModuleState {
        module: Module {
            id: "docker".to_string(),
            name: "Docker".to_string(),
            version: "1.2.0".to_string(),
            description: "Images and volumes".to_string(),
            author: "someone".to_string(),
            platforms: vec!["macos".to_string(), "linux".to_string()],
            tags: vec![],
            icon: None,
            icon_color: None,
            targets,
        },
        items: vec![],
        total_size: None,
        status: ModuleStatus::Ready,
        manifest_path: manifest.map(|m| m.to_string()),
        update_status: update,
    }
}

fn pairs(rows: &[InfoRow]) -> Vec<(RowStyle, String, String)> {
    rows.iter().map(|r| (r.style, r.label.clone(), r.value.clone())).collect()
}

fn row(style: RowStyle, label: &str, value: &str) -> (RowStyle, String, String) {
    (style, label.to_string(), value.to_string())
}

#[test]
fn plain_module_rows() {
    let ms = state(vec![target(&["~/a"], None, RestoreKind::Auto, RiskLevel::Safe, None)], None, None);
    let rows = info_rows(&ms, 0, "0 B", &None, 0, false);
    assert_eq!(
        pairs(&rows),
        vec![
            row(RowStyle::Normal, "Name", "Docker"),
            row(RowStyle::Normal, "Id", "docker"),
            row(RowStyle::Normal, "Version", "1.2.0"),
            row(RowStyle::Normal, "Author", "someone"),
            row(RowStyle::Wrapped, "Description", "Images and volumes"),
            row(RowStyle::Normal, "Platforms", "macos, linux"),
            row(RowStyle::Normal, "Targets", "1"),
            row(RowStyle::Normal, "", ""),
            row(RowStyle::Action, "[e]dit", "[o]pen  [r]emove"),
        ]
    );
}

#[test]
fn installed_module_rows() {
    let targets = vec![
        target(&["~/a"], None, RestoreKind::Auto, RiskLevel::Safe, None),
        target(&["~/b"], Some("Volumes"), RestoreKind::Manual, RiskLevel::High, Some("docker volume create")),
        target(&["~/c"], None, RestoreKind::Auto, RiskLevel::Low, None),
    ];
    let ms = state(
        targets,
        Some("/m/docker/module.toml"),
        Some(ModuleUpdateStatus::UpdateAvailable { new_commit: "abcdef123456".to_string() }),
    );
    let source = Some(SourceInfo {
        repository: "github:o/r".to_string(),
        git_ref: Some("v1".to_string()),
        commit: "0123456789abcdef".to_string(),
        path: None,
        installed_at: 1_000,
    });
    let rows = info_rows(&ms, 2_000_000, "2 MB", &source, 1_000 + 7_200, false);
    let got = pairs(&rows);
    assert_eq!(got[7], row(RowStyle::Normal, "Cleaned", "2 MB"));
    assert_eq!(got[8], row(RowStyle::Normal, "", ""));
    assert_eq!(got[9], row(RowStyle::Warning, "Volumes", "manual restore, high risk"));
    assert_eq!(got[10], row(RowStyle::Note, "", "\u{21b3} docker volume create"));
    assert_eq!(got[11], row(RowStyle::Normal, "~/c", "low risk"));
    assert_eq!(got[12], row(RowStyle::Normal, "", ""));
    assert_eq!(got[13], row(RowStyle::Wrapped, "Repository", "github:o/r"));
    assert_eq!(got[14], row(RowStyle::Normal, "Ref", "v1"));
    assert_eq!(got[15], row(RowStyle::Normal, "Commit", "01234567"));
    assert_eq!(got[16].1, "Installed");
    assert_eq!(got[17], row(RowStyle::Warning, "Update", "available (abcdef1), press [u] to update"));
    assert_eq!(got[18], row(RowStyle::Normal, "", ""));
    assert_eq!(got[19], row(RowStyle::NoteWrapped, "Path", "/m/docker/module.toml"));
    assert_eq!(got[20], row(RowStyle::Normal, "", ""));
    assert_eq!(got[21], row(RowStyle::Action, "[e]dit", "[o]pen  [u]pdate  [r]emove"));
    assert_eq!(got.len(), 22);
}

#[test]
fn removal_question_replaces_actions() {
    let ms = state(vec![], None, Some(ModuleUpdateStatus::UpToDate));
    let rows = info_rows(&ms, 0, "", &None, 0, true);
    let got = pairs(&rows);
    assert_eq!(got.last().unwrap(), &row(RowStyle::Warning, "Remove module?", "[y]es  [n]o"));
    assert_eq!(got[6], row(RowStyle::Normal, "Targets", "0"));
}

#[test]
fn wrap_value_cuts_long_values() {
    assert_eq!(wrap_value("abcdefgh", 3), vec!["abc", "def", "gh"]);
    assert_eq!(wrap_value("abcdef", 3), vec!["abc", "def"]);
    assert_eq!(wrap_value("abc", 3), vec!["abc"]);
    assert_eq!(wrap_value("abcdef", 0), vec!["abcdef"]);
    assert_eq!(wrap_value("", 4), vec![""]);
}

#[test]
fn wrap_value_measures_bytes_and_cuts_characters() {
    // Four characters, eight bytes: longer than five bytes, cut by characters.
    assert_eq!(wrap_value("éééé", 5), vec!["éééé"]);
    assert_eq!(wrap_value("ééé", 2), vec!["éé", "é"]);
}
