//! The data that the interface keeps about modules, discovered items, the
//! install picker and a running cleanup.

use vstd::prelude::*;
use crate::manifest::{Module, RestoreKind, RiskLevel};
use crate::safety::SafetyLevel;
use crate::cleaner::CleanupAction;

verus! {

/// Severity of a message shown in the status bar.
#[derive(Debug, Clone, Copy, PartialEq, Eq, Structural)]
pub enum FlashLevel {
    Info,
    Warning,
    Error,
}

/// The view on screen.
#[derive(Debug, Clone, Copy, PartialEq, Eq, Structural)]
pub enum View {
    ModuleList,
    ModuleDetail(usize),
    CleanupConfirm,
    CleanupProgress,
    Help,
    Info(usize),
    FlatView,
    FileBrowser,
    ModuleInstall,
}

/// Result of checking a module for a newer version.
pub enum ModuleUpdateStatus {
    /// The check is running.
    Checking,
    /// Nothing newer exists.
    UpToDate,
    /// The remote has a newer commit.
    UpdateAvailable { new_commit: String },
    /// The remote has a newer version tag.
    NewerTagAvailable { current_tag: String, latest_tag: String },
    /// No check applies (a local module, or no recorded source).
    Skipped,
    /// The check failed.
    Failed(String),
}

/// A loaded module with the items found for it.
pub struct ModuleState {
    pub module: Module,
    pub items: Vec<Item>,
    pub total_size: Option<u64>,
    pub status: ModuleStatus,
    /// Where the module's manifest lies on disk.
    pub manifest_path: Option<String>,
    /// Outcome of the update check, when one ran.
    pub update_status: Option<ModuleUpdateStatus>,
}

/// The "update the other modules of this repository too?" prompt.
pub struct SiblingUpdatePrompt {
    /// The module the update was asked for.
    pub current_idx: usize,
    /// Modules of the same repository that have updates too.
    pub sibling_indices: Vec<usize>,
    /// The highlighted choice: all, this one only, or cancel.
    pub selected: usize,
}

/// How far loading and discovery of a module have come.
pub enum ModuleStatus {
    Loading,
    Discovering,
    Ready,
    Error(String),
}

/// Whether the scan is still running.
#[derive(Debug, Clone, Copy, PartialEq, Eq, Structural)]
pub enum ScanStatus {
    Scanning,
    Complete,
}

/// Whether a discovered item is a file or a directory.
#[derive(Debug, Clone, Copy, PartialEq, Eq, Structural)]
pub enum ItemType {
    File,
    Directory,
}

/// A filesystem item found for a module.
pub struct Item {
    pub name: String,
    pub path: String,
    pub size: Option<u64>,
    pub item_type: ItemType,
    pub target_description: Option<String>,
    pub safety_level: SafetyLevel,
    /// Whether another module claims the same path.
    pub is_shared: bool,
    /// How the contents come back after removal.
    pub restore_kind: RestoreKind,
    /// Steps to restore the contents, in words.
    pub restore_steps: Option<String>,
    /// What removing the contents may break.
    pub risk_level: RiskLevel,
    /// Glob patterns of entries to keep when the item is cleaned.
    pub ignore_patterns: Vec<String>,
    /// How the item is removed.
    pub action: CleanupAction,
    /// Where a handler item really lies; its own path is synthetic.
    pub display_path: Option<String>,
}

impl Item {
    /// Whether removing the item can be undone.
    pub fn reversible(&self) -> (r: bool)
        ensures
            r == (self.action is Path),
    {
        self.action.is_reversible()
    }
}

/// The steps of installing modules from a source.
#[derive(Debug, Clone, Copy, PartialEq, Eq, Structural)]
pub enum InstallPhase {
    /// The repository is being cloned.
    Cloning,
    /// The user picks modules.
    Picking,
    /// The picked modules are being installed or removed.
    Installing,
    /// Finished; the results are ready.
    Done,
}

/// A module found in a source repository.
pub struct InstallCandidate {
    /// The module's directory in the repository, used as install name.
    pub dir_name: String,
    /// The module's manifest.
    pub module: Module,
    /// Whether the module is ticked (to be installed or kept).
    pub checked: bool,
    /// Whether the module was installed before the picker opened.
    pub was_installed: bool,
}

/// State of the module install picker.
pub struct ModuleInstallState {
    /// The source as the user typed it.
    pub source_str: String,
    /// The modules found in the source.
    pub candidates: Vec<InstallCandidate>,
    /// The cursor's row.
    pub cursor: usize,
    /// The current step.
    pub phase: InstallPhase,
    /// Where the source was cloned or lies.
    pub source_dir: Option<String>,
    /// The commit of the cloned source (none for a local one).
    pub commit_sha: Option<String>,
    /// One message per module once installation ends.
    pub results: Vec<String>,
    /// Where modules are installed.
    pub modules_dir: String,
    /// Link a local source instead of copying it.
    pub link: bool,
}

/// What background install work reports back.
pub enum InstallMessage {
    /// The source was cloned and its modules found.
    CloneComplete {
        source_dir: String,
        commit_sha: Option<String>,
        candidates: Vec<(String, Module)>,
        already_installed: Vec<bool>,
    },
    /// Cloning or discovery failed.
    CloneFailed(String),
    /// Installation finished, one message per module.
    InstallComplete(Vec<String>),
    /// Installation failed.
    InstallFailed(String),
}

/// Progress of a running cleanup.
pub struct CleanupProgressState {
    /// How many items there are.
    pub total: usize,
    /// How many are done.
    pub done: usize,
    /// The item handled last.
    pub current_path: Option<String>,
    /// Whether items are deleted for good rather than trashed.
    pub permanent: bool,
    /// Whether the user asked to stop.
    pub halted: bool,
}

} // verus!
