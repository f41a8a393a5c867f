//! Cleanup of selected items: how each item is removed, in which order the
//! items go, what is decided for each one before anything is touched, and
//! which entries of a directory are kept when it is cleaned with ignore
//! patterns. Trashing, unlinking and running commands are left to the
//! caller, which performs the step decided here and reports its outcome.

use vstd::prelude::*;
use crate::exec::shown_argv;
use crate::handlers::{get, kind_removal_argv, spec_get, Handler, HandlerKind};
use crate::safety::{block_reason, spec_block_reason, SafetyLevel};
use crate::text::{push_str, chars_of};

verus! {

/// How an item is removed.
#[derive(Debug, Clone, PartialEq, Eq)]
pub enum CleanupAction {
    /// Trash or unlink the item's path, after the path safety checks.
    Path,
    /// Let a built-in handler remove it through its tool's own interface.
    Handler {
        handler: &'static str,
        /// The identifier the handler produced when it found the item.
        id: String,
    },
}

/// The command shown for an action: none for a path; for a handler, its
/// removal command when the handler exists.
pub open spec fn spec_removal_command(a: CleanupAction) -> Option<Seq<char>> {
    match a {
        CleanupAction::Path => None,
        CleanupAction::Handler { handler, id } => match spec_get(handler@) {
            Some(k) => Some(shown_argv(kind_removal_argv(k, id@))),
            None => None,
        },
    }
}

impl CleanupAction {
    /// Whether the removal can be undone: only trashing a path can; handler
    /// commands have no trash.
    pub fn is_reversible(&self) -> (r: bool)
        ensures
            r == (*self is Path),
    {
        match self {
            CleanupAction::Path => true,
            CleanupAction::Handler { .. } => false,
        }
    }

    /// The exact command a handler action runs, shown before the user
    /// confirms; `None` for a path action.
    pub fn removal_command(&self) -> (r: Option<String>)
        ensures
            match (spec_removal_command(*self), r) {
                (Some(a), Some(b)) => b@ == a,
                (None, None) => true,
                _ => false,
            },
    {
        match self {
            CleanupAction::Path => None,
            CleanupAction::Handler { handler, id } => match get(handler) {
                Some(k) => Some(k.describe_removal(id.as_str())),
                None => None,
            },
        }
    }
}

impl Default for CleanupAction {
    fn default() -> (r: Self)
        ensures
            r is Path,
    {
        CleanupAction::Path
    }
}

/// Options of a cleanup run.
pub struct CleanupOptions {
    pub dry_run: bool,
    pub protected_paths: Vec<String>,
    pub audit_log: bool,
    /// Whether paths must lie under the home directory.
    pub enforce_scope: bool,
    /// Whether warn-level paths may go (the user confirmed).
    pub allow_warned: bool,
}

impl Default for CleanupOptions {
    fn default() -> (r: Self)
        ensures
            !r.dry_run,
            r.protected_paths@.len() == 0,
            r.audit_log,
            r.enforce_scope,
            !r.allow_warned,
    {
        CleanupOptions {
            dry_run: false,
            protected_paths: Vec::new(),
            audit_log: true,
            enforce_scope: true,
            allow_warned: false,
        }
    }
}

/// An item to remove.
pub struct CleanupItem {
    /// The item's path; for a handler item a synthetic identity that is
    /// never touched on disk.
    pub path: String,
    /// Glob patterns of entries to keep inside the path.
    pub ignore_patterns: Vec<String>,
    /// The module the item belongs to (for the audit log).
    pub module_id: String,
    /// The item's size, when known (for the audit log).
    pub size: Option<u64>,
    /// How it is removed.
    pub action: CleanupAction,
}

impl CleanupItem {
    /// A plain path item: no ignore patterns, no module, no size, removed
    /// as a path.
    pub fn from_path(path: String) -> (r: CleanupItem)
        ensures
            r.path == path,
            r.ignore_patterns@.len() == 0,
            r.module_id@.len() == 0,
            r.size is None,
            r.action is Path,
    {
        CleanupItem {
            path,
            ignore_patterns: Vec::new(),
            module_id: String::new(),
            size: None,
            action: CleanupAction::Path,
        }
    }
}

/// Result of a cleanup run.
pub struct CleanupResult {
    pub succeeded: Vec<String>,
    pub failed: Vec<(String, String)>,
}

/// What a running cleanup reports.
pub enum CleanupMessage {
    /// One more item was handled, well or not.
    Progress {
        done: usize,
        total: usize,
        path: String,
        /// What to show for the step; the path when `None`. Handler steps
        /// show the command they ran.
        label: Option<String>,
    },
    /// The run ended or was cancelled.
    Complete(CleanupResult),
}

// ---------------------------------------------------------------------------
// Order
// ---------------------------------------------------------------------------

/// The reversible items of `s`, in order.
pub open spec fn reversible_part(s: Seq<CleanupItem>) -> Seq<CleanupItem>
    decreases s.len(),
{
    if s.len() == 0 {
        Seq::empty()
    } else {
        reversible_part(s.drop_last()) + if s.last().action is Path {
            seq![s.last()]
        } else {
            Seq::empty()
        }
    }
}

/// The irreversible items of `s`, in order.
pub open spec fn irreversible_part(s: Seq<CleanupItem>) -> Seq<CleanupItem>
    decreases s.len(),
{
    if s.len() == 0 {
        Seq::empty()
    } else {
        irreversible_part(s.drop_last()) + if s.last().action is Path {
            Seq::empty()
        } else {
            seq![s.last()]
        }
    }
}

proof fn lemma_parts_kinds(s: Seq<CleanupItem>)
    ensures
        forall|i: int| 0 <= i < reversible_part(s).len() ==> (#[trigger] reversible_part(s)[i]).action is Path,
        forall|i: int| 0 <= i < irreversible_part(s).len() ==> !((#[trigger] irreversible_part(s)[i]).action is Path),
        reversible_part(s).len() + irreversible_part(s).len() == s.len(),
    decreases s.len(),
{
    if s.len() > 0 {
        lemma_parts_kinds(s.drop_last());
    }
}

/// The items in the order they are removed: every reversible (path)
/// removal before any irreversible (handler) one, each group in the
/// order given, so that a run cancelled halfway leaves the permanent
/// operations undone.
pub fn reversible_first<'a>(items: &'a [CleanupItem]) -> (r: Vec<&'a CleanupItem>)
    ensures
        r@.len() == items@.len(),
        forall|i: int| 0 <= i < reversible_part(items@).len() ==> *(#[trigger] r@[i]) == reversible_part(items@)[i],
        forall|i: int| 0 <= i < irreversible_part(items@).len()
            ==> *(#[trigger] r@[reversible_part(items@).len() + i]) == irreversible_part(items@)[i],
        forall|i: int, j: int| 0 <= i < j < r@.len() && !((*#[trigger] r@[i]).action is Path) ==> !((*#[trigger] r@[j]).action is Path),
{
    let mut first: Vec<&'a CleanupItem> = Vec::new();
    let mut second: Vec<&'a CleanupItem> = Vec::new();
    let mut i: usize = 0;
    while i < items.len()
        invariant
            i <= items@.len(),
            first@.len() == reversible_part(items@.take(i as int)).len(),
            second@.len() == irreversible_part(items@.take(i as int)).len(),
            forall|k: int| 0 <= k < first@.len() ==> *(#[trigger] first@[k]) == reversible_part(items@.take(i as int))[k],
            forall|k: int| 0 <= k < second@.len() ==> *(#[trigger] second@[k]) == irreversible_part(items@.take(i as int))[k],
        decreases items@.len() - i,
    {
        let ghost t = items@.take(i + 1);
        proof {
            assert(t.drop_last() =~= items@.take(i as int));
            assert(t.last() == items@[i as int]);
        }
        let it: &'a CleanupItem = &items[i];
        if it.action.is_reversible() {
            first.push(it);
        } else {
            second.push(it);
        }
        i = i + 1;
    }
    proof {
        assert(items@.take(items@.len() as int) =~= items@);
        lemma_parts_kinds(items@);
    }
    let n1 = first.len();
    let mut j: usize = 0;
    while j < second.len()
        invariant
            n1 == reversible_part(items@).len(),
            n1 <= first@.len(),
            j <= second@.len(),
            first@.len() == n1 + j,
            second@.len() == irreversible_part(items@).len(),
            forall|k: int| 0 <= k < n1 ==> *(#[trigger] first@[k]) == reversible_part(items@)[k],
            forall|k: int| 0 <= k < j ==> *(#[trigger] first@[n1 + k]) == irreversible_part(items@)[k],
            forall|k: int| 0 <= k < second@.len() ==> *(#[trigger] second@[k]) == irreversible_part(items@)[k],
        decreases second@.len() - j,
    {
        first.push(second[j]);
        j = j + 1;
    }
    proof {
        lemma_parts_kinds(items@);
        let r = first@;
        assert forall|a: int, b: int| 0 <= a < b < r.len() && !((*#[trigger] r[a]).action is Path) implies !((*#[trigger] r[b]).action is Path) by {
            if a < n1 {
                assert(*r[a] == reversible_part(items@)[a]);
            } else {
                let k = b - n1;
                assert(*first@[n1 + k] == irreversible_part(items@)[k]);
            }
        }
    }
    first
}

// ---------------------------------------------------------------------------
// One step
// ---------------------------------------------------------------------------

/// What to do for one item.
pub enum StepPlan {
    /// Count the item as failed, for this reason.
    Fail(String),
    /// Count the item as done without touching anything (a dry run).
    Succeed,
    /// Run the handler's removal of the item.
    RunHandler { handler: HandlerKind, id: String },
    /// Remove the directory's entries but those its ignore patterns keep.
    RemoveFiltered,
    /// Remove the path.
    Remove,
}

/// What is decided for an item. A handler action is never held to the path
/// checks (its path is synthetic): an unknown handler fails the item, a dry
/// run counts it done, else the handler runs. A path is blocked by the
/// safety level of the path (deny always, warn unless allowed); otherwise a
/// dry run counts it done, a directory with ignore patterns is cleaned
/// entry by entry, and anything else is removed whole.
pub open spec fn spec_plan(
    action: CleanupAction,
    has_ignore: bool,
    dry_run: bool,
    allow_warned: bool,
    level: SafetyLevel,
    reason: Option<Seq<char>>,
    is_dir: bool,
) -> StepPlanView {
    match action {
        CleanupAction::Handler { handler, id } => match spec_get(handler@) {
            None => StepPlanView::Fail("unknown handler '"@ + handler@ + "'"@),
            Some(k) => if dry_run {
                StepPlanView::Succeed
            } else {
                StepPlanView::RunHandler { handler: k, id: id@ }
            },
        },
        CleanupAction::Path => match spec_block_reason(level, reason, allow_warned) {
            Some(m) => StepPlanView::Fail(m),
            None => if dry_run {
                StepPlanView::Succeed
            } else if has_ignore && is_dir {
                StepPlanView::RemoveFiltered
            } else {
                StepPlanView::Remove
            },
        },
    }
}

/// A step plan as plain values.
pub enum StepPlanView {
    Fail(Seq<char>),
    Succeed,
    RunHandler { handler: HandlerKind, id: Seq<char> },
    RemoveFiltered,
    Remove,
}

impl View for StepPlan {
    type V = StepPlanView;

    open spec fn view(&self) -> StepPlanView {
        match self {
            StepPlan::Fail(m) => StepPlanView::Fail(m@),
            StepPlan::Succeed => StepPlanView::Succeed,
            StepPlan::RunHandler { handler, id } => StepPlanView::RunHandler { handler: *handler, id: id@ },
            StepPlan::RemoveFiltered => StepPlanView::RemoveFiltered,
            StepPlan::Remove => StepPlanView::Remove,
        }
    }
}

/// A path is never touched against its safety level: its step fails
/// exactly when the path is denied, or warned about while warned paths are
/// not allowed, and the failure says it was blocked by a safety rule and
/// why. Otherwise a dry run only counts it done, and a real run removes it,
/// entry by entry when it is a directory with ignore patterns.
pub proof fn lemma_path_plan_honours_safety(
    has_ignore: bool,
    dry_run: bool,
    allow_warned: bool,
    level: SafetyLevel,
    reason: Option<Seq<char>>,
    is_dir: bool,
)
    ensures
        ({
            let p = spec_plan(CleanupAction::Path, has_ignore, dry_run, allow_warned, level, reason, is_dir);
            let why = match reason { Some(x) => x, None => Seq::empty() };
            &&& (p is Fail) <==> (level == SafetyLevel::Deny || (level == SafetyLevel::Warn && !allow_warned))
            &&& (p is Fail) ==> p == StepPlanView::Fail("blocked by safety rule: "@ + why)
            &&& !(p is Fail) && dry_run ==> p is Succeed
            &&& !(p is Fail) && !dry_run ==> (p is RemoveFiltered <==> (has_ignore && is_dir))
                && (p is Remove <==> !(has_ignore && is_dir))
        }),
{
}

/// A handler item never takes the path route: whatever its path's safety
/// level, it is never removed as a path; an unknown handler fails it, a dry
/// run counts it done, and otherwise the named handler runs on its id.
pub proof fn lemma_handler_plan(
    handler: &'static str,
    id: String,
    has_ignore: bool,
    dry_run: bool,
    allow_warned: bool,
    level: SafetyLevel,
    reason: Option<Seq<char>>,
    is_dir: bool,
)
    ensures
        ({
            let p = spec_plan(CleanupAction::Handler { handler, id }, has_ignore, dry_run, allow_warned, level, reason, is_dir);
            &&& !(p is Remove) && !(p is RemoveFiltered)
            &&& (p is Fail) <==> spec_get(handler@) is None
            &&& spec_get(handler@) is Some && dry_run ==> p is Succeed
            &&& !dry_run ==> match spec_get(handler@) {
                Some(k) => p == (StepPlanView::RunHandler { handler: k, id: id@ }),
                None => true,
            }
        }),
{
}

/// Decides the step for `item`, given the safety level (and its reason) of
/// its path and whether the path is a directory; the last three matter
/// only for path actions.
pub fn plan_step(item: &CleanupItem, opts: &CleanupOptions, level: SafetyLevel, reason: Option<String>, is_dir: bool) -> (r: StepPlan)
    ensures
        r@ == spec_plan(
            item.action,
            item.ignore_patterns@.len() > 0,
            opts.dry_run,
            opts.allow_warned,
            level,
            match reason { Some(x) => Some(x@), None => None },
            is_dir,
        ),
        item.action is Path ==> ((r is Fail) <==> (level == SafetyLevel::Deny
            || (level == SafetyLevel::Warn && !opts.allow_warned))),
{
    proof {
        lemma_path_plan_honours_safety(
            item.ignore_patterns@.len() > 0,
            opts.dry_run,
            opts.allow_warned,
            level,
            crate::handlers::opt_view(reason),
            is_dir,
        );
    }
    match &item.action {
        CleanupAction::Handler { handler, id } => match get(handler) {
            None => {
                let mut m = String::new();
                push_str(&mut m, "unknown handler '");
                push_str(&mut m, handler);
                push_str(&mut m, "'");
                StepPlan::Fail(m)
            },
            Some(k) => if opts.dry_run {
                StepPlan::Succeed
            } else {
                StepPlan::RunHandler { handler: k, id: id.clone() }
            },
        },
        CleanupAction::Path => match block_reason(level, reason, opts.allow_warned) {
            Some(m) => StepPlan::Fail(m),
            None => if opts.dry_run {
                StepPlan::Succeed
            } else if item.ignore_patterns.len() > 0 && is_dir {
                StepPlan::RemoveFiltered
            } else {
                StepPlan::Remove
            },
        },
    }
}

/// Records the outcome of an item's step.
pub fn record_outcome(result: &mut CleanupResult, path: String, outcome: Result<(), String>)
    ensures
        match outcome {
            Ok(()) => final(result).succeeded@ == old(result).succeeded@.push(path)
                && final(result).failed@ == old(result).failed@,
            Err(e) => final(result).failed@ == old(result).failed@.push((path, e))
                && final(result).succeeded@ == old(result).succeeded@,
        },
{
    match outcome {
        Ok(()) => result.succeeded.push(path),
        Err(e) => result.failed.push((path, e)),
    }
}

// ---------------------------------------------------------------------------
// The run
// ---------------------------------------------------------------------------

/// A cleanup run in progress over `total` items taken in order: how many
/// are handled, what came of them, and whether the run has ended.
pub struct Sweep {
    pub total: usize,
    pub handled: usize,
    pub result: CleanupResult,
    pub ended: bool,
}

impl Sweep {
    /// Every handled item is recorded once, as a success or a failure.
    pub open spec fn counts_match(&self) -> bool {
        self.result.succeeded@.len() + self.result.failed@.len() == self.handled
    }

    /// A run over `total` items, none handled.
    pub fn new(total: usize) -> (r: Sweep)
        ensures
            r.total == total,
            r.handled == 0,
            r.result.succeeded@.len() == 0 && r.result.failed@.len() == 0,
            !r.ended,
            r.counts_match(),
    {
        Sweep { total, handled: 0, result: CleanupResult { succeeded: Vec::new(), failed: Vec::new() }, ended: false }
    }

    /// Before the next item: the run goes on unless it was cancelled or
    /// every item is handled; once it stops, it has ended.
    pub fn go_on(&mut self, cancelled: bool) -> (r: bool)
        requires
            !old(self).ended,
            old(self).handled <= old(self).total,
        ensures
            r == (!cancelled && old(self).handled < old(self).total),
            !r && !cancelled ==> final(self).handled == final(self).total,
            final(self).ended == !r,
            final(self).total == old(self).total,
            final(self).handled == old(self).handled,
            final(self).result == old(self).result,
    {
        if cancelled || self.handled >= self.total {
            self.ended = true;
            false
        } else {
            true
        }
    }

    /// The next item, at `path`, was handled with `outcome`: it is recorded,
    /// and the progress message for it counts it among the handled.
    pub fn handled_item(&mut self, path: String, outcome: Result<(), String>, label: Option<String>) -> (r: CleanupMessage)
        requires
            !old(self).ended,
            old(self).handled < old(self).total,
        ensures
            !final(self).ended,
            final(self).total == old(self).total,
            final(self).handled == old(self).handled + 1,
            old(self).counts_match() ==> final(self).counts_match(),
            match outcome {
                Ok(()) => final(self).result.succeeded@ == old(self).result.succeeded@.push(path)
                    && final(self).result.failed@ == old(self).result.failed@,
                Err(e) => final(self).result.failed@ == old(self).result.failed@.push((path, e))
                    && final(self).result.succeeded@ == old(self).result.succeeded@,
            },
            r matches CleanupMessage::Progress { done, total, path: p, label: l }
                && done == final(self).handled && total == old(self).total && p@ == path@ && l == label,
    {
        let shown = path.clone();
        record_outcome(&mut self.result, path, outcome);
        self.handled = self.handled + 1;
        CleanupMessage::Progress { done: self.handled, total: self.total, path: shown, label }
    }

    /// The message that closes an ended run: its result.
    pub fn finish(self) -> (r: CleanupMessage)
        requires
            self.ended,
        ensures
            r matches CleanupMessage::Complete(res) && res.succeeded@ == self.result.succeeded@
                && res.failed@ == self.result.failed@,
            self.counts_match() ==> (r matches CleanupMessage::Complete(res)
                && res.succeeded@.len() + res.failed@.len() == self.handled),
    {
        CleanupMessage::Complete(self.result)
    }
}

// ---------------------------------------------------------------------------
// Entries kept by ignore patterns
// ---------------------------------------------------------------------------

/// Whether glob pattern `pattern` is valid and matches `name` whole, as the
/// glob crate decides.
pub uninterp spec fn glob_match(pattern: Seq<char>, name: Seq<char>) -> bool;

/// `glob::Pattern::new(pattern)` and, when it compiles, `Pattern::matches`
/// on `name`: true when the pattern is valid and matches. The answer is
/// named, not described.
#[verifier::external_body]
fn glob_matches(pattern: &str, name: &str) -> (r: bool)
    ensures
        r == glob_match(pattern@, name@),
{
    match glob::Pattern::new(pattern) {
        Ok(p) => p.matches(name),
        Err(_) => false,
    }
}

/// Whether an entry named `name` is kept: some valid pattern matches it.
pub open spec fn preserved(name: Seq<char>, patterns: Seq<String>) -> bool {
    exists|i: int| 0 <= i < patterns.len() && glob_match(#[trigger] patterns[i]@, name)
}

/// Whether a directory entry is kept when its directory is cleaned with
/// `patterns`: some pattern (invalid ones are skipped) matches its name.
pub fn is_preserved(name: &str, patterns: &[String]) -> (r: bool)
    ensures
        r == preserved(name@, patterns@),
{
    let mut i: usize = 0;
    while i < patterns.len()
        invariant
            i <= patterns@.len(),
            forall|k: int| 0 <= k < i ==> !glob_match(#[trigger] patterns@[k]@, name@),
        decreases patterns@.len() - i,
    {
        if glob_matches(patterns[i].as_str(), name) {
            return true;
        }
        i = i + 1;
    }
    false
}

} // verus!
