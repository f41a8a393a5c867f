//! The interface's state and what each key press does to it. Keys arrive
//! already decoded from the terminal; what a key asks of the outside world
//! (open a directory, start or halt a cleanup, open the file manager or an
//! editor, remove or update a module) comes back as an effect for the
//! caller to carry out.

use vstd::prelude::*;
use crate::drill::{DrillLevel, DrillState};
use crate::path::path_eq;
use crate::path::{parent_of, parent_path, path_starts_with};
use crate::ranking::{
    all_sizes_fit, display_order_item_indices, sorted_flat_items, sorted_item_indices, sorted_module_indices,
    spec_display_order, spec_flat_order, spec_item_order, spec_module_order,
};
use crate::assoc::assoc;
use crate::confirm::{collect_selected_items, matching_rows, rows, spec_confirm_rows, visible_confirm_items};
use crate::types::ItemType;
use crate::types::Item;
use crate::safety::SafetyLevel;
use crate::selection::PathSet;
use crate::types;
use crate::types::{CleanupProgressState, ModuleState, SiblingUpdatePrompt};

verus! {

/// A key, as the interface reads it.
#[derive(Debug, Clone, Copy, PartialEq, Eq, Structural)]
pub enum Key {
    Char(char),
    Enter,
    Esc,
    Backspace,
    Tab,
    Up,
    Down,
    Left,
    Right,
    PageUp,
    PageDown,
    Home,
    End,
    Other,
}

/// Emacs-style control keys as the arrows they stand for: Ctrl+N down,
/// Ctrl+P up, Ctrl+F right, Ctrl+B left; every other key as it is.
pub open spec fn spec_normalize(code: Key, ctrl: bool) -> Key {
    if ctrl {
        match code {
            Key::Char('n') => Key::Down,
            Key::Char('p') => Key::Up,
            Key::Char('f') => Key::Right,
            Key::Char('b') => Key::Left,
            _ => code,
        }
    } else {
        code
    }
}

/// Turns an Emacs-style control key into the arrow it stands for.
pub fn normalize_emacs_key(code: Key, ctrl: bool) -> (r: Key)
    ensures
        r == spec_normalize(code, ctrl),
{
    if ctrl {
        match code {
            Key::Char('n') => Key::Down,
            Key::Char('p') => Key::Up,
            Key::Char('f') => Key::Right,
            Key::Char('b') => Key::Left,
            _ => code,
        }
    } else {
        code
    }
}

/// Whether a key moves the cursor in a list.
pub fn is_nav(k: Key) -> (r: bool)
    ensures
        r == is_nav_key(k),
{
    match k {
        Key::Char('j') | Key::Down | Key::Char('k') | Key::Up | Key::PageDown | Key::PageUp | Key::Home
        | Key::Char('g') | Key::End | Key::Char('G') => true,
        _ => false,
    }
}

/// How far Page Up and Page Down move.
pub const PAGE_SIZE: usize = 20;

/// Whether a key moves the cursor in a list.
pub open spec fn is_nav_key(k: Key) -> bool {
    match k {
        Key::Char('j') | Key::Down | Key::Char('k') | Key::Up | Key::PageDown | Key::PageUp | Key::Home
        | Key::Char('g') | Key::End | Key::Char('G') => true,
        _ => false,
    }
}

/// Where a navigation key moves the cursor in a list of `count` rows:
/// down and up wrap around, a page moves twenty rows without wrapping,
/// home and end go to the first and last row; an empty list keeps the
/// cursor (home still goes to zero).
pub open spec fn nav_target(k: Key, idx: usize, count: usize) -> usize {
    match k {
        Key::Char('j') | Key::Down => if count > 0 { ((idx + 1) % (count as int)) as usize } else { idx },
        Key::Char('k') | Key::Up => if count > 0 {
            if idx == 0 { (count - 1) as usize } else { (idx - 1) as usize }
        } else {
            idx
        },
        Key::PageDown => if count > 0 {
            if idx + 20 < count - 1 { (idx + 20) as usize } else { (count - 1) as usize }
        } else {
            idx
        },
        Key::PageUp => if count > 0 {
            if idx >= 20 { (idx - 20) as usize } else { 0 }
        } else {
            idx
        },
        Key::Home | Key::Char('g') => 0,
        Key::End | Key::Char('G') => if count > 0 { (count - 1) as usize } else { idx },
        _ => idx,
    }
}

/// The cursor after a navigation key.
pub fn nav(k: Key, idx: usize, count: usize) -> (r: usize)
    ensures
        r == nav_target(k, idx, count),
{
    match k {
        Key::Char('j') | Key::Down => if count > 0 {
            let m = idx % count;
            proof {
                assert(m < count);
                assert(((idx + 1) % (count as int)) == ((m + 1) % (count as int))) by (nonlinear_arith)
                    requires
                        count > 0,
                        m == idx % count,
                ;
                if m + 1 < count {
                    assert((m + 1) % (count as int) == m + 1) by (nonlinear_arith)
                        requires
                            m + 1 < count,
                            0 <= m,
                    ;
                } else {
                    assert((m + 1) % (count as int) == 0) by (nonlinear_arith)
                        requires
                            m + 1 == count,
                            count > 0,
                    ;
                }
            }
            if m + 1 == count { 0 } else { m + 1 }
        } else {
            idx
        },
        Key::Char('k') | Key::Up => if count > 0 {
            if idx == 0 { count - 1 } else { idx - 1 }
        } else {
            idx
        },
        Key::PageDown => if count > 0 {
            if idx < count - 1 && count - 1 - idx > 20 { idx + 20 } else { count - 1 }
        } else {
            idx
        },
        Key::PageUp => if count > 0 {
            if idx >= 20 { idx - 20 } else { 0 }
        } else {
            idx
        },
        Key::Home | Key::Char('g') => 0,
        Key::End | Key::Char('G') => if count > 0 { count - 1 } else { idx },
        _ => idx,
    }
}

/// What the caller must do after a key.
pub enum Effect {
    /// Nothing.
    Nothing,
    /// List the directory `path` and open it with `Session::open_directory`.
    OpenDirectory { path: String, parent_selected_index: usize },
    /// Show `path` (or, for a file, its directory) in the file manager.
    OpenInFileManager(String),
    /// Start removing the checked items; `Session::begin_cleanup` gives them.
    StartCleanup { permanent: bool },
    /// Tell the running cleanup to stop.
    HaltCleanup,
    /// The finished cleanup's channels can go.
    CleanupFinished,
    /// Open the manifest at `path` in the editor.
    EditManifest(String),
    /// Delete the directory of the module that was removed (its manifest's
    /// directory, when it has one).
    RemoveModuleFiles(Option<String>),
    /// Look for modules of the same repository with updates, and prompt
    /// with `Session::ask_update` (module position given).
    CheckSiblings(usize),
    /// Update these modules.
    UpdateModules(Vec<usize>),
}

/// The interface's state.
pub struct Session {
    pub modules: Vec<ModuleState>,
    pub current_view: types::View,
    /// Where leaving an overlay goes back to.
    pub previous_view: types::View,
    pub selected_index: usize,
    /// Paths selected for cleanup.
    pub selected_items: PathSet,
    /// Paths checked in the confirmation list.
    pub confirm_checked: PathSet,
    pub filter_active: bool,
    pub filter_query: String,
    /// The filter's cursor, a byte offset into the query.
    pub filter_cursor: usize,
    pub filter_risk: [bool; 4],
    pub filter_restore: [bool; 2],
    pub should_quit: bool,
    /// The module list's cursor, kept while another view is shown.
    pub module_list_index: usize,
    /// The flat view's cursor, kept while a directory is open.
    pub flat_view_index: usize,
    /// The view the file browser returns to.
    pub browser_origin: types::View,
    /// The module the open directory belongs to.
    pub browser_module_idx: usize,
    pub drill: DrillState,
    pub view_offset: usize,
    pub info_confirm_remove: bool,
    pub info_confirm_update: Option<SiblingUpdatePrompt>,
    pub cleanup_progress: Option<CleanupProgressState>,
    pub cleanup_action_dialog: bool,
    pub cleanup_action_cursor: usize,
    /// Paths the scan found but the safety rules deny: path, reason, module
    /// id, module name.
    pub blocked_paths: Vec<(String, String, String, String)>,
    /// Resolved paths already counted in `deduped_total`.
    pub seen_paths: PathSet,
    /// Total size counting each resolved path once across modules.
    pub deduped_total: u64,
    pub scan_status: types::ScanStatus,
    /// A message shown in the status bar for a while.
    pub flash_message: Option<(String, types::FlashLevel)>,
    /// How many more ticks the message stays.
    pub flash_ticks: usize,
    /// Whether the confirmation list asks to include items that cannot be
    /// trashed.
    pub confirm_irreversible_prompt: bool,
}

/// The state as plain values.
pub struct SessionView {
    pub modules: Seq<ModuleState>,
    pub current_view: types::View,
    pub previous_view: types::View,
    pub selected_index: usize,
    pub selected: Seq<String>,
    pub checked: Seq<String>,
    pub filter_active: bool,
    pub filter_query: Seq<char>,
    pub filter_cursor: usize,
    pub filter_risk: [bool; 4],
    pub filter_restore: [bool; 2],
    pub should_quit: bool,
    pub module_list_index: usize,
    pub flat_view_index: usize,
    pub browser_origin: types::View,
    pub browser_module_idx: usize,
    pub drill_levels: Seq<DrillLevel>,
    pub drill_cache: Seq<(String, (Option<u64>, SafetyLevel))>,
    pub view_offset: usize,
    pub info_confirm_remove: bool,
    pub info_confirm_update: Option<(usize, Seq<usize>, usize)>,
    pub cleanup_progress: Option<(usize, usize, Option<Seq<char>>, bool, bool)>,
    pub cleanup_action_dialog: bool,
    pub cleanup_action_cursor: usize,
    pub blocked_paths: Seq<(String, String, String, String)>,
    pub seen: Seq<String>,
    pub deduped_total: u64,
    pub scan_status: types::ScanStatus,
    pub flash: Option<(Seq<char>, types::FlashLevel)>,
    pub flash_ticks: usize,
    pub irreversible_prompt: bool,
}

/// A flash message as plain values.
pub open spec fn flash_view(f: Option<(String, types::FlashLevel)>) -> Option<(Seq<char>, types::FlashLevel)> {
    match f {
        Some(x) => Some((x.0@, x.1)),
        None => None,
    }
}

pub open spec fn prompt_view(p: Option<SiblingUpdatePrompt>) -> Option<(usize, Seq<usize>, usize)> {
    match p {
        Some(x) => Some((x.current_idx, x.sibling_indices@, x.selected)),
        None => None,
    }
}

pub open spec fn progress_view(p: Option<CleanupProgressState>) -> Option<(usize, usize, Option<Seq<char>>, bool, bool)> {
    match p {
        Some(x) => Some((x.total, x.done, crate::handlers::opt_view(x.current_path), x.permanent, x.halted)),
        None => None,
    }
}

impl vstd::view::View for Session {
    type V = SessionView;

    open spec fn view(&self) -> SessionView {
        SessionView {
            modules: self.modules@,
            current_view: self.current_view,
            previous_view: self.previous_view,
            selected_index: self.selected_index,
            selected: self.selected_items.entries(),
            checked: self.confirm_checked.entries(),
            filter_active: self.filter_active,
            filter_query: self.filter_query@,
            filter_cursor: self.filter_cursor,
            filter_risk: self.filter_risk,
            filter_restore: self.filter_restore,
            should_quit: self.should_quit,
            module_list_index: self.module_list_index,
            flat_view_index: self.flat_view_index,
            browser_origin: self.browser_origin,
            browser_module_idx: self.browser_module_idx,
            drill_levels: self.drill.levels(),
            drill_cache: self.drill.cache(),
            view_offset: self.view_offset,
            info_confirm_remove: self.info_confirm_remove,
            info_confirm_update: prompt_view(self.info_confirm_update),
            cleanup_progress: progress_view(self.cleanup_progress),
            cleanup_action_dialog: self.cleanup_action_dialog,
            cleanup_action_cursor: self.cleanup_action_cursor,
            blocked_paths: self.blocked_paths@,
            seen: self.seen_paths.entries(),
            deduped_total: self.deduped_total,
            scan_status: self.scan_status,
            flash: flash_view(self.flash_message),
            flash_ticks: self.flash_ticks,
            irreversible_prompt: self.confirm_irreversible_prompt,
        }
    }
}

/// The length in bytes of the UTF-8 encoding of `s`.
pub open spec fn utf8_len(s: Seq<char>) -> nat
    decreases s.len(),
{
    if s.len() == 0 {
        0
    } else {
        let c = s.last() as u32;
        utf8_len(s.drop_last()) + if c < 0x80 { 1nat } else if c < 0x800 { 2nat } else if c < 0x10000 { 3nat } else { 4nat }
    }
}

/// The UTF-8 length of `s` (what `String::len` gives).
pub fn utf8_length(s: &str) -> (r: usize)
    requires
        utf8_len(s@) <= usize::MAX,
    ensures
        r == utf8_len(s@),
{
    let cs = crate::text::chars_of(s);
    let mut n: usize = 0;
    let mut i: usize = 0;
    while i < cs.len()
        invariant
            i <= cs@.len(),
            cs@ == s@,
            utf8_len(s@) <= usize::MAX,
            n == utf8_len(cs@.take(i as int)),
        decreases cs@.len() - i,
    {
        proof {
            let t = cs@.take(i + 1);
            assert(t.drop_last() =~= cs@.take(i as int));
            lemma_utf8_prefix(cs@, i + 1);
        }
        let c = cs[i] as u32;
        let w: usize = if c < 0x80 { 1 } else if c < 0x800 { 2 } else if c < 0x10000 { 3 } else { 4 };
        n = n + w;
        i = i + 1;
    }
    assert(cs@.take(cs@.len() as int) =~= cs@);
    n
}

proof fn lemma_utf8_prefix(s: Seq<char>, n: int)
    requires
        0 <= n <= s.len(),
    ensures
        utf8_len(s.take(n)) <= utf8_len(s),
    decreases s.len() - n,
{
    if n < s.len() {
        lemma_utf8_prefix(s, n + 1);
        assert(s.take(n + 1).drop_last() =~= s.take(n));
    } else {
        assert(s.take(n) =~= s);
    }
}

impl Session {
    /// The state's invariant: selections and the drill cache hold each path
    /// once, and each module's item sizes add up within a `u64`.
    pub open spec fn wf(&self) -> bool {
        &&& self.selected_items.wf()
        &&& self.confirm_checked.wf()
        &&& self.drill.wf()
        &&& self.seen_paths.wf()
        &&& all_sizes_fit(self.modules@)
    }

    /// A fresh state showing the module list of `modules`.
    pub fn new(modules: Vec<ModuleState>) -> (r: Self)
        requires
            all_sizes_fit(modules@),
        ensures
            r@.scan_status == types::ScanStatus::Scanning,
            r@.deduped_total == 0,
            r@.blocked_paths.len() == 0,
            r.wf(),
            r@.modules == modules@,
            r@.current_view == types::View::ModuleList,
            r@.selected_index == 0,
            r@.selected.len() == 0,
            r@.filter_query.len() == 0,
            !r@.filter_active,
            !r@.should_quit,
            r@.previous_view == types::View::ModuleList,
            r@.checked.len() == 0,
            r@.filter_cursor == 0,
            r@.filter_risk@ == seq![true, true, true, true],
            r@.filter_restore@ == seq![true, true],
            r@.module_list_index == 0,
            r@.flat_view_index == 0,
            r@.browser_origin == types::View::ModuleList,
            r@.browser_module_idx == 0,
            r@.drill_levels.len() == 0,
            r@.drill_cache.len() == 0,
            r@.view_offset == 0,
            !r@.info_confirm_remove,
            r@.info_confirm_update is None,
            r@.cleanup_progress is None,
            !r@.cleanup_action_dialog,
            r@.cleanup_action_cursor == 0,
            r@.seen.len() == 0,
            r@.flash is None,
            r@.flash_ticks == 0,
            !r@.irreversible_prompt,
    {
        Session {
            modules,
            current_view: types::View::ModuleList,
            previous_view: types::View::ModuleList,
            selected_index: 0,
            selected_items: PathSet::new(),
            confirm_checked: PathSet::new(),
            filter_active: false,
            filter_query: String::new(),
            filter_cursor: 0,
            filter_risk: [true, true, true, true],
            filter_restore: [true, true],
            should_quit: false,
            module_list_index: 0,
            flat_view_index: 0,
            browser_origin: types::View::ModuleList,
            browser_module_idx: 0,
            drill: DrillState::new(),
            view_offset: 0,
            info_confirm_remove: false,
            info_confirm_update: None,
            cleanup_progress: None,
            cleanup_action_dialog: false,
            cleanup_action_cursor: 0,
            blocked_paths: Vec::new(),
            seen_paths: PathSet::new(),
            deduped_total: 0,
            scan_status: types::ScanStatus::Scanning,
            flash_message: None,
            flash_ticks: 0,
            confirm_irreversible_prompt: false,
        }
    }

    /// Shows `view`, scrolled to the top.
    pub fn set_view(&mut self, view: types::View)
        ensures
            final(self).selected_items == old(self).selected_items,
            final(self).confirm_checked == old(self).confirm_checked,
            final(self).drill == old(self).drill,
            final(self).seen_paths == old(self).seen_paths,
            final(self)@ == (SessionView { current_view: view, view_offset: 0, ..old(self)@ }),
    {
        self.current_view = view;
        self.view_offset = 0;
    }

    /// Leaves filter input and empties the query.
    pub fn clear_filter(&mut self)
        ensures
            final(self).selected_items == old(self).selected_items,
            final(self).confirm_checked == old(self).confirm_checked,
            final(self).drill == old(self).drill,
            final(self).seen_paths == old(self).seen_paths,
            final(self)@ == (SessionView {
                filter_active: false,
                filter_query: Seq::empty(),
                filter_cursor: 0,
                ..old(self)@
            }),
    {
        self.filter_active = false;
        self.filter_query = String::new();
        self.filter_cursor = 0;
    }

    /// Starts filter input with an empty query, cursor on the first row.
    fn start_filter(&mut self)
        ensures
            final(self).selected_items == old(self).selected_items,
            final(self).confirm_checked == old(self).confirm_checked,
            final(self).drill == old(self).drill,
            final(self).seen_paths == old(self).seen_paths,
            final(self)@ == (SessionView {
                filter_active: true,
                filter_query: Seq::empty(),
                filter_cursor: 0,
                selected_index: 0,
                ..old(self)@
            }),
    {
        self.filter_active = true;
        self.filter_query = String::new();
        self.filter_cursor = 0;
        self.selected_index = 0;
    }

    /// Opens `view` over the current one, remembering where to return.
    fn enter_overlay(&mut self, view: types::View)
        ensures
            final(self).selected_items == old(self).selected_items,
            final(self).confirm_checked == old(self).confirm_checked,
            final(self).drill == old(self).drill,
            final(self).seen_paths == old(self).seen_paths,
            final(self)@ == (SessionView {
                previous_view: old(self)@.current_view,
                current_view: view,
                view_offset: 0,
                ..old(self)@
            }),
    {
        self.previous_view = self.current_view;
        self.set_view(view);
    }

    /// Closes an overlay: back to the remembered view, cursor on the first
    /// row.
    fn leave_overlay(&mut self)
        ensures
            final(self).selected_items == old(self).selected_items,
            final(self).confirm_checked == old(self).confirm_checked,
            final(self).drill == old(self).drill,
            final(self).seen_paths == old(self).seen_paths,
            final(self)@ == (SessionView {
                current_view: old(self)@.previous_view,
                view_offset: 0,
                selected_index: 0,
                ..old(self)@
            }),
    {
        let back = self.previous_view;
        self.set_view(back);
        self.selected_index = 0;
    }

    /// A key typed while the filter bar is active: Esc drops the query and
    /// leaves the bar, Enter keeps the query and leaves it, Backspace drops
    /// the last character, a character is appended; the cursor goes to the
    /// first row and the filter cursor to the end of the query.
    pub fn handle_key_filter(&mut self, key: Key)
        requires
            old(self).wf(),
            utf8_len(old(self)@.filter_query) + 4 <= usize::MAX,
        ensures
            final(self).wf(),
            filter_post(*old(self), *final(self), key),
    {
        match key {
            Key::Esc => {
                self.filter_active = false;
                self.filter_query = String::new();
                self.filter_cursor = 0;
                self.selected_index = 0;
            },
            Key::Enter => {
                self.filter_active = false;
                self.selected_index = 0;
            },
            Key::Backspace => {
                let cs = crate::text::chars_of(self.filter_query.as_str());
                let n = cs.len();
                if n > 0 {
                    self.filter_query = crate::text::string_of_range(cs.as_slice(), 0, n - 1);
                    assert(self.filter_query@ =~= old(self)@.filter_query.drop_last());
                }
                proof {
                    lemma_utf8_drop_last(old(self)@.filter_query);
                }
                self.filter_cursor = utf8_length(self.filter_query.as_str());
                self.selected_index = 0;
            },
            Key::Char(c) => {
                self.filter_query.push(c);
                proof {
                    lemma_utf8_push(old(self)@.filter_query, c);
                }
                self.filter_cursor = utf8_length(self.filter_query.as_str());
                self.selected_index = 0;
            },
            _ => {},
        }
    }

    /// Keys of the help overlay: `?` or Esc close it.
    pub fn handle_key_help(&mut self, key: Key)
        requires
            old(self).wf(),
        ensures
            final(self).wf(),
            help_post(*old(self), *final(self), key),
    {
        match key {
            Key::Char('?') | Key::Esc => self.leave_overlay(),
            _ => {},
        }
    }

    /// Leaves the progress view once a cleanup is over: back to the view it
    /// started from, cursor on the first row, nothing checked.
    pub fn finish_cleanup(&mut self)
        requires
            old(self).wf(),
        ensures
            final(self).wf(),
            final(self)@ == (SessionView {
                cleanup_progress: None,
                checked: final(self)@.checked,
                current_view: old(self)@.previous_view,
                view_offset: 0,
                selected_index: 0,
                ..old(self)@
            }),
            final(self)@.checked.len() == 0,
    {
        self.cleanup_progress = None;
        self.confirm_checked.clear();
        let back = self.previous_view;
        self.set_view(back);
        self.selected_index = 0;
    }

    /// Keys of the progress view. While the cleanup runs, `q` or Esc halt it
    /// (the caller stops the work); once halted, `q` quits and any other key
    /// leaves the view.
    pub fn handle_key_progress(&mut self, key: Key) -> (r: Effect)
        requires
            old(self).wf(),
        ensures
            final(self).wf(),
            progress_post(*old(self), *final(self), key, r),
    {
        let halted = match &self.cleanup_progress {
            Some(p) => p.halted,
            None => false,
        };
        if halted {
            match key {
                Key::Char('q') => {
                    self.should_quit = true;
                    Effect::Nothing
                },
                _ => {
                    self.finish_cleanup();
                    Effect::CleanupFinished
                },
            }
        } else {
            match key {
                Key::Char('q') | Key::Esc => {
                    match &mut self.cleanup_progress {
                        Some(p) => {
                            p.halted = true;
                        },
                        None => {},
                    }
                    Effect::HaltCleanup
                },
                _ => Effect::Nothing,
            }
        }
    }
}

proof fn lemma_utf8_push(s: Seq<char>, c: char)
    ensures
        utf8_len(s.push(c)) <= utf8_len(s) + 4,
{
    assert(s.push(c).drop_last() =~= s);
}

proof fn lemma_utf8_drop_last(s: Seq<char>)
    ensures
        s.len() > 0 ==> utf8_len(s.drop_last()) <= utf8_len(s),
{
}


// ---------------------------------------------------------------------------
// Selecting items
// ---------------------------------------------------------------------------

/// Whether one of `items` has path `q`.
pub open spec fn in_items(items: Seq<Item>, q: Seq<char>) -> bool {
    exists|j: int| 0 <= j < items.len() && path_eq(#[trigger] items[j].path@, q)
}

/// Whether an item of one of the listed modules has path `q`.
pub open spec fn in_listed(ms: Seq<ModuleState>, order: Seq<usize>, q: Seq<char>) -> bool {
    exists|k: int| 0 <= k < order.len() && order[k] < ms.len() && in_items(#[trigger] ms[order[k] as int].items@, q)
}

/// Whether every one of `items` is selected (and there is one).
pub open spec fn all_held(set: PathSet, items: Seq<Item>) -> bool {
    items.len() > 0 && forall|j: int| 0 <= j < items.len() ==> set.has(#[trigger] items[j].path@)
}

impl PathSet {
    /// Adds the path of every item.
    pub fn insert_items(&mut self, items: &Vec<Item>)
        requires
            old(self).wf(),
        ensures
            final(self).wf(),
            forall|q: Seq<char>| #[trigger] final(self).has(q) == (old(self).has(q) || in_items(items@, q)),
    {
        let ghost s0 = *self;
        let mut j: usize = 0;
        while j < items.len()
            invariant
                j <= items@.len(),
                self.wf(),
                forall|q: Seq<char>| #[trigger] self.has(q) == (s0.has(q) || in_items(items@.take(j as int), q)),
            decreases items@.len() - j,
        {
            let ghost s1 = *self;
            self.insert(items[j].path.clone());
            proof {
                let t = items@.take(j + 1);
                assert forall|q: Seq<char>| #[trigger] self.has(q) == (s0.has(q) || in_items(t, q)) by {
                    if in_items(t, q) {
                        let a = choose|a: int| 0 <= a < t.len() && path_eq(#[trigger] t[a].path@, q);
                        if a < j {
                            assert(path_eq(items@.take(j as int)[a].path@, q));
                        }
                    }
                    if in_items(items@.take(j as int), q) {
                        let a = choose|a: int| 0 <= a < j && path_eq(#[trigger] items@.take(j as int)[a].path@, q);
                        assert(path_eq(t[a].path@, q));
                    }
                    if path_eq(q, items@[j as int].path@) {
                        assert(path_eq(t[j as int].path@, q));
                    }
                }
            }
            j = j + 1;
        }
        assert(items@.take(items@.len() as int) =~= items@);
    }

    /// Drops the path of every item.
    pub fn remove_items(&mut self, items: &Vec<Item>)
        requires
            old(self).wf(),
        ensures
            final(self).wf(),
            forall|q: Seq<char>| #[trigger] final(self).has(q) == (old(self).has(q) && !in_items(items@, q)),
    {
        let ghost s0 = *self;
        let mut j: usize = 0;
        while j < items.len()
            invariant
                j <= items@.len(),
                self.wf(),
                forall|q: Seq<char>| #[trigger] self.has(q) == (s0.has(q) && !in_items(items@.take(j as int), q)),
            decreases items@.len() - j,
        {
            self.remove(items[j].path.as_str());
            proof {
                let t = items@.take(j + 1);
                assert forall|q: Seq<char>| #[trigger] self.has(q) == (s0.has(q) && !in_items(t, q)) by {
                    if in_items(t, q) {
                        let a = choose|a: int| 0 <= a < t.len() && path_eq(#[trigger] t[a].path@, q);
                        if a < j {
                            assert(path_eq(items@.take(j as int)[a].path@, q));
                        }
                    }
                    if in_items(items@.take(j as int), q) {
                        let a = choose|a: int| 0 <= a < j && path_eq(#[trigger] items@.take(j as int)[a].path@, q);
                        assert(path_eq(t[a].path@, q));
                    }
                    if path_eq(q, items@[j as int].path@) {
                        assert(path_eq(t[j as int].path@, q));
                    }
                }
            }
            j = j + 1;
        }
        assert(items@.take(items@.len() as int) =~= items@);
    }

    /// Whether every item's path is held (and there is an item).
    pub fn holds_all(&self, items: &Vec<Item>) -> (r: bool)
        ensures
            r == all_held(*self, items@),
    {
        if items.len() == 0 {
            return false;
        }
        let mut j: usize = 0;
        while j < items.len()
            invariant
                j <= items@.len(),
                forall|k: int| 0 <= k < j ==> self.has(#[trigger] items@[k].path@),
            decreases items@.len() - j,
        {
            if !self.contains(items[j].path.as_str()) {
                return false;
            }
            j = j + 1;
        }
        true
    }
}

// ---------------------------------------------------------------------------
// The module list
// ---------------------------------------------------------------------------

impl Session {
    /// The modules the module list can move to, in listing order.
    pub open spec fn module_rows(&self) -> Seq<usize> {
        spec_module_order(self.modules@, self.filter_query@, self.filter_risk, self.filter_restore, true)
    }
}

/// What a key does in the module list, except to the selection.
pub open spec fn module_list_step(v: SessionView, key: Key, rows: Seq<usize>) -> SessionView {
    let sel = v.selected_index;
    let count = rows.len();
    if is_nav_key(key) {
        SessionView { selected_index: nav_target(key, sel, count as usize), ..v }
    } else {
        match key {
            Key::Enter => if sel < count {
                SessionView {
                    module_list_index: sel,
                    filter_active: false,
                    filter_query: Seq::empty(),
                    filter_cursor: 0,
                    current_view: types::View::ModuleDetail(rows[sel as int]),
                    view_offset: 0,
                    selected_index: 0,
                    ..v
                }
            } else {
                v
            },
            Key::Char('?') => SessionView { previous_view: v.current_view, current_view: types::View::Help, view_offset: 0, ..v },
            Key::Char('c') => if v.selected.len() > 0 {
                SessionView {
                    previous_view: v.current_view,
                    checked: v.selected,
                    current_view: types::View::CleanupConfirm,
                    view_offset: 0,
                    selected_index: 0,
                    ..v
                }
            } else {
                v
            },
            Key::Char('/') => SessionView { filter_active: true, filter_query: Seq::empty(), filter_cursor: 0, selected_index: 0, ..v },
            Key::Char('i') => if sel < count {
                SessionView { previous_view: v.current_view, current_view: types::View::Info(rows[sel as int]), view_offset: 0, ..v }
            } else {
                v
            },
            Key::Tab => SessionView {
                module_list_index: sel,
                filter_active: false,
                filter_query: Seq::empty(),
                filter_cursor: 0,
                current_view: types::View::FlatView,
                view_offset: 0,
                selected_index: 0,
                ..v
            },
            Key::Esc => if v.filter_query.len() > 0 {
                SessionView { filter_active: false, filter_query: Seq::empty(), filter_cursor: 0, selected_index: 0, ..v }
            } else {
                v
            },
            _ => v,
        }
    }
}

/// What a key does to the selection in the module list: space toggles all
/// items of the module under the cursor (removing them when all are
/// selected, adding them otherwise), `a` adds and `n` removes every item of
/// every listed module.
pub open spec fn module_list_selects(s: Session, key: Key, q: Seq<char>) -> bool {
    let rows = s.module_rows();
    let sel = s.selected_index;
    match key {
        Key::Char(' ') => if sel < rows.len() && rows[sel as int] < s.modules@.len() {
            let items = s.modules@[rows[sel as int] as int].items@;
            if all_held(s.selected_items, items) {
                s.selected_items.has(q) && !in_items(items, q)
            } else {
                s.selected_items.has(q) || in_items(items, q)
            }
        } else {
            s.selected_items.has(q)
        },
        Key::Char('a') => s.selected_items.has(q) || in_listed(s.modules@, rows, q),
        Key::Char('n') => s.selected_items.has(q) && !in_listed(s.modules@, rows, q),
        _ => s.selected_items.has(q),
    }
}

proof fn lemma_module_rows_bound(s: Session)
    ensures
        forall|k: int| 0 <= k < s.module_rows().len() ==> (#[trigger] s.module_rows()[k]) < s.modules@.len(),
{
    crate::ranking::lemma_module_order_bound(s.modules@, s.filter_query@, s.filter_risk, s.filter_restore, true);
}

impl Session {
    /// Keys of the module list.
    #[verifier::spinoff_prover]
    #[verifier::rlimit(60)]
    pub fn handle_key_module_list(&mut self, key: Key)
        requires
            old(self).wf(),
        ensures
            final(self).wf(),
            module_list_post(*old(self), *final(self), key),
    {
        let sorted = sorted_module_indices(self.modules.as_slice(), self.filter_query.as_str(), &self.filter_risk, &self.filter_restore);
        proof {
            lemma_module_rows_bound(*self);
            assert(sorted@ == self.module_rows());
        }
        let count = sorted.len();
        let sel = self.selected_index;
        if is_nav(key) {
            self.selected_index = nav(key, sel, count);
            return;
        }
        match key {
            Key::Enter => {
                if sel < count {
                    let mi = sorted[sel];
                    self.module_list_index = sel;
                    self.clear_filter();
                    self.set_view(types::View::ModuleDetail(mi));
                    self.selected_index = 0;
                }
            },
            Key::Char(' ') => {
                if sel < count {
                    let mi = sorted[sel];
                    assert(self.module_rows()[sel as int] < self.modules@.len());
                    let all = self.selected_items.holds_all(&self.modules[mi].items);
                    if all {
                        self.selected_items.remove_items(&self.modules[mi].items);
                    } else {
                        self.selected_items.insert_items(&self.modules[mi].items);
                    }
                }
            },
            Key::Char('a') => {
                let ghost s0 = self.selected_items;
                let mut k: usize = 0;
                while k < count
                    invariant
                        k <= count,
                        count == sorted@.len(),
                        sorted@ == old(self).module_rows(),
                        self.modules@ == old(self).modules@,
                        self@ == (SessionView { selected: self@.selected, ..old(self)@ }),
                        old(self).wf(),
                        forall|m: int| 0 <= m < sorted@.len() ==> (#[trigger] sorted@[m]) < self.modules@.len(),
                        self.selected_items.wf(),
                        forall|q: Seq<char>| #[trigger] self.selected_items.has(q) == (s0.has(q) || in_listed(self.modules@, sorted@.take(k as int), q)),
                    decreases count - k,
                {
                    let mi = sorted[k];
                    let ghost s1 = self.selected_items;
                    self.selected_items.insert_items(&self.modules[mi].items);
                    proof {
                        lemma_in_listed_step(self.modules@, sorted@, k as int);
                    }
                    k = k + 1;
                }
                assert(sorted@.take(count as int) =~= sorted@);
            },
            Key::Char('n') => {
                let ghost s0 = self.selected_items;
                let mut k: usize = 0;
                while k < count
                    invariant
                        k <= count,
                        count == sorted@.len(),
                        sorted@ == old(self).module_rows(),
                        self.modules@ == old(self).modules@,
                        self@ == (SessionView { selected: self@.selected, ..old(self)@ }),
                        old(self).wf(),
                        forall|m: int| 0 <= m < sorted@.len() ==> (#[trigger] sorted@[m]) < self.modules@.len(),
                        self.selected_items.wf(),
                        forall|q: Seq<char>| #[trigger] self.selected_items.has(q) == (s0.has(q) && !in_listed(self.modules@, sorted@.take(k as int), q)),
                    decreases count - k,
                {
                    let mi = sorted[k];
                    self.selected_items.remove_items(&self.modules[mi].items);
                    proof {
                        lemma_in_listed_step(self.modules@, sorted@, k as int);
                    }
                    k = k + 1;
                }
                assert(sorted@.take(count as int) =~= sorted@);
            },
            Key::Char('?') => {
                self.enter_overlay(types::View::Help);
            },
            Key::Char('c') => {
                if !self.selected_items.is_empty() {
                    self.previous_view = self.current_view;
                    self.confirm_checked = self.selected_items.copy();
                    self.set_view(types::View::CleanupConfirm);
                    self.selected_index = 0;
                }
            },
            Key::Char('/') => {
                self.start_filter();
            },
            Key::Char('i') => {
                if sel < count {
                    let mi = sorted[sel];
                    self.enter_overlay(types::View::Info(mi));
                }
            },
            Key::Tab => {
                self.module_list_index = sel;
                self.clear_filter();
                self.set_view(types::View::FlatView);
                self.selected_index = 0;
            },
            Key::Esc => {
                if self.filter_query.as_str().unicode_len() > 0 {
                    self.clear_filter();
                    self.selected_index = 0;
                }
            },
            _ => {},
        }
    }
}

proof fn lemma_in_listed_step(ms: Seq<ModuleState>, order: Seq<usize>, k: int)
    requires
        0 <= k < order.len(),
        order[k] < ms.len(),
    ensures
        forall|q: Seq<char>| #[trigger] in_listed(ms, order.take(k + 1), q) == (in_listed(ms, order.take(k), q)
            || in_items(ms[order[k] as int].items@, q)),
{
    let t = order.take(k + 1);
    assert forall|q: Seq<char>| #[trigger] in_listed(ms, t, q) == (in_listed(ms, order.take(k), q)
        || in_items(ms[order[k] as int].items@, q)) by {
        if in_listed(ms, t, q) {
            let a = choose|a: int| 0 <= a < t.len() && t[a] < ms.len() && in_items(#[trigger] ms[t[a] as int].items@, q);
            if a < k {
                assert(order.take(k)[a] == t[a]);
            }
        }
        if in_listed(ms, order.take(k), q) {
            let a = choose|a: int| 0 <= a < k && order.take(k)[a] < ms.len() && in_items(#[trigger] ms[order.take(k)[a] as int].items@, q);
            assert(t[a] == order.take(k)[a]);
        }
        if in_items(ms[order[k] as int].items@, q) {
            assert(t[k] == order[k]);
        }
    }
}

// ---------------------------------------------------------------------------
// The items of a module
// ---------------------------------------------------------------------------

/// The first group start after row `sel`.
pub open spec fn next_boundary(bs: Seq<usize>, sel: usize) -> Option<usize>
    decreases bs.len(),
{
    if bs.len() == 0 {
        None
    } else if bs[0] > sel {
        Some(bs[0])
    } else {
        next_boundary(bs.skip(1), sel)
    }
}

/// The position of the last group start at or before row `sel`.
pub open spec fn last_at_or_before(bs: Seq<usize>, sel: usize) -> Option<int>
    decreases bs.len(),
{
    if bs.len() == 0 {
        None
    } else if bs.last() <= sel {
        Some(bs.len() - 1)
    } else {
        last_at_or_before(bs.drop_last(), sel)
    }
}

/// Where `h` moves the cursor: to the start of its group, or from a group's
/// start to the previous group's start.
pub open spec fn prev_group_target(bs: Seq<usize>, sel: usize) -> usize {
    match last_at_or_before(bs, sel) {
        Some(gi) => if sel > bs[gi] {
            bs[gi]
        } else if gi > 0 {
            bs[gi - 1]
        } else {
            sel
        },
        None => sel,
    }
}

fn next_boundary_exec(bs: &Vec<usize>, sel: usize) -> (r: Option<usize>)
    ensures
        r == next_boundary(bs@, sel),
{
    let mut i: usize = 0;
    assert(bs@.skip(0) =~= bs@);
    while i < bs.len()
        invariant
            i <= bs@.len(),
            next_boundary(bs@, sel) == next_boundary(bs@.skip(i as int), sel),
        decreases bs@.len() - i,
    {
        proof {
            assert(bs@.skip(i as int)[0] == bs@[i as int]);
            assert(bs@.skip(i as int).skip(1) =~= bs@.skip(i + 1));
        }
        if bs[i] > sel {
            return Some(bs[i]);
        }
        i = i + 1;
    }
    None
}

fn prev_group_exec(bs: &Vec<usize>, sel: usize) -> (r: usize)
    ensures
        r == prev_group_target(bs@, sel),
{
    let mut i: usize = bs.len();
    assert(bs@.take(bs@.len() as int) =~= bs@);
    while i > 0 && bs[i - 1] > sel
        invariant
            i <= bs@.len(),
            last_at_or_before(bs@, sel) == last_at_or_before(bs@.take(i as int), sel),
        decreases i,
    {
        proof {
            let t = bs@.take(i as int);
            assert(t.last() == bs@[i - 1]);
            assert(t.drop_last() =~= bs@.take(i - 1));
        }
        i = i - 1;
    }
    if i == 0 {
        return sel;
    }
    proof {
        let t = bs@.take(i as int);
        assert(t.last() == bs@[i - 1]);
    }
    let gi = i - 1;
    if sel > bs[gi] {
        bs[gi]
    } else if gi > 0 {
        bs[gi - 1]
    } else {
        sel
    }
}

/// What the selection holds after selecting each of `items` in turn, each
/// in place of what was selected below it.
pub open spec fn selected_after_all(s0: PathSet, items: Seq<Item>, q: Seq<char>) -> bool
    decreases items.len(),
{
    if items.len() == 0 {
        s0.has(q)
    } else {
        let p = items.last().path@;
        path_eq(q, p) || (selected_after_all(s0, items.drop_last(), q) && !path_starts_with(q, p))
    }
}

impl PathSet {
    /// Selects each item in turn, in place of what is selected below it.
    pub fn select_all_replacing(&mut self, items: &Vec<Item>)
        requires
            old(self).wf(),
        ensures
            final(self).wf(),
            forall|q: Seq<char>| #[trigger] final(self).has(q) == selected_after_all(*old(self), items@, q),
    {
        let ghost s0 = *self;
        let mut j: usize = 0;
        while j < items.len()
            invariant
                j <= items@.len(),
                self.wf(),
                forall|q: Seq<char>| #[trigger] self.has(q) == selected_after_all(s0, items@.take(j as int), q),
            decreases items@.len() - j,
        {
            let ghost s1 = *self;
            self.select_replacing(items[j].path.clone());
            proof {
                let t = items@.take(j + 1);
                assert(t.drop_last() =~= items@.take(j as int));
                assert(t.last() == items@[j as int]);
            }
            j = j + 1;
        }
        assert(items@.take(items@.len() as int) =~= items@);
    }
}

/// What a key does in a module's item list, except to the selection.
pub open spec fn detail_step(v: SessionView, key: Key, mi: usize, order: Seq<usize>, bounds: Seq<usize>) -> SessionView {
    let sel = v.selected_index;
    let count = order.len();
    if is_nav_key(key) {
        SessionView { selected_index: nav_target(key, sel, count as usize), ..v }
    } else {
        match key {
            Key::Char('l') | Key::Right => match next_boundary(bounds, sel) {
                Some(b) => SessionView { selected_index: b, ..v },
                None => v,
            },
            Key::Char('h') | Key::Left => SessionView { selected_index: prev_group_target(bounds, sel), ..v },
            Key::Enter => if sel < count && v.modules[mi as int].items@[order[sel as int] as int].item_type == ItemType::Directory {
                SessionView {
                    browser_origin: types::View::ModuleDetail(mi),
                    browser_module_idx: mi,
                    filter_active: false,
                    filter_query: Seq::empty(),
                    filter_cursor: 0,
                    current_view: types::View::FileBrowser,
                    view_offset: 0,
                    selected_index: 0,
                    ..v
                }
            } else {
                v
            },
            Key::Char('c') => if v.selected.len() > 0 {
                SessionView {
                    previous_view: v.current_view,
                    checked: v.selected,
                    current_view: types::View::CleanupConfirm,
                    view_offset: 0,
                    selected_index: 0,
                    ..v
                }
            } else {
                v
            },
            Key::Char('i') => SessionView { previous_view: v.current_view, current_view: types::View::Info(mi), view_offset: 0, ..v },
            Key::Char('/') => SessionView { filter_active: true, filter_query: Seq::empty(), filter_cursor: 0, selected_index: 0, ..v },
            Key::Esc => if v.filter_query.len() > 0 {
                SessionView { filter_active: false, filter_query: Seq::empty(), filter_cursor: 0, selected_index: 0, ..v }
            } else {
                SessionView {
                    filter_active: false,
                    filter_query: Seq::empty(),
                    filter_cursor: 0,
                    current_view: types::View::ModuleList,
                    view_offset: 0,
                    selected_index: v.module_list_index,
                    ..v
                }
            },
            Key::Backspace => SessionView {
                filter_active: false,
                filter_query: Seq::empty(),
                filter_cursor: 0,
                current_view: types::View::ModuleList,
                view_offset: 0,
                selected_index: v.module_list_index,
                ..v
            },
            Key::Char('?') => SessionView { previous_view: v.current_view, current_view: types::View::Help, view_offset: 0, ..v },
            _ => v,
        }
    }
}

/// What a key does to the selection in a module's item list: space toggles
/// the item under the cursor (selecting replaces what lies below it), `a`
/// selects every item of the module, `n` unselects them.
pub open spec fn detail_selects(s: SessionView, set: PathSet, key: Key, mi: usize, order: Seq<usize>, q: Seq<char>) -> bool {
    let items = s.modules[mi as int].items@;
    let sel = s.selected_index;
    match key {
        Key::Char(' ') => if sel < order.len() {
            let p = items[order[sel as int] as int].path@;
            if set.has(p) {
                set.has(q) && !path_eq(q, p)
            } else {
                path_eq(q, p) || (set.has(q) && !path_starts_with(q, p))
            }
        } else {
            set.has(q)
        },
        Key::Char('a') => selected_after_all(set, items, q),
        Key::Char('n') => set.has(q) && !in_items(items, q),
        _ => set.has(q),
    }
}

/// The effect of a key in a module's item list.
pub open spec fn detail_effect(s: SessionView, key: Key, mi: usize, order: Seq<usize>, e: Effect) -> bool {
    let sel = s.selected_index;
    let items = s.modules[mi as int].items@;
    match key {
        Key::Enter => if sel < order.len() && items[order[sel as int] as int].item_type == ItemType::Directory {
            e matches Effect::OpenDirectory { path, parent_selected_index } && path@ == items[order[sel as int] as int].path@
                && parent_selected_index == sel
        } else {
            e is Nothing
        },
        Key::Char('o') => if sel < order.len() {
            e matches Effect::OpenInFileManager(p) && p@ == items[order[sel as int] as int].path@
        } else {
            e is Nothing
        },
        _ => e is Nothing,
    }
}

impl Session {
    /// Keys of a module's item list (the view `ModuleDetail(mi)`); in any
    /// other view, or for a module that is gone, nothing happens.
    #[verifier::spinoff_prover]
    #[verifier::rlimit(60)]
    pub fn handle_key_module_detail(&mut self, key: Key) -> (r: Effect)
        requires
            old(self).wf(),
        ensures
            final(self).wf(),
            module_detail_post(*old(self), *final(self), key, r),
    {
        let mi = match self.current_view {
            types::View::ModuleDetail(idx) => idx,
            _ => return Effect::Nothing,
        };
        if mi >= self.modules.len() {
            return Effect::Nothing;
        }
        let (order, bounds) = display_order_item_indices(self.modules[mi].items.as_slice(), self.filter_query.as_str());
        proof {
            crate::ranking::lemma_display_bound(self.modules@[mi as int].items@, self.filter_query@);
        }
        let count = order.len();
        let sel = self.selected_index;
        if is_nav(key) {
            self.selected_index = nav(key, sel, count);
            return Effect::Nothing;
        }
        match key {
            Key::Char('l') | Key::Right => {
                match next_boundary_exec(&bounds, sel) {
                    Some(b) => {
                        self.selected_index = b;
                    },
                    None => {},
                }
                Effect::Nothing
            },
            Key::Char('h') | Key::Left => {
                self.selected_index = prev_group_exec(&bounds, sel);
                Effect::Nothing
            },
            Key::Char(' ') => {
                if sel < count {
                    let path = self.modules[mi].items[order[sel]].path.clone();
                    self.selected_items.toggle(path);
                }
                Effect::Nothing
            },
            Key::Char('a') => {
                self.selected_items.select_all_replacing(&self.modules[mi].items);
                Effect::Nothing
            },
            Key::Char('n') => {
                self.selected_items.remove_items(&self.modules[mi].items);
                Effect::Nothing
            },
            Key::Enter => {
                if sel < count {
                    let is_dir = match self.modules[mi].items[order[sel]].item_type {
                        ItemType::Directory => true,
                        ItemType::File => false,
                    };
                    if is_dir {
                        let path = self.modules[mi].items[order[sel]].path.clone();
                        self.browser_origin = types::View::ModuleDetail(mi);
                        self.browser_module_idx = mi;
                        self.clear_filter();
                        self.set_view(types::View::FileBrowser);
                        self.selected_index = 0;
                        return Effect::OpenDirectory { path, parent_selected_index: sel };
                    }
                }
                Effect::Nothing
            },
            Key::Char('c') => {
                if !self.selected_items.is_empty() {
                    self.previous_view = self.current_view;
                    self.confirm_checked = self.selected_items.copy();
                    self.set_view(types::View::CleanupConfirm);
                    self.selected_index = 0;
                }
                Effect::Nothing
            },
            Key::Char('o') => {
                if sel < count {
                    let path = self.modules[mi].items[order[sel]].path.clone();
                    return Effect::OpenInFileManager(path);
                }
                Effect::Nothing
            },
            Key::Char('i') => {
                self.enter_overlay(types::View::Info(mi));
                Effect::Nothing
            },
            Key::Char('/') => {
                self.start_filter();
                Effect::Nothing
            },
            Key::Esc => {
                if self.filter_query.as_str().unicode_len() > 0 {
                    self.clear_filter();
                    self.selected_index = 0;
                } else {
                    self.clear_filter();
                    self.set_view(types::View::ModuleList);
                    self.selected_index = self.module_list_index;
                }
                Effect::Nothing
            },
            Key::Backspace => {
                self.clear_filter();
                self.set_view(types::View::ModuleList);
                self.selected_index = self.module_list_index;
                Effect::Nothing
            },
            Key::Char('?') => {
                self.enter_overlay(types::View::Help);
                Effect::Nothing
            },
            _ => Effect::Nothing,
        }
    }
}

// ---------------------------------------------------------------------------
// All items at once
// ---------------------------------------------------------------------------

/// The path of the item at (module, item) position `pr`.
pub open spec fn pair_path(ms: Seq<ModuleState>, pr: (usize, usize)) -> Seq<char> {
    ms[pr.0 as int].items@[pr.1 as int].path@
}

/// Whether one of the listed items has path `q`.
pub open spec fn in_pairs(ms: Seq<ModuleState>, prs: Seq<(usize, usize)>, q: Seq<char>) -> bool {
    exists|k: int| 0 <= k < prs.len() && path_eq(pair_path(ms, #[trigger] prs[k]), q)
}

/// What the selection holds after selecting each listed item in turn.
pub open spec fn selected_after_pairs(s0: PathSet, ms: Seq<ModuleState>, prs: Seq<(usize, usize)>, q: Seq<char>) -> bool
    decreases prs.len(),
{
    if prs.len() == 0 {
        s0.has(q)
    } else {
        let p = pair_path(ms, prs.last());
        path_eq(q, p) || (selected_after_pairs(s0, ms, prs.drop_last(), q) && !path_starts_with(q, p))
    }
}

/// Whether every listed pair names an item.
pub open spec fn pairs_valid(ms: Seq<ModuleState>, prs: Seq<(usize, usize)>) -> bool {
    forall|k: int| 0 <= k < prs.len() ==> (#[trigger] prs[k]).0 < ms.len() && prs[k].1 < ms[prs[k].0 as int].items@.len()
}

/// What a key does in the flat list, except to the selection.
pub open spec fn flat_step(v: SessionView, key: Key, prs: Seq<(usize, usize)>) -> SessionView {
    let sel = v.selected_index;
    let count = prs.len();
    if is_nav_key(key) {
        SessionView { selected_index: nav_target(key, sel, count as usize), ..v }
    } else {
        match key {
            Key::Enter => if sel < count && v.modules[prs[sel as int].0 as int].items@[prs[sel as int].1 as int].item_type == ItemType::Directory {
                SessionView {
                    browser_origin: types::View::FlatView,
                    browser_module_idx: prs[sel as int].0,
                    flat_view_index: sel,
                    current_view: types::View::FileBrowser,
                    view_offset: 0,
                    filter_active: false,
                    filter_query: Seq::empty(),
                    filter_cursor: 0,
                    selected_index: 0,
                    ..v
                }
            } else {
                v
            },
            Key::Char('c') => if v.selected.len() > 0 {
                SessionView {
                    previous_view: v.current_view,
                    checked: v.selected,
                    current_view: types::View::CleanupConfirm,
                    view_offset: 0,
                    selected_index: 0,
                    ..v
                }
            } else {
                v
            },
            Key::Char('/') => SessionView { filter_active: true, filter_query: Seq::empty(), filter_cursor: 0, selected_index: 0, ..v },
            Key::Char('?') => SessionView { previous_view: v.current_view, current_view: types::View::Help, view_offset: 0, ..v },
            Key::Tab => SessionView {
                filter_active: false,
                filter_query: Seq::empty(),
                filter_cursor: 0,
                current_view: types::View::ModuleList,
                view_offset: 0,
                selected_index: v.module_list_index,
                ..v
            },
            Key::Esc => if v.filter_query.len() > 0 {
                SessionView { filter_active: false, filter_query: Seq::empty(), filter_cursor: 0, selected_index: 0, ..v }
            } else {
                SessionView {
                    filter_active: false,
                    filter_query: Seq::empty(),
                    filter_cursor: 0,
                    current_view: types::View::ModuleList,
                    view_offset: 0,
                    selected_index: v.module_list_index,
                    ..v
                }
            },
            _ => v,
        }
    }
}

/// What a key does to the selection in the flat list.
pub open spec fn flat_selects(s: SessionView, set: PathSet, key: Key, prs: Seq<(usize, usize)>, q: Seq<char>) -> bool {
    let sel = s.selected_index;
    match key {
        Key::Char(' ') => if sel < prs.len() {
            let p = pair_path(s.modules, prs[sel as int]);
            if set.has(p) {
                set.has(q) && !path_eq(q, p)
            } else {
                path_eq(q, p) || (set.has(q) && !path_starts_with(q, p))
            }
        } else {
            set.has(q)
        },
        Key::Char('a') => selected_after_pairs(set, s.modules, prs, q),
        Key::Char('n') => set.has(q) && !in_pairs(s.modules, prs, q),
        _ => set.has(q),
    }
}

/// The effect of a key in the flat list.
pub open spec fn flat_effect(s: SessionView, key: Key, prs: Seq<(usize, usize)>, e: Effect) -> bool {
    let sel = s.selected_index;
    match key {
        Key::Enter => if sel < prs.len() && s.modules[prs[sel as int].0 as int].items@[prs[sel as int].1 as int].item_type
            == ItemType::Directory {
            e matches Effect::OpenDirectory { path, parent_selected_index } && path@ == pair_path(s.modules, prs[sel as int])
                && parent_selected_index == 0
        } else {
            e is Nothing
        },
        Key::Char('o') => if sel < prs.len() {
            e matches Effect::OpenInFileManager(p) && p@ == pair_path(s.modules, prs[sel as int])
        } else {
            e is Nothing
        },
        _ => e is Nothing,
    }
}

impl Session {
    /// The rows of the flat list.
    pub open spec fn flat_rows(&self) -> Seq<(usize, usize)> {
        spec_flat_order(self.modules@, self.filter_query@, self.filter_risk, self.filter_restore)
    }

    /// Keys of the flat list of all items.
    #[verifier::spinoff_prover]
    #[verifier::rlimit(60)]
    pub fn handle_key_flat_view(&mut self, key: Key) -> (r: Effect)
        requires
            old(self).wf(),
        ensures
            final(self).wf(),
            flat_view_post(*old(self), *final(self), key, r),
    {
        let sorted = sorted_flat_items(self.modules.as_slice(), self.filter_query.as_str(), &self.filter_risk, &self.filter_restore);
        let count = sorted.len();
        let sel = self.selected_index;
        if is_nav(key) {
            self.selected_index = nav(key, sel, count);
            return Effect::Nothing;
        }
        match key {
            Key::Char(' ') => {
                if sel < count {
                    let (mi, ii) = sorted[sel];
                    let path = self.modules[mi].items[ii].path.clone();
                    self.selected_items.toggle(path);
                }
                Effect::Nothing
            },
            Key::Char('a') => {
                let ghost s0 = self.selected_items;
                let mut k: usize = 0;
                while k < count
                    invariant
                        k <= count,
                        count == sorted@.len(),
                        sorted@ == old(self).flat_rows(),
                        pairs_valid(self.modules@, sorted@),
                        self@ == (SessionView { selected: self@.selected, ..old(self)@ }),
                        old(self).wf(),
                        self.selected_items.wf(),
                        forall|q: Seq<char>| #[trigger] self.selected_items.has(q) == selected_after_pairs(s0, self.modules@, sorted@.take(k as int), q),
                    decreases count - k,
                {
                    let (mi, ii) = sorted[k];
                    self.selected_items.select_replacing(self.modules[mi].items[ii].path.clone());
                    proof {
                        let t = sorted@.take(k + 1);
                        assert(t.drop_last() =~= sorted@.take(k as int));
                        assert(t.last() == sorted@[k as int]);
                    }
                    k = k + 1;
                }
                assert(sorted@.take(count as int) =~= sorted@);
                Effect::Nothing
            },
            Key::Char('n') => {
                let ghost s0 = self.selected_items;
                let mut k: usize = 0;
                while k < count
                    invariant
                        k <= count,
                        count == sorted@.len(),
                        sorted@ == old(self).flat_rows(),
                        pairs_valid(self.modules@, sorted@),
                        self@ == (SessionView { selected: self@.selected, ..old(self)@ }),
                        old(self).wf(),
                        self.selected_items.wf(),
                        forall|q: Seq<char>| #[trigger] self.selected_items.has(q) == (s0.has(q) && !in_pairs(self.modules@, sorted@.take(k as int), q)),
                    decreases count - k,
                {
                    let (mi, ii) = sorted[k];
                    self.selected_items.remove(self.modules[mi].items[ii].path.as_str());
                    proof {
                        let t = sorted@.take(k + 1);
                        assert forall|q: Seq<char>| #[trigger] in_pairs(self.modules@, t, q) == (in_pairs(self.modules@, sorted@.take(k as int), q)
                            || path_eq(pair_path(self.modules@, sorted@[k as int]), q)) by {
                            if in_pairs(self.modules@, t, q) {
                                let a = choose|a: int| 0 <= a < t.len() && path_eq(pair_path(self.modules@, #[trigger] t[a]), q);
                                if a < k {
                                    assert(sorted@.take(k as int)[a] == t[a]);
                                }
                            }
                            if in_pairs(self.modules@, sorted@.take(k as int), q) {
                                let a = choose|a: int| 0 <= a < k && path_eq(pair_path(self.modules@, #[trigger] sorted@.take(k as int)[a]), q);
                                assert(t[a] == sorted@.take(k as int)[a]);
                            }
                            if path_eq(pair_path(self.modules@, sorted@[k as int]), q) {
                                assert(t[k as int] == sorted@[k as int]);
                            }
                        }
                    }
                    k = k + 1;
                }
                assert(sorted@.take(count as int) =~= sorted@);
                Effect::Nothing
            },
            Key::Enter => {
                if sel < count {
                    let (mi, ii) = sorted[sel];
                    let is_dir = match self.modules[mi].items[ii].item_type {
                        ItemType::Directory => true,
                        ItemType::File => false,
                    };
                    if is_dir {
                        let path = self.modules[mi].items[ii].path.clone();
                        self.browser_origin = types::View::FlatView;
                        self.browser_module_idx = mi;
                        self.flat_view_index = sel;
                        self.set_view(types::View::FileBrowser);
                        self.clear_filter();
                        self.selected_index = 0;
                        return Effect::OpenDirectory { path, parent_selected_index: 0 };
                    }
                }
                Effect::Nothing
            },
            Key::Char('c') => {
                if !self.selected_items.is_empty() {
                    self.previous_view = self.current_view;
                    self.confirm_checked = self.selected_items.copy();
                    self.set_view(types::View::CleanupConfirm);
                    self.selected_index = 0;
                }
                Effect::Nothing
            },
            Key::Char('o') => {
                if sel < count {
                    let (mi, ii) = sorted[sel];
                    return Effect::OpenInFileManager(self.modules[mi].items[ii].path.clone());
                }
                Effect::Nothing
            },
            Key::Char('/') => {
                self.start_filter();
                Effect::Nothing
            },
            Key::Char('?') => {
                self.enter_overlay(types::View::Help);
                Effect::Nothing
            },
            Key::Tab => {
                self.clear_filter();
                self.set_view(types::View::ModuleList);
                self.selected_index = self.module_list_index;
                Effect::Nothing
            },
            Key::Esc => {
                if self.filter_query.as_str().unicode_len() > 0 {
                    self.clear_filter();
                    self.selected_index = 0;
                } else {
                    self.clear_filter();
                    self.set_view(types::View::ModuleList);
                    self.selected_index = self.module_list_index;
                }
                Effect::Nothing
            },
            _ => Effect::Nothing,
        }
    }
}

// ---------------------------------------------------------------------------
// An opened directory
// ---------------------------------------------------------------------------

/// The items of the open directory (none when nothing is open).
pub open spec fn browser_items(v: SessionView) -> Seq<Item> {
    if v.drill_levels.len() > 0 {
        v.drill_levels.last().items@
    } else {
        Seq::empty()
    }
}

/// The rows of the open directory.
pub open spec fn browser_rows(v: SessionView) -> Seq<usize> {
    if v.drill_levels.len() > 0 {
        spec_item_order(v.drill_levels.last().items@, v.filter_query)
    } else {
        Seq::empty()
    }
}

/// Going back from the file browser to the view it was opened from.
pub open spec fn return_from_browser(v: SessionView, parent_idx: usize) -> SessionView {
    match v.browser_origin {
        types::View::FlatView => SessionView {
            current_view: types::View::FlatView,
            view_offset: 0,
            selected_index: v.flat_view_index,
            ..v
        },
        types::View::ModuleDetail(idx) => SessionView {
            current_view: types::View::ModuleDetail(idx),
            view_offset: 0,
            selected_index: parent_idx,
            ..v
        },
        _ => SessionView { current_view: types::View::ModuleList, view_offset: 0, selected_index: v.module_list_index, ..v },
    }
}

/// Closing a level of the file browser: the level goes; back in the level
/// below at the row it was opened from, or, when none is left, back to the
/// view the browser was opened from.
pub open spec fn browser_back(v: SessionView) -> SessionView {
    let cleared = SessionView { filter_active: false, filter_query: Seq::empty(), filter_cursor: 0, ..v };
    if v.drill_levels.len() > 0 {
        let parent = v.drill_levels.last().parent_selected_index;
        let popped = SessionView { drill_levels: v.drill_levels.drop_last(), ..cleared };
        if v.drill_levels.len() > 1 {
            SessionView { selected_index: parent, ..popped }
        } else {
            return_from_browser(popped, parent)
        }
    } else {
        return_from_browser(cleared, 0)
    }
}

/// What a key does in the file browser, except to the selection and the
/// drill cache.
pub open spec fn browser_step(v: SessionView, key: Key) -> SessionView {
    let sel = v.selected_index;
    let rows = browser_rows(v);
    let items = browser_items(v);
    if is_nav_key(key) {
        SessionView { selected_index: nav_target(key, sel, rows.len() as usize), ..v }
    } else {
        match key {
            Key::Enter => if sel < rows.len() && items[rows[sel as int] as int].item_type == ItemType::Directory {
                SessionView { filter_active: false, filter_query: Seq::empty(), filter_cursor: 0, selected_index: 0, ..v }
            } else {
                v
            },
            Key::Char('c') => if v.selected.len() > 0 {
                SessionView {
                    previous_view: v.current_view,
                    checked: v.selected,
                    current_view: types::View::CleanupConfirm,
                    view_offset: 0,
                    selected_index: 0,
                    ..v
                }
            } else {
                v
            },
            Key::Char('/') => SessionView { filter_active: true, filter_query: Seq::empty(), filter_cursor: 0, selected_index: 0, ..v },
            Key::Char('?') => SessionView { previous_view: v.current_view, current_view: types::View::Help, view_offset: 0, ..v },
            Key::Esc => if v.filter_query.len() > 0 {
                SessionView { filter_active: false, filter_query: Seq::empty(), filter_cursor: 0, selected_index: 0, ..v }
            } else {
                browser_back(v)
            },
            Key::Backspace => browser_back(v),
            _ => v,
        }
    }
}

/// What a key does to the selection in the file browser.
pub open spec fn browser_selects(v: SessionView, set: PathSet, key: Key, q: Seq<char>) -> bool {
    let sel = v.selected_index;
    let rows = browser_rows(v);
    let items = browser_items(v);
    match key {
        Key::Char(' ') => if sel < rows.len() {
            let p = items[rows[sel as int] as int].path@;
            if set.has(p) {
                set.has(q) && !path_eq(q, p)
            } else {
                path_eq(q, p) || (set.has(q) && !path_starts_with(q, p))
            }
        } else {
            set.has(q)
        },
        Key::Char('a') => selected_after_all(set, items, q),
        Key::Char('n') => set.has(q) && !in_items(items, q),
        _ => set.has(q),
    }
}

/// What the drill cache holds after caching each item in turn.
pub open spec fn cached_after_all(c0: Seq<(String, (Option<u64>, SafetyLevel))>, items: Seq<Item>, q: Seq<char>) -> Option<(Option<u64>, SafetyLevel)>
    decreases items.len(),
{
    if items.len() == 0 {
        assoc(c0, q)
    } else if path_eq(q, items.last().path@) {
        Some((items.last().size, items.last().safety_level))
    } else {
        cached_after_all(c0, items.drop_last(), q)
    }
}

/// What a key does to the drill cache in the file browser: what is
/// selected is cached, what is unselected is dropped.
pub open spec fn browser_caches(v: SessionView, set: PathSet, key: Key, q: Seq<char>) -> Option<(Option<u64>, SafetyLevel)> {
    let sel = v.selected_index;
    let rows = browser_rows(v);
    let items = browser_items(v);
    let c0 = v.drill_cache;
    match key {
        Key::Char(' ') => if sel < rows.len() {
            let it = items[rows[sel as int] as int];
            if path_eq(q, it.path@) {
                if set.has(it.path@) {
                    None
                } else {
                    Some((it.size, it.safety_level))
                }
            } else {
                assoc(c0, q)
            }
        } else {
            assoc(c0, q)
        },
        Key::Char('a') => cached_after_all(c0, items, q),
        Key::Char('n') => if in_items(items, q) {
            None
        } else {
            assoc(c0, q)
        },
        _ => assoc(c0, q),
    }
}

/// The effect of a key in the file browser.
pub open spec fn browser_effect(v: SessionView, key: Key, e: Effect) -> bool {
    let sel = v.selected_index;
    let rows = browser_rows(v);
    let items = browser_items(v);
    match key {
        Key::Enter => if sel < rows.len() && items[rows[sel as int] as int].item_type == ItemType::Directory {
            e matches Effect::OpenDirectory { path, parent_selected_index } && path@ == items[rows[sel as int] as int].path@
                && parent_selected_index == sel
        } else {
            e is Nothing
        },
        Key::Char('o') => if sel < rows.len() {
            e matches Effect::OpenInFileManager(p) && p@ == items[rows[sel as int] as int].path@
        } else {
            e is Nothing
        },
        _ => e is Nothing,
    }
}

impl Session {
    /// Goes back to the view the file browser was opened from.
    fn return_from_file_browser(&mut self, parent_idx: usize)
        ensures
            final(self)@ == return_from_browser(old(self)@, parent_idx),
    {
        match self.browser_origin {
            types::View::FlatView => {
                self.set_view(types::View::FlatView);
                self.selected_index = self.flat_view_index;
            },
            types::View::ModuleDetail(idx) => {
                self.set_view(types::View::ModuleDetail(idx));
                self.selected_index = parent_idx;
            },
            _ => {
                self.set_view(types::View::ModuleList);
                self.selected_index = self.module_list_index;
            },
        }
    }

    fn browser_go_back(&mut self)
        requires
            old(self).wf(),
        ensures
            final(self).wf(),
            final(self)@ == browser_back(old(self)@),
    {
        match self.drill.pop() {
            Some(parent_idx) => {
                self.clear_filter();
                if self.drill.is_active() {
                    self.selected_index = parent_idx;
                } else {
                    self.return_from_file_browser(parent_idx);
                }
            },
            None => {
                self.clear_filter();
                self.return_from_file_browser(0);
            },
        }
    }

    /// Opens a directory listed by the caller (after `Effect::OpenDirectory`)
    /// as a new level of the file browser.
    pub fn open_directory(&mut self, path: String, children: Vec<Item>, parent_selected_index: usize)
        requires
            old(self).wf(),
        ensures
            final(self).wf(),
            final(self)@ == (SessionView { drill_levels: final(self)@.drill_levels, ..old(self)@ }),
            final(self)@.drill_levels.drop_last() == old(self)@.drill_levels,
            final(self)@.drill_levels.last().path == path,
            final(self)@.drill_levels.last().items == children,
            final(self)@.drill_levels.last().parent_selected_index == parent_selected_index,
    {
        self.drill.push(path, children, parent_selected_index);
    }

    /// Keys of the file browser (an opened directory).
    #[verifier::spinoff_prover]
    #[verifier::rlimit(60)]
    pub fn handle_key_file_browser(&mut self, key: Key) -> (r: Effect)
        requires
            old(self).wf(),
        ensures
            final(self).wf(),
            file_browser_post(*old(self), *final(self), key, r),
    {
        let active = self.drill.is_active();
        let sorted: Vec<usize> = match self.drill.current_items() {
            Some(items) => sorted_item_indices(items, self.filter_query.as_str()),
            None => Vec::new(),
        };
        proof {
            if self.drill.levels().len() > 0 {
                crate::ranking::lemma_item_order_bound(self.drill.levels().last().items@, self.filter_query@);
            }
        }
        let count = sorted.len();
        let sel = self.selected_index;
        if is_nav(key) {
            self.selected_index = nav(key, sel, count);
            return Effect::Nothing;
        }
        let depth = self.drill.depth();
        match key {
            Key::Char(' ') => {
                if sel < count {
                    let items = self.drill.items_or(&[]);
                    let it = &items[sorted[sel]];
                    let path = it.path.clone();
                    let meta = (it.size, it.safety_level);
                    let path2 = path.clone();
                    if self.selected_items.remove(path.as_str()) {
                        self.drill.uncache_selection(path.as_str());
                    } else {
                        self.selected_items.select_replacing(path);
                        self.drill.cache_selection(path2, meta);
                    }
                }
                Effect::Nothing
            },
            Key::Char('a') => {
                if active {
                    self.browser_select_all();
                }
                Effect::Nothing
            },
            Key::Char('n') => {
                if active {
                    self.browser_unselect_all();
                }
                Effect::Nothing
            },
            Key::Enter => {
                if sel < count {
                    let items = self.drill.items_or(&[]);
                    let it = &items[sorted[sel]];
                    let is_dir = match it.item_type {
                        ItemType::Directory => true,
                        ItemType::File => false,
                    };
                    if is_dir {
                        let path = it.path.clone();
                        self.clear_filter();
                        self.selected_index = 0;
                        return Effect::OpenDirectory { path, parent_selected_index: sel };
                    }
                }
                Effect::Nothing
            },
            Key::Char('c') => {
                if !self.selected_items.is_empty() {
                    self.previous_view = self.current_view;
                    self.confirm_checked = self.selected_items.copy();
                    self.set_view(types::View::CleanupConfirm);
                    self.selected_index = 0;
                }
                Effect::Nothing
            },
            Key::Char('o') => {
                if sel < count {
                    let items = self.drill.items_or(&[]);
                    return Effect::OpenInFileManager(items[sorted[sel]].path.clone());
                }
                Effect::Nothing
            },
            Key::Char('/') => {
                self.start_filter();
                Effect::Nothing
            },
            Key::Char('?') => {
                self.enter_overlay(types::View::Help);
                Effect::Nothing
            },
            Key::Esc => {
                if self.filter_query.as_str().unicode_len() > 0 {
                    self.clear_filter();
                    self.selected_index = 0;
                } else {
                    self.browser_go_back();
                }
                Effect::Nothing
            },
            Key::Backspace => {
                self.browser_go_back();
                Effect::Nothing
            },
            _ => Effect::Nothing,
        }
    }
}

impl Session {
    /// Selects every item of the open directory (each in place of what lies
    /// below it) and caches what is known of it.
    fn browser_select_all(&mut self)
        requires
            old(self).wf(),
            old(self)@.drill_levels.len() > 0,
        ensures
            final(self).wf(),
            final(self)@ == (SessionView { selected: final(self)@.selected, drill_cache: final(self)@.drill_cache, ..old(self)@ }),
            forall|q: Seq<char>| #[trigger] final(self).selected_items.has(q) == selected_after_all(old(self).selected_items, browser_items(old(self)@), q),
            forall|q: Seq<char>| #[trigger] assoc(final(self)@.drill_cache, q) == cached_after_all(old(self)@.drill_cache, browser_items(old(self)@), q),
    {
                    let snapshot = self.drill.current_paths_and_meta();
                    let ghost s0 = self.selected_items;
                    let ghost c0 = self.drill.cache();
                    let ghost items = self.drill.levels().last().items@;
                    let mut k: usize = 0;
                    while k < snapshot.len()
                        invariant
                            k <= snapshot@.len(),
                            snapshot@.len() == items.len(),
                            forall|m: int| 0 <= m < items.len() ==> (#[trigger] snapshot@[m]).0@ == items[m].path@
                                && snapshot@[m].1 == items[m].size && snapshot@[m].2 == items[m].safety_level,
                            self@ == (SessionView { selected: self@.selected, drill_cache: self@.drill_cache, ..old(self)@ }),
                            old(self).wf(),
                            self.selected_items.wf(),
                            self.drill.wf(),
                            forall|q: Seq<char>| #[trigger] self.selected_items.has(q) == selected_after_all(s0, items.take(k as int), q),
                            forall|q: Seq<char>| #[trigger] assoc(self.drill.cache(), q) == cached_after_all(c0, items.take(k as int), q),
                        decreases snapshot@.len() - k,
                    {
                        let p = snapshot[k].0.clone();
                        let p2 = snapshot[k].0.clone();
                        let meta = (snapshot[k].1, snapshot[k].2);
                        self.selected_items.select_replacing(p);
                        self.drill.cache_selection(p2, meta);
                        proof {
                            let t = items.take(k + 1);
                            assert(t.drop_last() =~= items.take(k as int));
                            assert(t.last() == items[k as int]);
                        }
                        k = k + 1;
                    }
                    assert(items.take(items.len() as int) =~= items);
                }

    /// Unselects every item of the open directory and drops it from the
    /// cache.
    fn browser_unselect_all(&mut self)
        requires
            old(self).wf(),
            old(self)@.drill_levels.len() > 0,
        ensures
            final(self).wf(),
            final(self)@ == (SessionView { selected: final(self)@.selected, drill_cache: final(self)@.drill_cache, ..old(self)@ }),
            forall|q: Seq<char>| #[trigger] final(self).selected_items.has(q) == (old(self).selected_items.has(q) && !in_items(browser_items(old(self)@), q)),
            forall|q: Seq<char>| #[trigger] assoc(final(self)@.drill_cache, q) == if in_items(browser_items(old(self)@), q) {
                None
            } else {
                assoc(old(self)@.drill_cache, q)
            },
    {
                    let snapshot = self.drill.current_paths_and_meta();
                    let ghost s0 = self.selected_items;
                    let ghost c0 = self.drill.cache();
                    let ghost items = self.drill.levels().last().items@;
                    let mut k: usize = 0;
                    while k < snapshot.len()
                        invariant
                            k <= snapshot@.len(),
                            snapshot@.len() == items.len(),
                            forall|m: int| 0 <= m < items.len() ==> (#[trigger] snapshot@[m]).0@ == items[m].path@,
                            self@ == (SessionView { selected: self@.selected, drill_cache: self@.drill_cache, ..old(self)@ }),
                            old(self).wf(),
                            self.selected_items.wf(),
                            self.drill.wf(),
                            forall|q: Seq<char>| #[trigger] self.selected_items.has(q) == (s0.has(q) && !in_items(items.take(k as int), q)),
                            forall|q: Seq<char>| #[trigger] assoc(self.drill.cache(), q) == if in_items(items.take(k as int), q) {
                                None
                            } else {
                                assoc(c0, q)
                            },
                        decreases snapshot@.len() - k,
                    {
                        self.selected_items.remove(snapshot[k].0.as_str());
                        self.drill.uncache_selection(snapshot[k].0.as_str());
                        proof {
                            let t = items.take(k + 1);
                            assert forall|q: Seq<char>| #[trigger] in_items(t, q) == (in_items(items.take(k as int), q) || path_eq(items[k as int].path@, q)) by {
                                if in_items(t, q) {
                                    let a = choose|a: int| 0 <= a < t.len() && path_eq(#[trigger] t[a].path@, q);
                                    if a < k {
                                        assert(items.take(k as int)[a] == t[a]);
                                    }
                                }
                                if in_items(items.take(k as int), q) {
                                    let a = choose|a: int| 0 <= a < k && path_eq(#[trigger] items.take(k as int)[a].path@, q);
                                    assert(t[a] == items.take(k as int)[a]);
                                }
                                if path_eq(items[k as int].path@, q) {
                                    assert(t[k as int] == items[k as int]);
                                }
                            }
                        }
                        k = k + 1;
                    }
                    assert(items.take(items.len() as int) =~= items);
                }
}

// ---------------------------------------------------------------------------
// The confirmation list
// ---------------------------------------------------------------------------

impl Session {
    /// The rows of the confirmation list shown for the query.
    pub open spec fn confirm_rows(&self) -> Seq<crate::confirm::ConfirmView> {
        matching_rows(spec_confirm_rows(self.modules@, self.selected_items.entries(), self.drill.levels(), self.drill.cache()), self.filter_query@)
    }
}

/// What a key does in the confirmation list, except to the checked set.
pub open spec fn confirm_step(v: SessionView, key: Key, count: nat, irreversible: nat) -> SessionView {
    let sel = v.selected_index;
    if is_nav_key(key) {
        SessionView { selected_index: nav_target(key, sel, count as usize), ..v }
    } else {
        match key {
            Key::Enter => if v.checked.len() > 0 {
                SessionView { cleanup_action_dialog: true, cleanup_action_cursor: 0, ..v }
            } else {
                v
            },
            Key::Esc => if v.filter_query.len() > 0 {
                SessionView { filter_active: false, filter_query: Seq::empty(), filter_cursor: 0, selected_index: 0, ..v }
            } else {
                SessionView {
                    filter_active: false,
                    filter_query: Seq::empty(),
                    filter_cursor: 0,
                    current_view: v.previous_view,
                    view_offset: 0,
                    selected_index: 0,
                    ..v
                }
            },
            Key::Char('n') => SessionView {
                filter_active: false,
                filter_query: Seq::empty(),
                filter_cursor: 0,
                current_view: v.previous_view,
                view_offset: 0,
                selected_index: 0,
                ..v
            },
            Key::Char('t') => if irreversible > 0 {
                SessionView { irreversible_prompt: true, ..v }
            } else {
                v
            },
            Key::Char('?') => SessionView { previous_view: v.current_view, current_view: types::View::Help, view_offset: 0, ..v },
            Key::Char('/') => SessionView { filter_active: true, filter_query: Seq::empty(), filter_cursor: 0, selected_index: 0, ..v },
            _ => v,
        }
    }
}

/// What a key does to the checked set: space toggles the row under the
/// cursor; `a` unchecks everything when everything selected is checked,
/// else checks everything selected; cancelling with `n`, and leaving with
/// Esc when there is no query, uncheck everything (the selection stays).
pub open spec fn confirm_checks(s: Session, key: Key, q: Seq<char>) -> bool {
    let rows = s.confirm_rows();
    let sel = s.selected_index;
    let all_checked = s.confirm_checked.entries().len() == s.selected_items.entries().len()
        && forall|x: Seq<char>| #[trigger] s.confirm_checked.has(x) == s.selected_items.has(x);
    match key {
        Key::Char(' ') => if sel < rows.len() {
            let p = rows[sel as int].path;
            if s.confirm_checked.has(p) {
                s.confirm_checked.has(q) && !path_eq(q, p)
            } else {
                s.confirm_checked.has(q) || path_eq(q, p)
            }
        } else {
            s.confirm_checked.has(q)
        },
        Key::Char('a') => if all_checked {
            false
        } else {
            s.selected_items.has(q)
        },
        Key::Char('n') => false,
        Key::Esc => if s.filter_query@.len() > 0 {
            s.confirm_checked.has(q)
        } else {
            false
        },
        _ => s.confirm_checked.has(q),
    }
}

/// The effect of a key in the confirmation list: `t` trashes and `d`
/// deletes the checked items, when there are any; `t` asks first, and
/// starts nothing, when some checked item cannot be trashed.
pub open spec fn confirm_effect(v: SessionView, key: Key, irreversible: nat, e: Effect) -> bool {
    match key {
        Key::Char('t') => if irreversible > 0 {
            e is Nothing
        } else if v.checked.len() > 0 {
            e matches Effect::StartCleanup { permanent } && !permanent
        } else {
            e is Nothing
        },
        Key::Char('d') => if v.checked.len() > 0 {
            e matches Effect::StartCleanup { permanent } && permanent
        } else {
            e is Nothing
        },
        _ => e is Nothing,
    }
}

impl Session {
    /// Keys of the confirmation list.
    #[verifier::spinoff_prover]
    pub fn handle_key_cleanup_confirm(&mut self, key: Key) -> (r: Effect)
        requires
            old(self).wf(),
        ensures
            final(self).wf(),
            cleanup_confirm_post(*old(self), *final(self), key, r),
    {
        let all = collect_selected_items(self.modules.as_slice(), &self.selected_items, &self.drill);
        let visible = visible_confirm_items(all, self.filter_query.as_str());
        let count = visible.len();
        let sel = self.selected_index;
        if is_nav(key) {
            self.selected_index = nav(key, sel, count);
            return Effect::Nothing;
        }
        match key {
            Key::Char(' ') => {
                if sel < count {
                    let p = visible[sel].path.clone();
                    assert(p@ == rows(visible@)[sel as int].path);
                    if !self.confirm_checked.remove(p.as_str()) {
                        self.confirm_checked.insert(p);
                    }
                }
                Effect::Nothing
            },
            Key::Char('a') => {
                if self.confirm_checked.same_paths(&self.selected_items) {
                    self.confirm_checked.clear();
                } else {
                    self.confirm_checked = self.selected_items.copy();
                    proof {
                        assert forall|q: Seq<char>| #[trigger] self.confirm_checked.has(q) == old(self).selected_items.has(q) by {}
                    }
                }
                Effect::Nothing
            },
            Key::Char('n') => {
                self.clear_filter();
                self.confirm_checked.clear();
                let back = self.previous_view;
                self.set_view(back);
                self.selected_index = 0;
                Effect::Nothing
            },
            Key::Char('t') => self.request_trash(),
            Key::Char('d') => {
                if !self.confirm_checked.is_empty() {
                    return Effect::StartCleanup { permanent: true };
                }
                Effect::Nothing
            },
            Key::Enter => {
                if !self.confirm_checked.is_empty() {
                    self.cleanup_action_dialog = true;
                    self.cleanup_action_cursor = 0;
                }
                Effect::Nothing
            },
            Key::Esc => {
                if self.filter_query.as_str().unicode_len() > 0 {
                    self.clear_filter();
                    self.selected_index = 0;
                } else {
                    self.clear_filter();
                    self.confirm_checked.clear();
                    let back = self.previous_view;
                    self.set_view(back);
                    self.selected_index = 0;
                }
                Effect::Nothing
            },
            Key::Char('?') => {
                self.enter_overlay(types::View::Help);
                Effect::Nothing
            },
            Key::Char('/') => {
                self.start_filter();
                Effect::Nothing
            },
            _ => Effect::Nothing,
        }
    }

    /// Starts a cleanup of the checked items: they leave the selection, the
    /// checked set empties, the progress view opens; gives the paths to
    /// remove, or `None` (and changes nothing) when none is checked.
    pub fn begin_cleanup(&mut self, permanent: bool) -> (r: Option<Vec<String>>)
        requires
            old(self).wf(),
        ensures
            final(self).wf(),
            old(self)@.checked.len() == 0 ==> r is None && final(self)@ == old(self)@,
            old(self)@.checked.len() > 0 ==> {
                &&& r matches Some(paths) && paths@ == old(self)@.checked
                &&& final(self)@ == (SessionView {
                    selected: final(self)@.selected,
                    checked: final(self)@.checked,
                    cleanup_progress: Some((old(self)@.checked.len() as usize, 0usize, None, permanent, false)),
                    filter_active: false,
                    filter_query: Seq::empty(),
                    filter_cursor: 0,
                    current_view: types::View::CleanupProgress,
                    view_offset: 0,
                    ..old(self)@
                })
                &&& final(self)@.checked.len() == 0
                &&& forall|q: Seq<char>| #[trigger] final(self).selected_items.has(q) == (old(self).selected_items.has(q)
                    && !old(self).confirm_checked.has(q))
            },
    {
        let total = self.confirm_checked.len();
        if total == 0 {
            return None;
        }
        let src = self.confirm_checked.paths();
        let mut paths: Vec<String> = Vec::new();
        let mut i: usize = 0;
        while i < src.len()
            invariant
                i <= src@.len(),
                paths@ == src@.take(i as int),
            decreases src@.len() - i,
        {
            paths.push(src[i].clone());
            assert(paths@ =~= src@.take(i + 1));
            i = i + 1;
        }
        assert(src@.take(src@.len() as int) =~= src@);
        self.selected_items.remove_all_of(&self.confirm_checked);
        self.confirm_checked.clear();
        self.cleanup_progress = Some(CleanupProgressState {
            total,
            done: 0,
            current_path: None,
            permanent,
            halted: false,
        });
        self.clear_filter();
        self.set_view(types::View::CleanupProgress);
        Some(paths)
    }
}

// ---------------------------------------------------------------------------
// The module information overlay
// ---------------------------------------------------------------------------

/// The directory of a module's manifest.
pub open spec fn manifest_dir(ms: ModuleState) -> Option<Seq<char>> {
    match ms.manifest_path {
        Some(p) => parent_path(p@),
        None => None,
    }
}

/// Whether a module has an update waiting.
pub open spec fn has_update(ms: ModuleState) -> bool {
    match ms.update_status {
        Some(types::ModuleUpdateStatus::UpdateAvailable { .. }) => true,
        Some(types::ModuleUpdateStatus::NewerTagAvailable { .. }) => true,
        _ => false,
    }
}

/// `a` without going over `b`.
pub open spec fn at_most(a: usize, b: usize) -> usize {
    if a <= b {
        a
    } else {
        b
    }
}

/// The state after the module at `idx` is removed: back to the module list,
/// positions clamped to the modules left.
pub open spec fn after_removal(v: SessionView, idx: usize) -> SessionView {
    let left = v.modules.remove(idx as int);
    let max_idx: usize = if left.len() > 0 { (left.len() - 1) as usize } else { 0 };
    SessionView {
        modules: left,
        info_confirm_remove: false,
        previous_view: types::View::ModuleList,
        current_view: types::View::ModuleList,
        view_offset: 0,
        selected_index: at_most(v.selected_index, max_idx),
        module_list_index: at_most(v.module_list_index, max_idx),
        browser_module_idx: if v.browser_module_idx > idx {
            (v.browser_module_idx - 1) as usize
        } else if v.browser_module_idx == idx {
            0
        } else {
            v.browser_module_idx
        },
        ..v
    }
}

/// What a key does in the information overlay of module `idx`. While a
/// removal is being confirmed, `y` removes the module, `n` or Esc cancel.
/// While the update prompt is open, up and down move its cursor (within
/// its three choices), Enter answers it and Esc cancels it. Otherwise Esc
/// or `i` close the overlay and `r` asks to confirm a removal.
pub open spec fn info_step(v: SessionView, key: Key, idx: usize) -> SessionView {
    if v.info_confirm_remove {
        match key {
            Key::Char('y') => after_removal(v, idx),
            Key::Char('n') | Key::Esc => SessionView { info_confirm_remove: false, ..v },
            _ => v,
        }
    } else {
        match v.info_confirm_update {
            Some(pr) => match key {
                Key::Up | Key::Char('k') => SessionView {
                    info_confirm_update: Some((pr.0, pr.1, if pr.2 > 0 { (pr.2 - 1) as usize } else { 0 })),
                    ..v
                },
                Key::Down | Key::Char('j') => SessionView {
                    info_confirm_update: Some((pr.0, pr.1, if pr.2 + 1 < 2 { (pr.2 + 1) as usize } else { 2 })),
                    ..v
                },
                Key::Enter | Key::Esc => SessionView { info_confirm_update: None, ..v },
                _ => v,
            },
            None => match key {
                Key::Esc | Key::Char('i') => SessionView {
                    current_view: v.previous_view,
                    view_offset: 0,
                    selected_index: 0,
                    ..v
                },
                Key::Char('r') => SessionView { info_confirm_remove: true, ..v },
                _ => v,
            },
        }
    }
}

/// The effect of a key in the information overlay of module `idx`.
pub open spec fn info_effect(v: SessionView, key: Key, idx: usize, e: Effect) -> bool {
    let ms = v.modules[idx as int];
    if v.info_confirm_remove {
        match key {
            Key::Char('y') => e matches Effect::RemoveModuleFiles(d) && crate::handlers::opt_view(d) == manifest_dir(ms),
            _ => e is Nothing,
        }
    } else {
        match v.info_confirm_update {
            Some(pr) => match key {
                Key::Enter => if pr.2 == 0 {
                    e matches Effect::UpdateModules(list) && list@ == seq![pr.0] + pr.1
                } else if pr.2 == 1 {
                    e matches Effect::UpdateModules(list) && list@ == seq![pr.0]
                } else {
                    e is Nothing
                },
                _ => e is Nothing,
            },
            None => match key {
                Key::Char('e') => match ms.manifest_path {
                    Some(p) => e matches Effect::EditManifest(x) && x@ == p@,
                    None => e is Nothing,
                },
                Key::Char('o') => match manifest_dir(ms) {
                    Some(d) => e matches Effect::OpenInFileManager(x) && x@ == d,
                    None => e is Nothing,
                },
                Key::Char('u') => if has_update(ms) {
                    e matches Effect::CheckSiblings(i) && i == idx
                } else {
                    e is Nothing
                },
                _ => e is Nothing,
            },
        }
    }
}

proof fn lemma_sizes_fit_remove(ms: Seq<ModuleState>, i: int)
    requires
        all_sizes_fit(ms),
        0 <= i < ms.len(),
    ensures
        all_sizes_fit(ms.remove(i)),
{
    assert forall|k: int| 0 <= k < ms.remove(i).len() implies crate::ranking::sizes_fit(#[trigger] ms.remove(i)[k].items@) by {
        if k < i {
            assert(ms.remove(i)[k] == ms[k]);
        } else {
            assert(ms.remove(i)[k] == ms[k + 1]);
        }
    }
}

fn manifest_dir_exec(ms: &ModuleState) -> (r: Option<String>)
    ensures
        crate::handlers::opt_view(r) == manifest_dir(*ms),
{
    match &ms.manifest_path {
        Some(p) => {
            let pc = crate::text::chars_of(p.as_str());
            match parent_of(pc.as_slice()) {
                Some(d) => Some(crate::text::string_of(d.as_slice())),
                None => None,
            }
        },
        None => None,
    }
}

impl Session {
    /// Keys of the information overlay of module `idx` (nothing happens
    /// for a module that is gone).
    #[verifier::spinoff_prover]
    pub fn handle_key_info(&mut self, key: Key, idx: usize) -> (r: Effect)
        requires
            old(self).wf(),
        ensures
            final(self).wf(),
            info_post(*old(self), *final(self), key, idx, r),
    {
        if idx >= self.modules.len() {
            return Effect::Nothing;
        }
        if self.info_confirm_remove {
            match key {
                Key::Char('y') => {
                    let dir = manifest_dir_exec(&self.modules[idx]);
                    proof {
                        lemma_sizes_fit_remove(self.modules@, idx as int);
                    }
                    self.modules.remove(idx);
                    self.info_confirm_remove = false;
                    self.previous_view = types::View::ModuleList;
                    self.set_view(types::View::ModuleList);
                    let n = self.modules.len();
                    let max_idx: usize = if n > 0 { n - 1 } else { 0 };
                    if self.selected_index > max_idx {
                        self.selected_index = max_idx;
                    }
                    if self.module_list_index > max_idx {
                        self.module_list_index = max_idx;
                    }
                    if self.browser_module_idx > idx {
                        self.browser_module_idx = self.browser_module_idx - 1;
                    } else if self.browser_module_idx == idx {
                        self.browser_module_idx = 0;
                    }
                    return Effect::RemoveModuleFiles(dir);
                },
                Key::Char('n') | Key::Esc => {
                    self.info_confirm_remove = false;
                },
                _ => {},
            }
            return Effect::Nothing;
        }
        let pending = self.info_confirm_update.take();
        match pending {
            Some(mut prompt) => {
                match key {
                    Key::Up | Key::Char('k') => {
                        prompt.selected = if prompt.selected > 0 { prompt.selected - 1 } else { 0 };
                        self.info_confirm_update = Some(prompt);
                        Effect::Nothing
                    },
                    Key::Down | Key::Char('j') => {
                        prompt.selected = if prompt.selected < 1 { prompt.selected + 1 } else { 2 };
                        self.info_confirm_update = Some(prompt);
                        Effect::Nothing
                    },
                    Key::Enter => {
                        if prompt.selected == 0 {
                            let mut all: Vec<usize> = Vec::new();
                            all.push(prompt.current_idx);
                            let mut k: usize = 0;
                            while k < prompt.sibling_indices.len()
                                invariant
                                    k <= prompt.sibling_indices@.len(),
                                    all@ == seq![prompt.current_idx] + prompt.sibling_indices@.take(k as int),
                                decreases prompt.sibling_indices@.len() - k,
                            {
                                all.push(prompt.sibling_indices[k]);
                                assert(all@ =~= seq![prompt.current_idx] + prompt.sibling_indices@.take(k + 1));
                                k = k + 1;
                            }
                            assert(prompt.sibling_indices@.take(prompt.sibling_indices@.len() as int) =~= prompt.sibling_indices@);
                            Effect::UpdateModules(all)
                        } else if prompt.selected == 1 {
                            let mut one: Vec<usize> = Vec::new();
                            one.push(prompt.current_idx);
                            assert(one@ =~= seq![prompt.current_idx]);
                            Effect::UpdateModules(one)
                        } else {
                            Effect::Nothing
                        }
                    },
                    Key::Esc => Effect::Nothing,
                    _ => {
                        self.info_confirm_update = Some(prompt);
                        Effect::Nothing
                    },
                }
            },
            None => {
                match key {
                    Key::Esc | Key::Char('i') => {
                        self.leave_overlay();
                        Effect::Nothing
                    },
                    Key::Char('e') => {
                        match &self.modules[idx].manifest_path {
                            Some(p) => Effect::EditManifest(p.clone()),
                            None => Effect::Nothing,
                        }
                    },
                    Key::Char('o') => {
                        match manifest_dir_exec(&self.modules[idx]) {
                            Some(d) => Effect::OpenInFileManager(d),
                            None => Effect::Nothing,
                        }
                    },
                    Key::Char('r') => {
                        self.info_confirm_remove = true;
                        Effect::Nothing
                    },
                    Key::Char('u') => {
                        let update = match &self.modules[idx].update_status {
                            Some(types::ModuleUpdateStatus::UpdateAvailable { .. }) => true,
                            Some(types::ModuleUpdateStatus::NewerTagAvailable { .. }) => true,
                            _ => false,
                        };
                        if update {
                            Effect::CheckSiblings(idx)
                        } else {
                            Effect::Nothing
                        }
                    },
                    _ => Effect::Nothing,
                }
            },
        }
    }

    /// Answers `Effect::CheckSiblings`: with no other module of the same
    /// repository to update, updates module `idx` alone; else asks whether
    /// to update them too.
    pub fn ask_update(&mut self, idx: usize, siblings: Vec<usize>) -> (r: Effect)
        ensures
            siblings@.len() == 0 ==> final(self)@ == old(self)@ && (r matches Effect::UpdateModules(list) && list@ == seq![idx]),
            siblings@.len() > 0 ==> final(self)@ == (SessionView { info_confirm_update: Some((idx, siblings@, 0usize)), ..old(self)@ })
                && r is Nothing,
    {
        if siblings.len() == 0 {
            let mut one: Vec<usize> = Vec::new();
            one.push(idx);
            assert(one@ =~= seq![idx]);
            return Effect::UpdateModules(one);
        }
        self.info_confirm_update = Some(SiblingUpdatePrompt { current_idx: idx, sibling_indices: siblings, selected: 0 });
        Effect::Nothing
    }
}
// ---------------------------------------------------------------------------
// What each view does with a key
// ---------------------------------------------------------------------------

/// What a key typed in the filter bar does.
pub open spec fn filter_post(s0: Session, s1: Session, key: Key) -> bool {
    &&& match key {
        Key::Esc => s1@ == (SessionView {
            filter_active: false,
            filter_query: Seq::empty(),
            filter_cursor: 0,
            selected_index: 0,
            ..s0@
        }),
        Key::Enter => s1@ == (SessionView { filter_active: false, selected_index: 0, ..s0@ }),
        Key::Backspace => {
            let q = if s0@.filter_query.len() > 0 {
                s0@.filter_query.drop_last()
            } else {
                s0@.filter_query
            };
            s1@ == (SessionView {
                filter_query: q,
                filter_cursor: utf8_len(q) as usize,
                selected_index: 0,
                ..s0@
            })
        },
        Key::Char(c) => s1@ == (SessionView {
            filter_query: s0@.filter_query.push(c),
            filter_cursor: utf8_len(s0@.filter_query.push(c)) as usize,
            selected_index: 0,
            ..s0@
        }),
        _ => s1@ == s0@,
    }
}

/// What a key does in the help overlay.
pub open spec fn help_post(s0: Session, s1: Session, key: Key) -> bool {
    &&& (key == Key::Char('?') || key == Key::Esc) ==> s1@ == (SessionView {
        current_view: s0@.previous_view,
        view_offset: 0,
        selected_index: 0,
        ..s0@
    })
    &&& !(key == Key::Char('?') || key == Key::Esc) ==> s1@ == s0@
}

/// What a key does in the progress view.
pub open spec fn progress_post(s0: Session, s1: Session, key: Key, r: Effect) -> bool {
    &&& ({
        let halted = match s0.cleanup_progress {
            Some(p) => p.halted,
            None => false,
        };
        if halted {
            if key == Key::Char('q') {
                s1@ == (SessionView { should_quit: true, ..s0@ }) && r is Nothing
            } else {
                s1@ == (SessionView {
                    cleanup_progress: None,
                    checked: s1@.checked,
                    current_view: s0@.previous_view,
                    view_offset: 0,
                    selected_index: 0,
                    ..s0@
                }) && s1@.checked.len() == 0 && r is CleanupFinished
            }
        } else if key == Key::Char('q') || key == Key::Esc {
            s1@ == (SessionView {
                cleanup_progress: match s0@.cleanup_progress {
                    Some(p) => Some((p.0, p.1, p.2, p.3, true)),
                    None => None,
                },
                ..s0@
            }) && r is HaltCleanup
        } else {
            s1@ == s0@ && r is Nothing
        }
    })
}

/// What a key does in the module list.
pub open spec fn module_list_post(s0: Session, s1: Session, key: Key) -> bool {
    &&& s1@ == (SessionView { selected: s1@.selected, ..module_list_step(s0@, key, s0.module_rows()) })
    &&& forall|q: Seq<char>| #[trigger] s1.selected_items.has(q) == module_list_selects(s0, key, q)
}

/// What a key does in a module's item list.
pub open spec fn module_detail_post(s0: Session, s1: Session, key: Key, r: Effect) -> bool {
    &&& match s0.current_view {
        types::View::ModuleDetail(mi) => if mi < s0.modules@.len() {
            let d = spec_display_order(s0.modules@[mi as int].items@, s0.filter_query@);
            &&& s1@ == (SessionView { selected: s1@.selected, ..detail_step(s0@, key, mi, d.0, d.1) })
            &&& forall|q: Seq<char>| #[trigger] s1.selected_items.has(q) == detail_selects(s0@, s0.selected_items, key, mi, d.0, q)
            &&& detail_effect(s0@, key, mi, d.0, r)
        } else {
            s1@ == s0@ && r is Nothing
        },
        _ => s1@ == s0@ && r is Nothing,
    }
}

/// What a key does in the flat list.
pub open spec fn flat_view_post(s0: Session, s1: Session, key: Key, r: Effect) -> bool {
    &&& s1@ == (SessionView { selected: s1@.selected, ..flat_step(s0@, key, s0.flat_rows()) })
    &&& forall|q: Seq<char>| #[trigger] s1.selected_items.has(q) == flat_selects(s0@, s0.selected_items, key, s0.flat_rows(), q)
    &&& flat_effect(s0@, key, s0.flat_rows(), r)
}

/// What a key does in the file browser.
pub open spec fn file_browser_post(s0: Session, s1: Session, key: Key, r: Effect) -> bool {
    &&& s1@ == (SessionView {
        selected: s1@.selected,
        drill_cache: s1@.drill_cache,
        ..browser_step(s0@, key)
    })
    &&& forall|q: Seq<char>| #[trigger] s1.selected_items.has(q) == browser_selects(s0@, s0.selected_items, key, q)
    &&& forall|q: Seq<char>| #[trigger] assoc(s1@.drill_cache, q) == browser_caches(s0@, s0.selected_items, key, q)
    &&& browser_effect(s0@, key, r)
}

/// What a key does in the confirmation list.
pub open spec fn cleanup_confirm_post(s0: Session, s1: Session, key: Key, r: Effect) -> bool {
    &&& s1@ == (SessionView { checked: s1@.checked, ..confirm_step(s0@, key, s0.confirm_rows().len(), s0.irreversible_rows()) })
    &&& forall|q: Seq<char>| #[trigger] s1.confirm_checked.has(q) == confirm_checks(s0, key, q)
    &&& confirm_effect(s0@, key, s0.irreversible_rows(), r)
}

/// What a key does in the information overlay of module `idx`.
pub open spec fn info_post(s0: Session, s1: Session, key: Key, idx: usize, r: Effect) -> bool {
    &&& idx < s0@.modules.len() ==> {
        &&& s1@ == info_step(s0@, key, idx)
        &&& info_effect(s0@, key, idx, r)
    }
    &&& idx >= s0@.modules.len() ==> s1@ == s0@ && r is Nothing
}

/// Where a key goes before any view sees it.
pub enum Route {
    /// Leave the program.
    Quit,
    /// Ctrl+C during a cleanup: as `q` in the progress view.
    HaltProgress,
    /// Typed into the active filter bar.
    Filter(Key),
    /// Handled by the current view.
    ToView(Key),
}

/// Where a key goes: Ctrl+C quits (during a cleanup it acts as `q` in the
/// progress view); Emacs control keys become arrows; while the filter bar
/// is active everything but the arrows is typed into it; otherwise `q`
/// quits, except in the progress view; anything else goes to the view.
pub open spec fn spec_route(v: SessionView, key: Key, ctrl: bool) -> Route {
    if ctrl && key == Key::Char('c') {
        if v.current_view == types::View::CleanupProgress {
            Route::HaltProgress
        } else {
            Route::Quit
        }
    } else {
        let k = spec_normalize(key, ctrl);
        if v.filter_active && !(k == Key::Down || k == Key::Up || k == Key::Left || k == Key::Right) {
            Route::Filter(k)
        } else if k == Key::Char('q') && !v.filter_active && v.current_view != types::View::CleanupProgress {
            Route::Quit
        } else {
            Route::ToView(k)
        }
    }
}

/// What a key does in the current view.
pub open spec fn view_post(s0: Session, s1: Session, k: Key, r: Effect) -> bool {
    match s0.current_view {
        types::View::ModuleList => module_list_post(s0, s1, k) && r is Nothing,
        types::View::ModuleDetail(_) => module_detail_post(s0, s1, k, r),
        types::View::CleanupConfirm => if s0.confirm_irreversible_prompt {
            crate::irreversible::prompt_post(s0, s1, k, r)
        } else {
            cleanup_confirm_post(s0, s1, k, r)
        },
        types::View::CleanupProgress => progress_post(s0, s1, k, r),
        types::View::Help => help_post(s0, s1, k) && r is Nothing,
        types::View::Info(idx) => info_post(s0, s1, k, idx, r),
        types::View::FlatView => flat_view_post(s0, s1, k, r),
        types::View::FileBrowser => file_browser_post(s0, s1, k, r),
        types::View::ModuleInstall => s1@ == s0@ && r is Nothing,
    }
}

/// What a key does.
pub open spec fn key_post(s0: Session, s1: Session, key: Key, ctrl: bool, r: Effect) -> bool {
    match spec_route(s0@, key, ctrl) {
        Route::Quit => s1@ == (SessionView { should_quit: true, ..s0@ }) && r is Nothing,
        Route::HaltProgress => progress_post(s0, s1, Key::Char('q'), r),
        Route::Filter(k) => filter_post(s0, s1, k) && r is Nothing,
        Route::ToView(k) => view_post(s0, s1, k, r),
    }
}

impl Session {
    /// Where a key goes.
    pub fn route(&self, key: Key, ctrl: bool) -> (r: Route)
        ensures
            r == spec_route(self@, key, ctrl),
    {
        if ctrl && key == Key::Char('c') {
            let in_progress = match self.current_view {
                types::View::CleanupProgress => true,
                _ => false,
            };
            if in_progress {
                Route::HaltProgress
            } else {
                Route::Quit
            }
        } else {
            let k = normalize_emacs_key(key, ctrl);
            let arrow = match k {
                Key::Down | Key::Up | Key::Left | Key::Right => true,
                _ => false,
            };
            let in_progress = match self.current_view {
                types::View::CleanupProgress => true,
                _ => false,
            };
            if self.filter_active && !arrow {
                Route::Filter(k)
            } else if k == Key::Char('q') && !self.filter_active && !in_progress {
                Route::Quit
            } else {
                Route::ToView(k)
            }
        }
    }

    /// Handles one key press; gives what the caller must do.
    pub fn handle_key(&mut self, key: Key, ctrl: bool) -> (r: Effect)
        requires
            old(self).wf(),
            utf8_len(old(self)@.filter_query) + 4 <= usize::MAX,
        ensures
            final(self).wf(),
            key_post(*old(self), *final(self), key, ctrl, r),
    {
        match self.route(key, ctrl) {
            Route::Quit => {
                self.should_quit = true;
                Effect::Nothing
            },
            Route::HaltProgress => self.handle_key_progress(Key::Char('q')),
            Route::Filter(k) => {
                self.handle_key_filter(k);
                Effect::Nothing
            },
            Route::ToView(k) => {
                match self.current_view {
                    types::View::ModuleList => {
                        self.handle_key_module_list(k);
                        Effect::Nothing
                    },
                    types::View::ModuleDetail(_) => self.handle_key_module_detail(k),
                    types::View::CleanupConfirm => if self.confirm_irreversible_prompt {
                        self.handle_key_irreversible_prompt(k)
                    } else {
                        self.handle_key_cleanup_confirm(k)
                    },
                    types::View::CleanupProgress => self.handle_key_progress(k),
                    types::View::Help => {
                        self.handle_key_help(k);
                        Effect::Nothing
                    },
                    types::View::Info(idx) => self.handle_key_info(k, idx),
                    types::View::FlatView => self.handle_key_flat_view(k),
                    types::View::FileBrowser => self.handle_key_file_browser(k),
                    types::View::ModuleInstall => Effect::Nothing,
                }
            },
        }
    }
}

} // verus!
