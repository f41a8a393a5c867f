//! What the scanner decides while it walks the filesystem: how a target
//! pattern's `~` is expanded, how found items are named, and which
//! directories of a search root are entered, skipped or reported. Walking,
//! globbing and measuring sizes are left to the caller.

use vstd::prelude::*;
use crate::drill::crumb;
use crate::path::{file_name_of, parent_file_name, parent_file_name_of};
use crate::text::{chars_of, push_chars, push_str, seq_starts_with, starts_with_at, str_eq, string_of};
use crate::types::Item;

verus! {

/// What the scanner reports.
pub enum ScanMessage {
    /// An item was found.
    ItemDiscovered { module_index: usize, item: Item },
    /// An item found earlier was measured.
    ItemSized { module_index: usize, item_index: usize, size: u64 },
    /// Every item of a module was found and measured.
    ModuleComplete { module_index: usize },
    /// Scanning a module failed.
    ModuleError { module_index: usize, error: String },
    /// An item of an opened directory was measured.
    DrillItemSized { drill_depth: usize, item_index: usize, size: u64 },
    /// Every module was scanned.
    ScanComplete,
}

/// `~/rest` becomes the home directory followed by `/rest` when `$HOME` is
/// set; anything else stays.
pub open spec fn spec_scan_expand_tilde(pattern: Seq<char>, home: Option<Seq<char>>) -> Seq<char> {
    match home {
        Some(h) => if seq_starts_with(pattern, seq!['~', '/']) {
            h + pattern.skip(1)
        } else {
            pattern
        },
        None => pattern,
    }
}

/// Expands `~/` at the start of a target pattern with the value of `$HOME`
/// (`home`), by plain concatenation.
pub fn expand_tilde(pattern: &str, home: Option<&str>) -> (r: String)
    ensures
        r@ == spec_scan_expand_tilde(pattern@, match home { Some(h) => Some(h@), None => None }),
{
    let cs = chars_of(pattern);
    let tilde = ['~', '/'];
    assert(tilde@ =~= seq!['~', '/']);
    assert(cs@.skip(0) =~= cs@);
    match home {
        Some(h) => {
            if starts_with_at(cs.as_slice(), 0, &tilde) {
                let mut out = String::new();
                push_str(&mut out, h);
                push_chars(&mut out, &cs.as_slice()[1..cs.len()]);
                assert(cs@.subrange(1, cs@.len() as int) =~= pattern@.skip(1));
                return out;
            }
            string_of(cs.as_slice())
        },
        None => string_of(cs.as_slice()),
    }
}

/// The name of an item found at `path` for a global target: its file name,
/// or the whole path when it has none.
pub fn item_name(path: &str) -> (r: String)
    ensures
        r@ == crumb(path@),
{
    let pc = chars_of(path);
    match file_name_of(pc.as_slice()) {
        Some(f) => string_of(f.as_slice()),
        None => string_of(pc.as_slice()),
    }
}

/// `project/dir` for a directory found by name, from the name of its
/// parent; just the directory name when the parent has no name.
pub open spec fn spec_local_item_name(path: Seq<char>, dir_name: Seq<char>) -> Seq<char> {
    match parent_file_name(path) {
        Some(p) => p + seq!['/'] + dir_name,
        None => dir_name,
    }
}

/// The display name of a locally found directory: `project/dir_name`,
/// from its parent directory.
pub fn local_item_name(path: &str, dir_name: &str) -> (r: String)
    ensures
        r@ == spec_local_item_name(path@, dir_name@),
{
    let pc = chars_of(path);
    match parent_file_name_of(pc.as_slice()) {
        Some(p) => {
            let mut out = string_of(p.as_slice());
            out.push('/');
            push_str(&mut out, dir_name);
            out
        },
        None => string_of(chars_of(dir_name).as_slice()),
    }
}

/// What to do with a directory met while searching a root for directories
/// named like a local target.
#[derive(Debug, Clone, Copy, PartialEq, Eq, Structural)]
pub enum DirStep {
    /// Look inside it.
    Descend,
    /// Neither report it nor look inside it.
    Skip,
    /// Report it, and do not look inside it.
    Report,
}

/// The decision for a directory named `name` at depth `depth` below the
/// root: hidden directories below the root are skipped unless they are the
/// name looked for; a directory with that name is reported, unless an
/// indicator file is asked for and its parent lacks it, when it is
/// skipped; the others are entered.
pub open spec fn spec_dir_step(depth: nat, name: Seq<char>, dir_name: Seq<char>, indicator_present: Option<bool>) -> DirStep {
    if depth > 0 && name.len() > 0 && name[0] == '.' && name != dir_name {
        DirStep::Skip
    } else if name == dir_name {
        match indicator_present {
            Some(false) => DirStep::Skip,
            _ => DirStep::Report,
        }
    } else {
        DirStep::Descend
    }
}

/// Decides what to do with a directory met while searching for `dir_name`.
/// `indicator_present` is `None` when no indicator file is asked for, else
/// whether the directory's parent holds it.
pub fn dir_step(depth: usize, name: &str, dir_name: &str, indicator_present: Option<bool>) -> (r: DirStep)
    ensures
        r == spec_dir_step(depth as nat, name@, dir_name@, indicator_present),
{
    let nc = chars_of(name);
    let same = str_eq(name, dir_name);
    if depth > 0 && nc.len() > 0 && nc[0] == '.' && !same {
        DirStep::Skip
    } else if same {
        match indicator_present {
            Some(false) => DirStep::Skip,
            _ => DirStep::Report,
        }
    } else {
        DirStep::Descend
    }
}

} // verus!
