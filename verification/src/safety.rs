//! Path safety rules for cleanup: the deny-list of paths that must never be
//! removed, the expansion of user-configured protected paths, and the check
//! that a manifest's target pattern does not climb out with `..`.

use vstd::prelude::*;
use crate::path::{components, components_of, join, join_exec, path_eq, path_starts_with, path_eq_exec, path_starts_with_exec};
use crate::text::{chars_of, push_str, slice_vec, string_of, strip_prefix, strip_prefix_vec, chars_eq};

verus! {

/// How safe a path is to remove.
#[derive(Debug, Clone, Copy, PartialEq, Eq, Structural)]
pub enum SafetyLevel {
    /// No rule applies.
    Safe,
    /// Removal needs the user's explicit consent.
    Warn,
    /// Never removed.
    Deny,
}

/// `dirs::home_dir()`: the user's home directory as a string, when the
/// platform reports one. It reads the environment (`$HOME`) and the user
/// database, so nothing is claimed about its value.
#[verifier::external_body]
pub(crate) fn home_dir() -> (r: Option<String>) {
    dirs::home_dir().map(|p| p.to_string_lossy().into_owned())
}

/// Whether a component list holds a `..` component.
pub open spec fn has_parent_component(p: Seq<char>) -> bool {
    exists|i: int| 0 <= i < components(p).len() && #[trigger] components(p)[i] == seq!['.', '.']
}

/// The message for a target pattern with a `..` component.
pub open spec fn traversal_message(pattern: Seq<char>) -> Seq<char> {
    "target pattern contains '..': '"@ + pattern + "' \u{2014} directory traversal is not allowed"@
}

/// Rejects target patterns that contain `..` path components (directory
/// traversal); the error is the message to show.
pub fn validate_target_pattern(pattern: &str) -> (r: Result<(), String>)
    ensures
        has_parent_component(pattern@) <==> r is Err,
        r matches Err(m) ==> m@ == traversal_message(pattern@),
{
    let cs = chars_of(pattern);
    let comps = components_of(cs.as_slice());
    let ghost cv = comps@.map_values(|v: Vec<char>| v@);
    let dotdot = ['.', '.'];
    assert(dotdot@ =~= seq!['.', '.']);
    let mut i: usize = 0;
    while i < comps.len()
        invariant
            cv == comps@.map_values(|v: Vec<char>| v@),
            cv == components(pattern@),
            dotdot@ == seq!['.', '.'],
            i <= comps@.len(),
            forall|j: int| 0 <= j < i ==> #[trigger] cv[j] != seq!['.', '.'],
        decreases comps@.len() - i,
    {
        assert(cv[i as int] == comps@[i as int]@);
        if chars_eq(comps[i].as_slice(), &dotdot) {
            let mut m = String::new();
            push_str(&mut m, "target pattern contains '..': '");
            push_str(&mut m, pattern);
            push_str(&mut m, "' \u{2014} directory traversal is not allowed");
            assert(m@ =~= traversal_message(pattern@));
            return Err(m);
        }
        i = i + 1;
    }
    assert(!has_parent_component(pattern@));
    Ok(())
}

/// `~/rest` with a home directory becomes the home directory joined with
/// `rest`; anything else is kept.
pub open spec fn spec_expand_user_path(s: Seq<char>, home: Option<Seq<char>>) -> Seq<char> {
    match (strip_prefix(s, seq!['~', '/']), home) {
        (Some(rest), Some(h)) => join(h, rest),
        _ => s,
    }
}

/// Expands a leading `~/` to the given home directory.
pub fn expand_user_path_with(s: &str, home: &Option<String>) -> (r: String)
    ensures
        r@ == spec_expand_user_path(s@, match home { Some(h) => Some(h@), None => None }),
{
    let cs = chars_of(s);
    let tilde = ['~', '/'];
    assert(tilde@ =~= seq!['~', '/']);
    match (strip_prefix_vec(cs.as_slice(), &tilde), home) {
        (Some(rest), Some(h)) => {
            let hc = chars_of(h.as_str());
            let j = join_exec(hc.as_slice(), rest.as_slice());
            string_of(j.as_slice())
        },
        _ => s.to_owned(),
    }
}

/// Expands user-configured protected path strings (which may start with
/// `~/`) against the given home directory.
pub fn expand_protected_paths_with(configured: &[String], home: &Option<String>) -> (r: Vec<String>)
    ensures
        r@.len() == configured@.len(),
        forall|i: int| 0 <= i < r@.len() ==> #[trigger] r@[i]@ == spec_expand_user_path(
            configured@[i]@,
            match home { Some(h) => Some(h@), None => None },
        ),
{
    let mut out: Vec<String> = Vec::new();
    let mut i: usize = 0;
    while i < configured.len()
        invariant
            i <= configured@.len(),
            out@.len() == i,
            forall|j: int| 0 <= j < i ==> #[trigger] out@[j]@ == spec_expand_user_path(
                configured@[j]@,
                match home { Some(h) => Some(h@), None => None },
            ),
        decreases configured@.len() - i,
    {
        out.push(expand_user_path_with(configured[i].as_str(), home));
        i = i + 1;
    }
    out
}

/// Expands user-configured protected path strings (which may contain `~`)
/// into absolute paths suitable for the deny-list, using the user's home
/// directory.
pub fn expand_protected_paths(configured: &[String]) -> (r: Vec<String>)
    ensures
        exists|home: Option<Seq<char>>| #[trigger] all_expanded(configured@, r@, home),
{
    let home = home_dir();
    let r = expand_protected_paths_with(configured, &home);
    let ghost h = match home { Some(x) => Some(x@), None => None };
    assert(all_expanded(configured@, r@, h));
    r
}

/// Whether `r` holds each configured path expanded against `home`.
pub open spec fn all_expanded(configured: Seq<String>, r: Seq<String>, home: Option<Seq<char>>) -> bool {
    r.len() == configured.len()
        && forall|i: int| 0 <= i < r.len() ==> #[trigger] r[i]@ == spec_expand_user_path(configured[i]@, home)
}

/// A deny-list entry: the path as configured, and the path its
/// canonicalization resolved to (or the path itself when it could not be
/// resolved).
#[derive(Debug, Clone)]
pub struct DenyEntry {
    pub shown: String,
    pub canonical: String,
}

/// Whether a canonical path falls under a canonical deny path: equal to it
/// or below it.
pub open spec fn denied_by(path: Seq<char>, deny: Seq<char>) -> bool {
    path_eq(path, deny) || path_starts_with(path, deny)
}

/// The rule that blocks the canonical path `path`: `/` for the filesystem
/// root itself, otherwise the first deny entry it falls under.
pub open spec fn spec_deny_rule(path: Seq<char>, deny: Seq<(Seq<char>, Seq<char>)>) -> Option<Seq<char>>
    decreases deny.len(),
{
    if path_eq(path, seq!['/']) {
        Some(seq!['/'])
    } else if deny.len() == 0 {
        None
    } else if denied_by(path, deny[0].1) {
        Some(deny[0].0)
    } else {
        spec_deny_rule(path, deny.drop_first())
    }
}

pub open spec fn deny_view(d: Seq<DenyEntry>) -> Seq<(Seq<char>, Seq<char>)> {
    d.map_values(|e: DenyEntry| (e.shown@, e.canonical@))
}

/// The deny rule that blocks the canonical path `canonical`, if any: the
/// filesystem root is blocked as itself (exact match only); otherwise the
/// first entry that the path equals or lies under is named, as configured.
pub fn is_path_denied(canonical: &str, deny: &[DenyEntry]) -> (r: Option<String>)
    ensures
        match (spec_deny_rule(canonical@, deny_view(deny@)), r) {
            (Some(a), Some(b)) => b@ == a,
            (None, None) => true,
            _ => false,
        },
{
    let cs = chars_of(canonical);
    let root = ['/'];
    assert(root@ =~= seq!['/']);
    if path_eq_exec(cs.as_slice(), &root) {
        return Some(string_of(&root));
    }
    let ghost dv = deny_view(deny@);
    assert(dv.skip(0) =~= dv);
    let mut i: usize = 0;
    while i < deny.len()
        invariant
            dv == deny_view(deny@),
            !path_eq(canonical@, seq!['/']),
            cs@ == canonical@,
            i <= deny@.len(),
            spec_deny_rule(canonical@, dv.skip(i as int)) == spec_deny_rule(canonical@, dv),
        decreases deny@.len() - i,
    {
        let d = chars_of(deny[i].canonical.as_str());
        let ghost t = dv.skip(i as int);
        assert(t[0] == (deny@[i as int].shown@, deny@[i as int].canonical@));
        assert(t.drop_first() =~= dv.skip(i + 1));
        if path_eq_exec(cs.as_slice(), d.as_slice()) || path_starts_with_exec(cs.as_slice(), d.as_slice()) {
            return Some(deny[i].shown.clone());
        }
        i = i + 1;
    }
    None
}

/// A path is blocked exactly when it is the filesystem root (named `/`) or
/// it equals or lies under some deny entry, component by component.
pub proof fn lemma_deny_rule_iff(path: Seq<char>, deny: Seq<(Seq<char>, Seq<char>)>)
    ensures
        path_eq(path, seq!['/']) ==> spec_deny_rule(path, deny) == Some(seq!['/']),
        (spec_deny_rule(path, deny) is Some) == (path_eq(path, seq!['/'])
            || exists|k: int| 0 <= k < deny.len() && denied_by(path, #[trigger] deny[k].1)),
    decreases deny.len(),
{
    if !path_eq(path, seq!['/']) && deny.len() > 0 {
        let t = deny.drop_first();
        lemma_deny_rule_iff(path, t);
        if exists|k: int| 0 <= k < deny.len() && denied_by(path, #[trigger] deny[k].1) {
            let k = choose|k: int| 0 <= k < deny.len() && denied_by(path, #[trigger] deny[k].1);
            if k > 0 {
                assert(deny[k] == t[k - 1]);
            }
        }
        if exists|k: int| 0 <= k < t.len() && denied_by(path, #[trigger] t[k].1) {
            let k = choose|k: int| 0 <= k < t.len() && denied_by(path, #[trigger] t[k].1);
            assert(t[k] == deny[k + 1]);
        }
    }
}

/// Built-in deny paths for an operating system (`macos`, `linux`,
/// `windows`), followed by the sensitive directories under the home
/// directory, when there is one.
pub fn default_deny_paths(os: &str, home: &Option<String>) -> (r: Vec<String>)
    ensures
        r@.map_values(|s: String| s@) == spec_default_deny_paths(os@, match home { Some(h) => Some(h@), None => None }),
{
    let mut out: Vec<String> = Vec::new();
    let ghost empty: Seq<Seq<char>> = Seq::empty();
    assert(out@.map_values(|s: String| s@) =~= empty);
    if crate::text::str_eq(os, "macos") {
        push_all(&mut out, &["/System", "/usr", "/bin", "/sbin", "/etc", "/Applications", "/Library"]);
    } else if crate::text::str_eq(os, "linux") {
        push_all(&mut out, &["/usr", "/bin", "/sbin", "/etc", "/var", "/opt", "/boot", "/lib", "/lib64"]);
    } else if crate::text::str_eq(os, "windows") {
        push_all(&mut out, &["C:\\Windows", "C:\\Program Files", "C:\\Program Files (x86)"]);
    }
    match home {
        Some(h) => {
            let hc = chars_of(h.as_str());
            let names = ["Documents", "Desktop", "Pictures", "Music", "Movies", ".ssh", ".gnupg"];
            let mut i: usize = 0;
            let ghost base = out@.map_values(|s: String| s@);
            while i < 7
                invariant
                    hc@ == h@,
                    i <= 7,
                    names@.len() == 7,
                    out@.map_values(|s: String| s@) == base + Seq::new(i as nat, |k: int| join(h@, names@[k]@)),
                decreases 7 - i,
            {
                let nm: &str = names[i];
                assert(nm@ == names@[i as int]@);
                let nc = chars_of(nm);
                let j = join_exec(hc.as_slice(), nc.as_slice());
                let ghost prev = out@.map_values(|s: String| s@);
                let js = string_of(j.as_slice());
                out.push(js);
                assert(out@.map_values(|s: String| s@) =~= prev.push(js@));
                assert(out@.map_values(|s: String| s@) =~= base + Seq::new((i + 1) as nat, |k: int| join(h@, names@[k]@)));
                i = i + 1;
            }
            assert(Seq::new(7, |k: int| join(h@, names@[k]@)) =~= home_deny_paths(h@));
        },
        None => {},
    }
    out
}

fn push_all(out: &mut Vec<String>, items: &[&str])
    ensures
        final(out)@.map_values(|s: String| s@) == old(out)@.map_values(|s: String| s@) + items@.map_values(|s: &str| s@),
{
    let mut i: usize = 0;
    while i < items.len()
        invariant
            i <= items@.len(),
            out@.map_values(|s: String| s@) == old(out)@.map_values(|s: String| s@) + items@.map_values(|s: &str| s@).take(i as int),
        decreases items@.len() - i,
    {
        let ghost prev = out@.map_values(|s: String| s@);
        let item = items[i].to_owned();
        assert(item@ == items@.map_values(|s: &str| s@)[i as int]);
        out.push(item);
        assert(out@.map_values(|s: String| s@) =~= prev.push(item@));
        assert(out@.map_values(|s: String| s@) =~= old(out)@.map_values(|s: String| s@) + items@.map_values(|s: &str| s@).take(i + 1));
        i = i + 1;
    }
    assert(items@.map_values(|s: &str| s@).take(items@.len() as int) =~= items@.map_values(|s: &str| s@));
}

/// The sensitive directories under the home directory.
pub open spec fn home_deny_paths(h: Seq<char>) -> Seq<Seq<char>> {
    seq![
        join(h, "Documents"@), join(h, "Desktop"@), join(h, "Pictures"@), join(h, "Music"@),
        join(h, "Movies"@), join(h, ".ssh"@), join(h, ".gnupg"@),
    ]
}

/// The system paths of an operating system that must never be removed.
pub open spec fn system_deny_paths(os: Seq<char>) -> Seq<Seq<char>> {
    if os == "macos"@ {
        seq!["/System"@, "/usr"@, "/bin"@, "/sbin"@, "/etc"@, "/Applications"@, "/Library"@]
    } else if os == "linux"@ {
        seq!["/usr"@, "/bin"@, "/sbin"@, "/etc"@, "/var"@, "/opt"@, "/boot"@, "/lib"@, "/lib64"@]
    } else if os == "windows"@ {
        seq!["C:\\Windows"@, "C:\\Program Files"@, "C:\\Program Files (x86)"@]
    } else {
        Seq::empty()
    }
}

pub open spec fn spec_default_deny_paths(os: Seq<char>, home: Option<Seq<char>>) -> Seq<Seq<char>> {
    system_deny_paths(os) + match home {
        Some(h) => home_deny_paths(h),
        None => Seq::empty(),
    }
}

/// Why a path is blocked from cleanup, if it is: deny-level paths always,
/// warn-level paths unless the user allowed them.
pub open spec fn spec_block_reason(level: SafetyLevel, reason: Option<Seq<char>>, allow_warned: bool) -> Option<Seq<char>> {
    let r = match reason {
        Some(x) => x,
        None => Seq::empty(),
    };
    match level {
        SafetyLevel::Deny => Some("blocked by safety rule: "@ + r),
        SafetyLevel::Warn => if allow_warned {
            None
        } else {
            Some("blocked by safety rule: "@ + r)
        },
        SafetyLevel::Safe => None,
    }
}

/// The reason a classified path is blocked from cleanup: deny-level paths
/// always are, warn-level paths unless `allow_warned`; `None` when it may go.
pub fn block_reason(level: SafetyLevel, reason: Option<String>, allow_warned: bool) -> (r: Option<String>)
    ensures
        match (spec_block_reason(level, match reason { Some(x) => Some(x@), None => None }, allow_warned), r) {
            (Some(a), Some(b)) => b@ == a,
            (None, None) => true,
            _ => false,
        },
{
    let blocked = match level {
        SafetyLevel::Deny => true,
        SafetyLevel::Warn => !allow_warned,
        SafetyLevel::Safe => false,
    };
    if !blocked {
        return None;
    }
    let mut m = String::new();
    push_str(&mut m, "blocked by safety rule: ");
    match &reason {
        Some(x) => push_str(&mut m, x.as_str()),
        None => {},
    }
    proof {
        let rv: Seq<char> = match reason { Some(x) => x@, None => Seq::empty() };
        assert(m@ =~= "blocked by safety rule: "@ + rv);
    }
    Some(m)
}


/// The safety level of a path and why: denied when a deny rule matches it
/// (the rule is the reason); outside the home directory, when the scope is
/// enforced, it needs consent; safe otherwise.
pub open spec fn spec_classify(denied_rule: Option<Seq<char>>, in_scope: bool, enforce_scope: bool) -> (SafetyLevel, Option<Seq<char>>) {
    match denied_rule {
        Some(r) => (SafetyLevel::Deny, Some(r)),
        None => if enforce_scope && !in_scope {
            (SafetyLevel::Warn, Some("outside the home directory"@))
        } else {
            (SafetyLevel::Safe, None)
        },
    }
}

/// Classification: a path a deny rule matches is denied, naming the rule;
/// otherwise it is warned about, as lying outside the home directory,
/// exactly when the scope is enforced and it lies outside; else it is safe.
pub proof fn lemma_classify_scope(denied_rule: Option<Seq<char>>, in_scope: bool, enforce_scope: bool)
    ensures
        ({
            let c = spec_classify(denied_rule, in_scope, enforce_scope);
            &&& denied_rule matches Some(r) ==> c == (SafetyLevel::Deny, Some(r))
            &&& denied_rule is None ==> ((c.0 == SafetyLevel::Warn) <==> (enforce_scope && !in_scope))
            &&& denied_rule is None && enforce_scope && !in_scope
                ==> c.1 == Some("outside the home directory"@)
            &&& denied_rule is None && !(enforce_scope && !in_scope) ==> c == (SafetyLevel::Safe, None::<Seq<char>>)
            &&& c.0 != SafetyLevel::Deny || denied_rule is Some
        }),
{
}

/// Whether a resolved path lies in the resolved home directory (never
/// when there is no home directory).
pub fn is_path_in_scope(canonical: &str, home_canonical: &Option<String>) -> (r: bool)
    ensures
        r == match home_canonical {
            Some(h) => path_starts_with(canonical@, h@),
            None => false,
        },
{
    match home_canonical {
        Some(h) => {
            let pc = chars_of(canonical);
            let hc = chars_of(h.as_str());
            path_starts_with_exec(pc.as_slice(), hc.as_slice())
        },
        None => false,
    }
}

/// Classifies a path from the deny rule that matched it (see
/// `is_path_denied`) and whether it lies in the home directory.
pub fn classify_path(denied_rule: Option<String>, in_scope: bool, enforce_scope: bool) -> (r: (SafetyLevel, Option<String>))
    ensures
        denied_rule is None ==> ((r.0 == SafetyLevel::Warn) <==> (enforce_scope && !in_scope)),
        denied_rule is None && !(enforce_scope && !in_scope) ==> r.0 == SafetyLevel::Safe,
        (r.0 == SafetyLevel::Deny) <==> denied_rule is Some,
        r.0 == spec_classify(match denied_rule { Some(x) => Some(x@), None => None }, in_scope, enforce_scope).0,
        match (spec_classify(match denied_rule { Some(x) => Some(x@), None => None }, in_scope, enforce_scope).1, r.1) {
            (Some(a), Some(b)) => b@ == a,
            (None, None) => true,
            _ => false,
        },
{
    match denied_rule {
        Some(rule) => (SafetyLevel::Deny, Some(rule)),
        None => if enforce_scope && !in_scope {
            let mut m = String::new();
            push_str(&mut m, "outside the home directory");
            (SafetyLevel::Warn, Some(m))
        } else {
            (SafetyLevel::Safe, None)
        },
    }
}
} // verus!
