//! Application settings: their defaults, the list of directories searched
//! for projects, and where the configuration lives
//! (`~/.config/freespace`). Reading and writing the file is left to the
//! caller.

use vstd::prelude::*;
use crate::manifest::strs;
use crate::path::{join, join_exec};
use crate::safety::home_dir;
use crate::text::{chars_of, str_eq, string_of};

verus! {

/// Icon settings.
#[derive(Debug, Clone, Copy, PartialEq, Eq, Structural)]
pub struct IconsConfig {
    pub enabled: bool,
}

impl Default for IconsConfig {
    fn default() -> (r: Self)
        ensures
            r.enabled,
    {
        IconsConfig { enabled: true }
    }
}

/// Application settings.
#[derive(Debug, Clone)]
pub struct AppConfig {
    /// Whether cleanup only pretends (never read from the file).
    pub dry_run: bool,
    pub module_dirs: Vec<String>,
    pub search_dirs: Vec<String>,
    pub audit_log: bool,
    pub protected_paths: Vec<String>,
    pub enforce_scope: bool,
    pub icons: IconsConfig,
}

impl Default for AppConfig {
    fn default() -> (r: Self)
        ensures
            r.dry_run,
            r.module_dirs@.len() == 0,
            r.search_dirs@.len() == 0,
            r.audit_log,
            r.protected_paths@.len() == 0,
            r.enforce_scope,
            r.icons.enabled,
    {
        AppConfig {
            dry_run: true,
            module_dirs: Vec::new(),
            search_dirs: Vec::new(),
            audit_log: true,
            protected_paths: Vec::new(),
            enforce_scope: true,
            icons: IconsConfig::default(),
        }
    }
}

/// `dirs` without any entry equal to `p`, the others in order.
pub open spec fn without(dirs: Seq<Seq<char>>, p: Seq<char>) -> Seq<Seq<char>>
    decreases dirs.len(),
{
    if dirs.len() == 0 {
        dirs
    } else if dirs.last() == p {
        without(dirs.drop_last(), p)
    } else {
        without(dirs.drop_last(), p).push(dirs.last())
    }
}

/// Whether two settings agree on everything but the search directories.
pub open spec fn same_but_search_dirs(a: AppConfig, b: AppConfig) -> bool {
    &&& a.dry_run == b.dry_run
    &&& a.module_dirs == b.module_dirs
    &&& a.audit_log == b.audit_log
    &&& a.protected_paths == b.protected_paths
    &&& a.enforce_scope == b.enforce_scope
    &&& a.icons == b.icons
}

impl AppConfig {
    /// Adds a search directory; false, and nothing changes, when it is
    /// already listed.
    pub fn add_search_dir(&mut self, path: String) -> (r: bool)
        ensures
            r == !strs(old(self).search_dirs@).contains(path@),
            strs(final(self).search_dirs@) == if r {
                strs(old(self).search_dirs@).push(path@)
            } else {
                strs(old(self).search_dirs@)
            },
            same_but_search_dirs(*final(self), *old(self)),
    {
        let ghost d = strs(self.search_dirs@);
        let mut i: usize = 0;
        while i < self.search_dirs.len()
            invariant
                i <= self.search_dirs@.len(),
                d == strs(self.search_dirs@),
                forall|k: int| 0 <= k < i ==> d[k] != path@,
            decreases self.search_dirs@.len() - i,
        {
            if str_eq(self.search_dirs[i].as_str(), path.as_str()) {
                assert(d[i as int] == path@);
                return false;
            }
            i = i + 1;
        }
        self.search_dirs.push(path);
        assert(strs(self.search_dirs@) =~= d.push(path@));
        true
    }

    /// Removes every entry equal to `path` from the search directories;
    /// true when there was one.
    pub fn remove_search_dir(&mut self, path: &str) -> (r: bool)
        ensures
            r == strs(old(self).search_dirs@).contains(path@),
            strs(final(self).search_dirs@) == without(strs(old(self).search_dirs@), path@),
            same_but_search_dirs(*final(self), *old(self)),
    {
        let ghost d = strs(self.search_dirs@);
        let mut kept: Vec<String> = Vec::new();
        let mut found = false;
        let mut i: usize = 0;
        while i < self.search_dirs.len()
            invariant
                i <= self.search_dirs@.len(),
                d == strs(self.search_dirs@),
                strs(kept@) == without(d.take(i as int), path@),
                found == d.take(i as int).contains(path@),
            decreases self.search_dirs@.len() - i,
        {
            let ghost t = d.take(i + 1);
            proof {
                assert(t.drop_last() =~= d.take(i as int));
                assert(t.last() == d[i as int]);
            }
            if str_eq(self.search_dirs[i].as_str(), path) {
                found = true;
                proof {
                    assert(t.contains(path@)) by {
                        assert(t[i as int] == path@);
                    }
                }
            } else {
                let ghost prev = strs(kept@);
                kept.push(self.search_dirs[i].clone());
                assert(strs(kept@) =~= prev.push(d[i as int]));
                proof {
                    if t.contains(path@) {
                        let k = choose|k: int| 0 <= k < t.len() && t[k] == path@;
                        assert(d.take(i as int)[k] == path@);
                    }
                }
            }
            proof {
                if !found {
                    assert(!t.contains(path@)) by {
                        if t.contains(path@) {
                            let k = choose|k: int| 0 <= k < t.len() && t[k] == path@;
                            if k < i {
                                assert(d.take(i as int)[k] == path@);
                            }
                        }
                    }
                }
            }
            i = i + 1;
        }
        assert(d.take(d.len() as int) =~= d);
        self.search_dirs = kept;
        found
    }
}

/// Removing a directory that was just added gives back the list before it.
pub proof fn lemma_add_then_remove(dirs: Seq<Seq<char>>, p: Seq<char>)
    requires
        !dirs.contains(p),
    ensures
        without(dirs.push(p), p) == dirs,
{
    assert(dirs.push(p).drop_last() =~= dirs);
    lemma_without_absent(dirs, p);
}

/// Removing a directory leaves no entry equal to it.
pub proof fn lemma_removed_absent(dirs: Seq<Seq<char>>, p: Seq<char>)
    ensures
        !without(dirs, p).contains(p),
    decreases dirs.len(),
{
    if dirs.len() > 0 {
        lemma_removed_absent(dirs.drop_last(), p);
        let w = without(dirs.drop_last(), p);
        if dirs.last() != p {
            assert(!w.push(dirs.last()).contains(p)) by {
                if w.push(dirs.last()).contains(p) {
                    let k = choose|k: int| 0 <= k < w.len() + 1 && w.push(dirs.last())[k] == p;
                    if k < w.len() {
                        assert(w[k] == p);
                    }
                }
            }
        }
    }
}

proof fn lemma_without_absent(dirs: Seq<Seq<char>>, p: Seq<char>)
    requires
        !dirs.contains(p),
    ensures
        without(dirs, p) == dirs,
    decreases dirs.len(),
{
    if dirs.len() > 0 {
        assert(!dirs.drop_last().contains(p)) by {
            if dirs.drop_last().contains(p) {
                let k = choose|k: int| 0 <= k < dirs.len() - 1 && dirs.drop_last()[k] == p;
                assert(dirs[k] == p);
            }
        }
        lemma_without_absent(dirs.drop_last(), p);
        assert(dirs.last() != p) by {
            assert(dirs[dirs.len() - 1] == dirs.last());
        }
        assert(dirs.drop_last().push(dirs.last()) =~= dirs);
    }
}

/// The configuration directory under a home directory: `~/.config/freespace`.
pub open spec fn config_dir_of(home: Seq<char>) -> Seq<char> {
    join(join(home, ".config"@), "freespace"@)
}

/// The configuration directory under `home`.
pub fn config_dir_in(home: &str) -> (r: String)
    ensures
        r@ == config_dir_of(home@),
{
    let h = chars_of(home);
    let a = chars_of(".config");
    let b = chars_of("freespace");
    let ha = join_exec(h.as_slice(), a.as_slice());
    let hab = join_exec(ha.as_slice(), b.as_slice());
    string_of(hab.as_slice())
}

/// `~/.config/freespace` (always under `~/.config`, whatever the platform's
/// habit), when the home directory is known.
pub fn config_dir() -> (r: Option<String>)
    ensures
        match r {
            Some(d) => exists|h: Seq<char>| d@ == #[trigger] config_dir_of(h),
            None => true,
        },
{
    match home_dir() {
        Some(h) => {
            let d = config_dir_in(h.as_str());
            assert(d@ == config_dir_of(h@));
            Some(d)
        },
        None => None,
    }
}

fn join_name(dir: &str, name: &str) -> (r: String)
    ensures
        r@ == join(dir@, name@),
{
    let d = chars_of(dir);
    let n = chars_of(name);
    let j = join_exec(d.as_slice(), n.as_slice());
    string_of(j.as_slice())
}

/// `~/.config/freespace/modules`, when the home directory is known.
pub fn default_modules_dir() -> (r: Option<String>)
    ensures
        match r {
            Some(d) => exists|h: Seq<char>| d@ == #[trigger] join(config_dir_of(h), "modules"@),
            None => true,
        },
{
    match config_dir() {
        Some(d) => {
            let m = join_name(d.as_str(), "modules");
            Some(m)
        },
        None => None,
    }
}

/// `~/.config/freespace/config.toml`, when the home directory is known.
pub fn config_path() -> (r: Option<String>)
    ensures
        match r {
            Some(d) => exists|h: Seq<char>| d@ == #[trigger] join(config_dir_of(h), "config.toml"@),
            None => true,
        },
{
    match config_dir() {
        Some(d) => {
            let m = join_name(d.as_str(), "config.toml");
            Some(m)
        },
        None => None,
    }
}

} // verus!
