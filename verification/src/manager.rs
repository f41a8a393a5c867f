//! Which modules load: the platform filter, the built-in catalog with the
//! user's disabled list, and how user modules and built-in modules are
//! reconciled (a user module replaces a built-in of the same id, except a
//! stale installed copy of the repository that the catalog now ships).
//! Reading directories and parsing manifests are left to the caller.

use vstd::prelude::*;
use crate::manifest::{strs, Module};
use crate::text::{chars_of, decimal, joined, push_chars, push_decimal, push_str, str_eq};

verus! {

/// Where a loaded module came from.
#[derive(Debug, Clone, Copy, PartialEq, Eq, Structural)]
pub enum ModuleOrigin {
    /// Shipped inside the program.
    Builtin,
    /// Installed or written under a modules directory.
    User,
}

/// A module and where it came from.
pub struct LoadedModule {
    pub module: Module,
    /// The manifest on disk; none for a built-in module.
    pub manifest_path: Option<String>,
    pub origin: ModuleOrigin,
}

/// What loading every module source gives.
pub struct LoadResult {
    pub modules: Vec<LoadedModule>,
    pub warnings: Vec<String>,
    /// Ids of installed modules skipped because the catalog ships them now.
    pub superseded: Vec<String>,
}

/// Whether `platforms` names `platform`.
pub open spec fn supports(platforms: Seq<String>, platform: Seq<char>) -> bool {
    exists|i: int| 0 <= i < platforms.len() && #[trigger] platforms[i]@ == platform
}

/// Whether `names` holds `name`.
pub fn contains_str(names: &[String], name: &str) -> (r: bool)
    ensures
        r == supports(names@, name@),
{
    let mut i: usize = 0;
    while i < names.len()
        invariant
            i <= names@.len(),
            forall|k: int| 0 <= k < i ==> #[trigger] names@[k]@ != name@,
        decreases names@.len() - i,
    {
        if str_eq(names[i].as_str(), name) {
            return true;
        }
        i = i + 1;
    }
    false
}

/// Whether a module runs on `platform`.
pub fn supports_platform(module: &Module, platform: &str) -> (r: bool)
    ensures
        r == supports(module.platforms@, platform@),
{
    contains_str(module.platforms.as_slice(), platform)
}

// ---------------------------------------------------------------------------
// The catalog
// ---------------------------------------------------------------------------

/// The catalog modules that load: those that parsed, are not disabled and
/// run on `platform`, in order.
pub open spec fn catalog_kept(parsed: Seq<(String, Result<Module, String>)>, disabled: Seq<String>, platform: Seq<char>) -> Seq<Module>
    decreases parsed.len(),
{
    if parsed.len() == 0 {
        Seq::empty()
    } else {
        catalog_kept(parsed.drop_last(), disabled, platform) + match parsed.last().1 {
            Ok(m) => if !supports(disabled, m.id@) && supports(m.platforms@, platform) {
                seq![m]
            } else {
                Seq::empty()
            },
            Err(_) => Seq::empty(),
        }
    }
}

/// The warning for a catalog manifest that does not parse.
pub open spec fn invalid_builtin(dir_name: Seq<char>, error: Seq<char>) -> Seq<char> {
    "built-in module '"@ + dir_name + "' is invalid: "@ + error
}

/// The warnings for the catalog manifests that do not parse, in order.
pub open spec fn catalog_warnings(parsed: Seq<(String, Result<Module, String>)>) -> Seq<Seq<char>>
    decreases parsed.len(),
{
    if parsed.len() == 0 {
        Seq::empty()
    } else {
        catalog_warnings(parsed.drop_last()) + match parsed.last().1 {
            Ok(_) => Seq::empty(),
            Err(e) => seq![invalid_builtin(parsed.last().0@, e@)],
        }
    }
}

/// Selects the catalog modules to load from the parsed catalog (directory
/// name and parse outcome of each manifest): the modules not disabled by id
/// that run on `platform`, and a warning for each manifest that failed.
pub fn load_catalog(parsed: Vec<(String, Result<Module, String>)>, disabled: &[String], platform: &str) -> (r: (Vec<Module>, Vec<String>))
    ensures
        r.0@ == catalog_kept(parsed@, disabled@, platform@),
        strs(r.1@) == catalog_warnings(parsed@),
{
    let ghost all = parsed@;
    let mut modules: Vec<Module> = Vec::new();
    let mut warnings: Vec<String> = Vec::new();
    let mut rest = parsed;
    let mut i: usize = 0;
    let n = rest.len();
    proof {
        assert(all.take(0) =~= Seq::<(String, Result<Module, String>)>::empty());
    }
    while i < n
        invariant
            n == all.len(),
            i <= n,
            rest@ == all.skip(i as int),
            modules@ == catalog_kept(all.take(i as int), disabled@, platform@),
            strs(warnings@) == catalog_warnings(all.take(i as int)),
        decreases n - i,
    {
        let ghost t = all.take(i + 1);
        proof {
            assert(t.drop_last() =~= all.take(i as int));
            assert(t.last() == all[i as int]);
            assert(rest@[0] == all[i as int]);
        }
        let (dir_name, outcome) = rest.remove(0);
        proof {
            assert(rest@ =~= all.skip(i + 1));
        }
        match outcome {
            Ok(module) => {
                let off = contains_str(disabled, module.id.as_str());
                let here = supports_platform(&module, platform);
                if !off && here {
                    modules.push(module);
                }
            },
            Err(e) => {
                let mut w = String::new();
                push_str(&mut w, "built-in module '");
                push_str(&mut w, dir_name.as_str());
                push_str(&mut w, "' is invalid: ");
                push_str(&mut w, e.as_str());
                let ghost prev = strs(warnings@);
                warnings.push(w);
                assert(strs(warnings@) =~= prev.push(invalid_builtin(dir_name@, e@)));
            },
        }
        i = i + 1;
    }
    proof {
        assert(all.take(n as int) =~= all);
    }
    (modules, warnings)
}

/// The ids of the parsed catalog modules that run on `platform`, in order,
/// whatever the user disabled.
pub open spec fn platform_ids(modules: Seq<Module>, platform: Seq<char>) -> Seq<Seq<char>>
    decreases modules.len(),
{
    if modules.len() == 0 {
        Seq::empty()
    } else {
        platform_ids(modules.drop_last(), platform) + if supports(modules.last().platforms@, platform) {
            seq![modules.last().id@]
        } else {
            Seq::empty()
        }
    }
}

/// The ids of the catalog modules (those that parsed) for `platform`.
pub fn catalog_ids(modules: &[Module], platform: &str) -> (r: Vec<String>)
    ensures
        strs(r@) == platform_ids(modules@, platform@),
{
    let mut r: Vec<String> = Vec::new();
    let mut i: usize = 0;
    while i < modules.len()
        invariant
            i <= modules@.len(),
            strs(r@) == platform_ids(modules@.take(i as int), platform@),
        decreases modules@.len() - i,
    {
        let ghost t = modules@.take(i + 1);
        proof {
            assert(t.drop_last() =~= modules@.take(i as int));
            assert(t.last() == modules@[i as int]);
        }
        let ghost prev = strs(r@);
        if supports_platform(&modules[i], platform) {
            r.push(modules[i].id.clone());
            assert(strs(r@) =~= prev.push(modules@[i as int].id@));
        }
        assert(strs(r@) =~= platform_ids(t, platform@));
        i = i + 1;
    }
    assert(modules@.take(modules@.len() as int) =~= modules@);
    r
}

// ---------------------------------------------------------------------------
// Reconciling user modules with the built-in ones
// ---------------------------------------------------------------------------

/// A user module found on disk: the module, its manifest path, and whether
/// it is an installed copy of the repository the catalog now ships.
pub struct UserModule {
    pub module: Module,
    pub manifest_path: String,
    pub vendored_copy: bool,
}

/// Whether some built-in module has id `id`.
pub open spec fn builtin_has(builtin: Seq<LoadedModule>, id: Seq<char>) -> bool {
    exists|i: int| 0 <= i < builtin.len() && #[trigger] builtin[i].module.id@ == id
}

/// Whether a user module is dropped for the built-in of the same id.
pub open spec fn is_superseded(builtin: Seq<LoadedModule>, u: UserModule) -> bool {
    builtin_has(builtin, u.module.id@) && u.vendored_copy
}

/// Whether a user module replaces a built-in of the same id.
pub open spec fn overrides(builtin: Seq<LoadedModule>, u: UserModule) -> bool {
    builtin_has(builtin, u.module.id@) && !u.vendored_copy
}

/// The ids of the superseded user modules, in order.
pub open spec fn superseded_ids(builtin: Seq<LoadedModule>, user: Seq<UserModule>) -> Seq<Seq<char>>
    decreases user.len(),
{
    if user.len() == 0 {
        Seq::empty()
    } else {
        superseded_ids(builtin, user.drop_last()) + if is_superseded(builtin, user.last()) {
            seq![user.last().module.id@]
        } else {
            Seq::empty()
        }
    }
}

/// The user modules that load, in order.
pub open spec fn kept_user(builtin: Seq<LoadedModule>, user: Seq<UserModule>) -> Seq<UserModule>
    decreases user.len(),
{
    if user.len() == 0 {
        Seq::empty()
    } else {
        kept_user(builtin, user.drop_last()) + if is_superseded(builtin, user.last()) {
            Seq::empty()
        } else {
            seq![user.last()]
        }
    }
}

/// Whether a user module that loads replaces built-ins with id `id`.
pub open spec fn overridden(builtin: Seq<LoadedModule>, user: Seq<UserModule>, id: Seq<char>) -> bool {
    exists|i: int| 0 <= i < user.len() && overrides(builtin, #[trigger] user[i]) && user[i].module.id@ == id
}

/// The built-in modules that stay: those no user module replaces.
pub open spec fn builtin_kept(builtin: Seq<LoadedModule>, all: Seq<LoadedModule>, user: Seq<UserModule>) -> Seq<LoadedModule>
    decreases builtin.len(),
{
    if builtin.len() == 0 {
        Seq::empty()
    } else {
        builtin_kept(builtin.drop_last(), all, user) + if overridden(all, user, builtin.last().module.id@) {
            Seq::empty()
        } else {
            seq![builtin.last()]
        }
    }
}

fn builtin_has_exec(builtin: &Vec<LoadedModule>, id: &str) -> (r: bool)
    ensures
        r == builtin_has(builtin@, id@),
{
    let mut i: usize = 0;
    while i < builtin.len()
        invariant
            i <= builtin@.len(),
            forall|k: int| 0 <= k < i ==> #[trigger] builtin@[k].module.id@ != id@,
        decreases builtin@.len() - i,
    {
        if str_eq(builtin[i].module.id.as_str(), id) {
            return true;
        }
        i = i + 1;
    }
    false
}

/// Joins the built-in modules and the user modules. A user module whose id
/// a built-in has replaces that built-in, unless it is an installed copy of
/// the repository the catalog ships: then it is dropped, and its id
/// reported as superseded. The built-ins that stay come first, in order,
/// then the user modules that load, in order, each with its manifest path.
pub fn reconcile(builtin: Vec<LoadedModule>, user: Vec<UserModule>, warnings: Vec<String>) -> (r: LoadResult)
    ensures
        r.warnings == warnings,
        strs(r.superseded@) == superseded_ids(builtin@, user@),
        r.modules@.len() == builtin_kept(builtin@, builtin@, user@).len() + kept_user(builtin@, user@).len(),
        forall|i: int| 0 <= i < builtin_kept(builtin@, builtin@, user@).len() ==> #[trigger] r.modules@[i]
            == builtin_kept(builtin@, builtin@, user@)[i],
        forall|i: int| 0 <= i < kept_user(builtin@, user@).len() ==> ({
            let m = #[trigger] r.modules@[builtin_kept(builtin@, builtin@, user@).len() + i];
            let u = kept_user(builtin@, user@)[i];
            m.module == u.module && m.manifest_path == Some(u.manifest_path) && m.origin == ModuleOrigin::User
        }),
{
    let ghost b0 = builtin@;
    let ghost u0 = user@;
    let mut superseded: Vec<String> = Vec::new();
    let mut override_ids: Vec<String> = Vec::new();
    let mut kept: Vec<LoadedModule> = Vec::new();
    let mut rest = user;
    let n = rest.len();
    let mut i: usize = 0;
    while i < n
        invariant
            n == u0.len(),
            i <= n,
            builtin@ == b0,
            rest@ == u0.skip(i as int),
            strs(superseded@) == superseded_ids(b0, u0.take(i as int)),
            kept@.len() == kept_user(b0, u0.take(i as int)).len(),
            forall|k: int| 0 <= k < kept@.len() ==> ({
                let m = #[trigger] kept@[k];
                let u = kept_user(b0, u0.take(i as int))[k];
                m.module == u.module && m.manifest_path == Some(u.manifest_path) && m.origin == ModuleOrigin::User
            }),
            forall|id: Seq<char>| #[trigger] supports(override_ids@, id) == overridden(b0, u0.take(i as int), id),
        decreases n - i,
    {
        let ghost t = u0.take(i + 1);
        proof {
            assert(t.drop_last() =~= u0.take(i as int));
            assert(t.last() == u0[i as int]);
            assert(rest@[0] == u0[i as int]);
        }
        let u = rest.remove(0);
        proof {
            assert(rest@ =~= u0.skip(i + 1));
        }
        let clashes = builtin_has_exec(&builtin, u.module.id.as_str());
        let ghost prev_sup = strs(superseded@);
        let ghost prev_ids = override_ids@;
        if clashes && u.vendored_copy {
            superseded.push(u.module.id.clone());
            assert(strs(superseded@) =~= prev_sup.push(u.module.id@));
            proof {
                assert forall|id: Seq<char>| #[trigger] supports(override_ids@, id) == overridden(b0, t, id) by {
                    if overridden(b0, t, id) {
                        let k = choose|k: int| 0 <= k < t.len() && overrides(b0, #[trigger] t[k]) && t[k].module.id@ == id;
                        assert(k < i);
                        assert(t[k] == u0.take(i as int)[k]);
                    }
                    if overridden(b0, u0.take(i as int), id) {
                        let k = choose|k: int| 0 <= k < i && overrides(b0, #[trigger] u0.take(i as int)[k]) && u0.take(i as int)[k].module.id@ == id;
                        assert(t[k] == u0.take(i as int)[k]);
                    }
                }
            }
        } else {
            if clashes {
                override_ids.push(u.module.id.clone());
            }
            proof {
                assert forall|id: Seq<char>| #[trigger] supports(override_ids@, id) == overridden(b0, t, id) by {
                    if overridden(b0, t, id) {
                        let k = choose|k: int| 0 <= k < t.len() && overrides(b0, #[trigger] t[k]) && t[k].module.id@ == id;
                        if k < i {
                            assert(t[k] == u0.take(i as int)[k]);
                            assert(supports(prev_ids, id));
                            let j = choose|j: int| 0 <= j < prev_ids.len() && #[trigger] prev_ids[j]@ == id;
                            assert(override_ids@[j] == prev_ids[j]);
                        } else {
                            assert(override_ids@[override_ids@.len() - 1]@ == id);
                        }
                    }
                    if supports(override_ids@, id) {
                        let j = choose|j: int| 0 <= j < override_ids@.len() && #[trigger] override_ids@[j]@ == id;
                        if j < prev_ids.len() {
                            assert(override_ids@[j] == prev_ids[j]);
                            assert(supports(prev_ids, id));
                            let k = choose|k: int| 0 <= k < i && overrides(b0, #[trigger] u0.take(i as int)[k]) && u0.take(i as int)[k].module.id@ == id;
                            assert(t[k] == u0.take(i as int)[k]);
                        } else {
                            assert(overrides(b0, t[i as int]));
                        }
                    }
                }
            }
            let ghost prev_len = kept@.len();
            kept.push(LoadedModule { module: u.module, manifest_path: Some(u.manifest_path), origin: ModuleOrigin::User });
        }
        i = i + 1;
    }
    proof {
        assert(u0.take(n as int) =~= u0);
    }
    let mut modules: Vec<LoadedModule> = Vec::new();
    let mut bs = builtin;
    let m = bs.len();
    let mut j: usize = 0;
    while j < m
        invariant
            m == b0.len(),
            j <= m,
            bs@ == b0.skip(j as int),
            modules@ == builtin_kept(b0.take(j as int), b0, u0),
            forall|id: Seq<char>| #[trigger] supports(override_ids@, id) == overridden(b0, u0, id),
        decreases m - j,
    {
        let ghost t = b0.take(j + 1);
        proof {
            assert(t.drop_last() =~= b0.take(j as int));
            assert(t.last() == b0[j as int]);
            assert(bs@[0] == b0[j as int]);
        }
        let b = bs.remove(0);
        proof {
            assert(bs@ =~= b0.skip(j + 1));
        }
        let gone = contains_str(override_ids.as_slice(), b.module.id.as_str());
        if !gone {
            modules.push(b);
        }
        j = j + 1;
    }
    proof {
        assert(b0.take(m as int) =~= b0);
    }
    let ghost nb = modules@.len();
    let mut k: usize = 0;
    let kn = kept.len();
    let mut ks = kept;
    while k < kn
        invariant
            kn == kept_user(b0, u0).len(),
            k <= kn,
            ks@.len() == kn - k,
            nb == builtin_kept(b0, b0, u0).len(),
            modules@.len() == nb + k,
            forall|x: int| 0 <= x < nb ==> #[trigger] modules@[x] == builtin_kept(b0, b0, u0)[x],
            forall|x: int| 0 <= x < ks@.len() ==> ({
                let m = #[trigger] ks@[x];
                let u = kept_user(b0, u0)[k + x];
                m.module == u.module && m.manifest_path == Some(u.manifest_path) && m.origin == ModuleOrigin::User
            }),
            forall|x: int| 0 <= x < k ==> ({
                let m = #[trigger] modules@[nb + x];
                let u = kept_user(b0, u0)[x];
                m.module == u.module && m.manifest_path == Some(u.manifest_path) && m.origin == ModuleOrigin::User
            }),
        decreases kn - k,
    {
        let ghost before = ks@;
        let lm = ks.remove(0);
        proof {
            assert(lm == before[0]);
            assert forall|x: int| 0 <= x < ks@.len() implies #[trigger] ks@[x] == before[x + 1] by {}
        }
        modules.push(lm);
        proof {
            assert(modules@[nb + k] == lm);
        }
        k = k + 1;
    }
    LoadResult { modules, warnings, superseded }
}

proof fn lemma_builtin_kept_not_overridden(builtin: Seq<LoadedModule>, all: Seq<LoadedModule>, user: Seq<UserModule>)
    ensures
        forall|k: int| 0 <= k < builtin_kept(builtin, all, user).len()
            ==> !overridden(all, user, (#[trigger] builtin_kept(builtin, all, user)[k]).module.id@),
    decreases builtin.len(),
{
    if builtin.len() > 0 {
        lemma_builtin_kept_not_overridden(builtin.drop_last(), all, user);
        let prev = builtin_kept(builtin.drop_last(), all, user);
        let cur = builtin_kept(builtin, all, user);
        assert forall|k: int| 0 <= k < cur.len() implies !overridden(all, user, (#[trigger] cur[k]).module.id@) by {
            if k < prev.len() {
                assert(cur[k] == prev[k]);
            }
        }
    }
}

proof fn lemma_kept_user_holds(builtin: Seq<LoadedModule>, user: Seq<UserModule>, i: int)
    requires
        0 <= i < user.len(),
        !is_superseded(builtin, user[i]),
    ensures
        kept_user(builtin, user).contains(user[i]),
    decreases user.len(),
{
    let prev = kept_user(builtin, user.drop_last());
    let cur = kept_user(builtin, user);
    if i == user.len() - 1 {
        assert(cur[prev.len() as int] == user[i]);
    } else {
        assert(user.drop_last()[i] == user[i]);
        lemma_kept_user_holds(builtin, user.drop_last(), i);
        let j = choose|j: int| 0 <= j < prev.len() && prev[j] == user[i];
        assert(cur[j] == prev[j]);
    }
}

/// A user module whose id a built-in module has, and which is not an
/// installed copy of the shipped repository, replaces that built-in: after
/// `reconcile` no built-in with its id is left, and the user module loads.
pub proof fn lemma_user_module_replaces_builtin(builtin: Seq<LoadedModule>, user: Seq<UserModule>, i: int)
    requires
        0 <= i < user.len(),
        builtin_has(builtin, user[i].module.id@),
        !user[i].vendored_copy,
    ensures
        forall|k: int| 0 <= k < builtin_kept(builtin, builtin, user).len()
            ==> (#[trigger] builtin_kept(builtin, builtin, user)[k]).module.id@ != user[i].module.id@,
        kept_user(builtin, user).contains(user[i]),
{
    assert(overrides(builtin, user[i]));
    assert(overridden(builtin, user, user[i].module.id@));
    lemma_builtin_kept_not_overridden(builtin, builtin, user);
    lemma_kept_user_holds(builtin, user, i);
}

/// How many built-in modules have id `id`.
pub open spec fn builtin_id_count(bs: Seq<LoadedModule>, id: Seq<char>) -> nat
    decreases bs.len(),
{
    if bs.len() == 0 {
        0
    } else {
        builtin_id_count(bs.drop_last(), id) + if bs.last().module.id@ == id { 1nat } else { 0nat }
    }
}

/// How many user modules have id `id`.
pub open spec fn user_id_count(us: Seq<UserModule>, id: Seq<char>) -> nat
    decreases us.len(),
{
    if us.len() == 0 {
        0
    } else {
        user_id_count(us.drop_last(), id) + if us.last().module.id@ == id { 1nat } else { 0nat }
    }
}

proof fn lemma_builtin_kept_count(builtin: Seq<LoadedModule>, all: Seq<LoadedModule>, user: Seq<UserModule>, id: Seq<char>)
    ensures
        builtin_id_count(builtin_kept(builtin, all, user), id) == if overridden(all, user, id) {
            0
        } else {
            builtin_id_count(builtin, id)
        },
    decreases builtin.len(),
{
    if builtin.len() > 0 {
        lemma_builtin_kept_count(builtin.drop_last(), all, user, id);
        let prev = builtin_kept(builtin.drop_last(), all, user);
        let b = builtin.last();
        if overridden(all, user, b.module.id@) {
            assert(builtin_kept(builtin, all, user) =~= prev);
        } else {
            let cur = builtin_kept(builtin, all, user);
            assert(cur =~= prev.push(b));
            assert(cur.drop_last() =~= prev);
        }
    }
}

proof fn lemma_kept_user_count(builtin: Seq<LoadedModule>, user: Seq<UserModule>, id: Seq<char>)
    ensures
        user_id_count(kept_user(builtin, user), id) <= user_id_count(user, id),
        (forall|j: int| 0 <= j < user.len() && (#[trigger] user[j]).module.id@ == id ==> !is_superseded(builtin, user[j]))
            ==> user_id_count(kept_user(builtin, user), id) == user_id_count(user, id),
        (forall|j: int| 0 <= j < user.len() && (#[trigger] user[j]).module.id@ == id ==> is_superseded(builtin, user[j]))
            ==> user_id_count(kept_user(builtin, user), id) == 0,
    decreases user.len(),
{
    if user.len() > 0 {
        let u = user.last();
        let ud = user.drop_last();
        assert forall|j: int| 0 <= j < ud.len() implies #[trigger] ud[j] == user[j] by {}
        lemma_kept_user_count(builtin, ud, id);
        let prev = kept_user(builtin, ud);
        let cur = kept_user(builtin, user);
        if is_superseded(builtin, u) {
            assert(cur =~= prev);
        } else {
            assert(cur =~= prev.push(u));
            assert(cur.drop_last() =~= prev);
        }
        assert(user[user.len() - 1] == u);
    }
}

proof fn lemma_user_count_one(user: Seq<UserModule>, i: int, id: Seq<char>)
    requires
        0 <= i < user.len(),
        user[i].module.id@ == id,
        forall|j: int| 0 <= j < user.len() && j != i ==> (#[trigger] user[j]).module.id@ != id,
    ensures
        user_id_count(user, id) == 1,
    decreases user.len(),
{
    let ud = user.drop_last();
    if i == user.len() - 1 {
        lemma_user_count_zero(ud, id);
    } else {
        assert forall|j: int| 0 <= j < ud.len() && j != i implies (#[trigger] ud[j]).module.id@ != id by {
            assert(ud[j] == user[j]);
        }
        assert(ud[i] == user[i]);
        lemma_user_count_one(ud, i, id);
    }
}

proof fn lemma_user_count_zero(user: Seq<UserModule>, id: Seq<char>)
    requires
        forall|j: int| 0 <= j < user.len() ==> (#[trigger] user[j]).module.id@ != id,
    ensures
        user_id_count(user, id) == 0,
    decreases user.len(),
{
    if user.len() > 0 {
        let ud = user.drop_last();
        assert forall|j: int| 0 <= j < ud.len() implies (#[trigger] ud[j]).module.id@ != id by {
            assert(ud[j] == user[j]);
        }
        lemma_user_count_zero(ud, id);
        assert(user[user.len() - 1].module.id@ != id);
    }
}

proof fn lemma_superseded_has(builtin: Seq<LoadedModule>, user: Seq<UserModule>, i: int)
    requires
        0 <= i < user.len(),
        is_superseded(builtin, user[i]),
    ensures
        superseded_ids(builtin, user).contains(user[i].module.id@),
    decreases user.len(),
{
    let prev = superseded_ids(builtin, user.drop_last());
    let cur = superseded_ids(builtin, user);
    if i == user.len() - 1 {
        assert(cur[prev.len() as int] == user[i].module.id@);
    } else {
        assert(user.drop_last()[i] == user[i]);
        lemma_superseded_has(builtin, user.drop_last(), i);
        let k = choose|k: int| 0 <= k < prev.len() && prev[k] == user[i].module.id@;
        assert(cur[k] == prev[k]);
    }
}

proof fn lemma_superseded_lacks(builtin: Seq<LoadedModule>, user: Seq<UserModule>, id: Seq<char>)
    requires
        forall|j: int| 0 <= j < user.len() && (#[trigger] user[j]).module.id@ == id ==> !is_superseded(builtin, user[j]),
    ensures
        !superseded_ids(builtin, user).contains(id),
    decreases user.len(),
{
    if user.len() > 0 {
        let ud = user.drop_last();
        assert forall|j: int| 0 <= j < ud.len() && (#[trigger] ud[j]).module.id@ == id implies !is_superseded(builtin, ud[j]) by {
            assert(ud[j] == user[j]);
        }
        lemma_superseded_lacks(builtin, ud, id);
        assert(user[user.len() - 1] == user.last());
        let prev = superseded_ids(builtin, ud);
        let cur = superseded_ids(builtin, user);
        if is_superseded(builtin, user.last()) {
            assert(cur =~= prev.push(user.last().module.id@));
            assert(user.last().module.id@ != id);
            assert forall|k: int| 0 <= k < cur.len() implies cur[k] != id by {
                if k < prev.len() {
                    assert(cur[k] == prev[k]);
                }
            }
        } else {
            assert(cur =~= prev);
        }
    }
}

/// One module per id: when the catalog ships one module with id `id` and
/// exactly one user module has it, the loaded modules hold `id` once. An
/// installed copy of the shipped repository gives way to the built-in,
/// whose id is reported as superseded; any other user module replaces the
/// built-in and is not reported.
pub proof fn lemma_one_module_per_id(builtin: Seq<LoadedModule>, user: Seq<UserModule>, i: int)
    requires
        0 <= i < user.len(),
        builtin_id_count(builtin, user[i].module.id@) == 1,
        forall|j: int| 0 <= j < user.len() && j != i ==> (#[trigger] user[j]).module.id@ != user[i].module.id@,
    ensures
        ({
            let id = user[i].module.id@;
            let kb = builtin_id_count(builtin_kept(builtin, builtin, user), id);
            let ku = user_id_count(kept_user(builtin, user), id);
            &&& kb + ku == 1
            &&& user[i].vendored_copy ==> kb == 1 && superseded_ids(builtin, user).contains(id)
            &&& !user[i].vendored_copy ==> ku == 1 && kept_user(builtin, user).contains(user[i])
                && !superseded_ids(builtin, user).contains(id)
        }),
{
    let id = user[i].module.id@;
    assert(builtin_has(builtin, id)) by {
        lemma_count_has(builtin, id);
    }
    lemma_builtin_kept_count(builtin, builtin, user, id);
    lemma_kept_user_count(builtin, user, id);
    lemma_user_count_one(user, i, id);
    if user[i].vendored_copy {
        assert(!overridden(builtin, user, id)) by {
            if overridden(builtin, user, id) {
                let j = choose|j: int| 0 <= j < user.len() && overrides(builtin, #[trigger] user[j]) && user[j].module.id@ == id;
                assert(j == i);
            }
        }
        assert forall|j: int| 0 <= j < user.len() && (#[trigger] user[j]).module.id@ == id implies is_superseded(builtin, user[j]) by {
            assert(j == i);
        }
        lemma_superseded_has(builtin, user, i);
    } else {
        assert(overrides(builtin, user[i]));
        assert(overridden(builtin, user, id));
        assert forall|j: int| 0 <= j < user.len() && (#[trigger] user[j]).module.id@ == id implies !is_superseded(builtin, user[j]) by {
            assert(j == i);
        }
        lemma_kept_user_holds(builtin, user, i);
        lemma_superseded_lacks(builtin, user, id);
    }
}

proof fn lemma_count_has(bs: Seq<LoadedModule>, id: Seq<char>)
    requires
        builtin_id_count(bs, id) > 0,
    ensures
        builtin_has(bs, id),
    decreases bs.len(),
{
    if bs.len() > 0 {
        if bs.last().module.id@ == id {
            assert(bs[bs.len() - 1].module.id@ == id);
        } else {
            lemma_count_has(bs.drop_last(), id);
            let k = choose|k: int| 0 <= k < bs.drop_last().len() && #[trigger] bs.drop_last()[k].module.id@ == id;
            assert(bs[k] == bs.drop_last()[k]);
        }
    }
}

// ---------------------------------------------------------------------------
// Installation outcomes
// ---------------------------------------------------------------------------

/// Why installing modules failed.
pub enum InstallError {
    /// `git` is missing.
    GitNotFound,
    /// Cloning failed.
    CloneFailed(String),
    /// The source holds no module.
    NoModulesFound,
    /// The module asked for is not in the source.
    ModuleNotInRepo { name: String, available: String },
    /// A manifest of the source does not parse.
    ManifestParseError { path: String, reason: String },
    /// A local source path does not exist.
    PathNotFound(String),
    /// The user cancelled.
    Cancelled,
    /// Anything else, in words.
    Other(String),
}

/// The message of each install error.
pub open spec fn install_error_message(e: InstallError) -> Seq<char> {
    match e {
        InstallError::GitNotFound => "git is not installed or not in PATH"@,
        InstallError::CloneFailed(s) => "git clone failed: "@ + s@,
        InstallError::NoModulesFound => "no modules found in source"@,
        InstallError::ModuleNotInRepo { name, available } => "module '"@ + name@ + "' not found in source. Available: "@
            + available@,
        InstallError::ManifestParseError { path, reason } => "failed to parse module.toml in '"@ + path@ + "': "@
            + reason@,
        InstallError::PathNotFound(s) => "local path does not exist: "@ + s@,
        InstallError::Cancelled => "user cancelled installation"@,
        InstallError::Other(s) => s@,
    }
}

impl InstallError {
    /// The message shown for the error.
    pub fn message(&self) -> (r: String)
        ensures
            r@ == install_error_message(*self),
    {
        let mut m = String::new();
        match self {
            InstallError::GitNotFound => push_str(&mut m, "git is not installed or not in PATH"),
            InstallError::CloneFailed(s) => {
                push_str(&mut m, "git clone failed: ");
                push_str(&mut m, s.as_str());
            },
            InstallError::NoModulesFound => push_str(&mut m, "no modules found in source"),
            InstallError::ModuleNotInRepo { name, available } => {
                push_str(&mut m, "module '");
                push_str(&mut m, name.as_str());
                push_str(&mut m, "' not found in source. Available: ");
                push_str(&mut m, available.as_str());
            },
            InstallError::ManifestParseError { path, reason } => {
                push_str(&mut m, "failed to parse module.toml in '");
                push_str(&mut m, path.as_str());
                push_str(&mut m, "': ");
                push_str(&mut m, reason.as_str());
            },
            InstallError::PathNotFound(s) => {
                push_str(&mut m, "local path does not exist: ");
                push_str(&mut m, s.as_str());
            },
            InstallError::Cancelled => push_str(&mut m, "user cancelled installation"),
            InstallError::Other(s) => push_str(&mut m, s.as_str()),
        }
        m
    }
}

/// One installed module.
pub struct InstallResult {
    pub name: String,
    pub version: String,
    pub installed_to: String,
    pub was_upgrade: bool,
}

/// The position of the module asked for by directory name among the
/// modules of a source, when it is there.
pub fn find_requested(modules: &[(String, Module)], requested: &str) -> (r: Option<usize>)
    ensures
        match r {
            Some(i) => i < modules@.len() && modules@[i as int].0@ == requested@
                && forall|j: int| 0 <= j < i ==> #[trigger] modules@[j].0@ != requested@,
            None => forall|j: int| 0 <= j < modules@.len() ==> #[trigger] modules@[j].0@ != requested@,
        },
{
    let mut i: usize = 0;
    while i < modules.len()
        invariant
            i <= modules@.len(),
            forall|j: int| 0 <= j < i ==> #[trigger] modules@[j].0@ != requested@,
        decreases modules@.len() - i,
    {
        if str_eq(modules[i].0.as_str(), requested) {
            return Some(i);
        }
        i = i + 1;
    }
    None
}


// ---------------------------------------------------------------------------
// Reporting updates
// ---------------------------------------------------------------------------

/// A commit hash cut to its first seven characters.
pub open spec fn short_sha(c: Seq<char>) -> Seq<char> {
    if c.len() > 7 {
        c.take(7)
    } else {
        c
    }
}

/// `OLD..NEW` with both commits shortened.
pub fn format_commit_range(old: &str, new: &str) -> (r: String)
    ensures
        r@ == short_sha(old@) + ".."@ + short_sha(new@),
{
    let o = chars_of(old);
    let n = chars_of(new);
    let mut out = String::new();
    let ol = if o.len() > 7 { 7 } else { o.len() };
    let nl = if n.len() > 7 { 7 } else { n.len() };
    push_chars(&mut out, &o.as_slice()[0..ol]);
    push_str(&mut out, "..");
    push_chars(&mut out, &n.as_slice()[0..nl]);
    proof {
        assert(o@.subrange(0, ol as int) =~= short_sha(old@));
        assert(n@.subrange(0, nl as int) =~= short_sha(new@));
    }
    out
}

/// A count and a word, when the count is not zero.
pub open spec fn count_part(n: nat, word: Seq<char>) -> Seq<Seq<char>> {
    if n > 0 {
        seq![decimal(n) + seq![' '] + word]
    } else {
        Seq::empty()
    }
}

/// The closing line of an update run: `N module(s): ` and the non-zero
/// counts of updated, up-to-date, skipped and failed modules.
pub open spec fn spec_update_summary(total: nat, updated: nat, up_to_date: nat, skipped: nat, failed: nat) -> Seq<char> {
    decimal(total) + " module(s): "@ + joined(
        count_part(updated, "updated"@) + count_part(up_to_date, "up to date"@) + count_part(skipped, "skipped"@)
            + count_part(failed, "failed"@),
        ", "@,
    )
}

/// Whether `s` ends with `w`.
pub open spec fn ends_with(s: Seq<char>, w: Seq<char>) -> bool {
    w.len() <= s.len() && s.subrange(s.len() - w.len(), s.len() as int) == w
}

proof fn lemma_joined_first(ps: Seq<Seq<char>>, sep: Seq<char>)
    requires
        ps.len() > 0,
    ensures
        ps[0].len() <= joined(ps, sep).len(),
        joined(ps, sep).subrange(0, ps[0].len() as int) == ps[0],
    decreases ps.len(),
{
    let j = joined(ps, sep);
    if ps.len() == 1 {
        assert(j.subrange(0, ps[0].len() as int) =~= ps[0]);
    } else {
        let d = ps.drop_last();
        lemma_joined_first(d, sep);
        assert(d[0] == ps[0]);
        let jd = joined(d, sep);
        assert(j == jd + sep + ps.last());
        assert(j.subrange(0, ps[0].len() as int) =~= jd.subrange(0, ps[0].len() as int));
    }
}

proof fn lemma_joined_last(ps: Seq<Seq<char>>, sep: Seq<char>)
    requires
        ps.len() > 0,
    ensures
        ends_with(joined(ps, sep), ps.last()),
        ps.len() > 1 ==> ends_with(joined(ps, sep), ps[ps.len() - 2] + sep + ps.last()),
    decreases ps.len(),
{
    let j = joined(ps, sep);
    if ps.len() == 1 {
        assert(j == ps[0]);
        assert(j.subrange(0, j.len() as int) =~= j);
    } else {
        let d = ps.drop_last();
        let jd = joined(d, sep);
        assert(j == jd + sep + ps.last());
        assert(j.subrange(j.len() - ps.last().len(), j.len() as int) =~= ps.last());
        lemma_joined_last(d, sep);
        assert(d.last() == ps[ps.len() - 2]);
        let w = ps[ps.len() - 2] + sep + ps.last();
        let k = jd.len() - d.last().len();
        assert(jd.subrange(k, jd.len() as int) == d.last());
        assert(j.subrange(j.len() - w.len(), j.len() as int) =~= jd.subrange(k, jd.len() as int) + sep + ps.last());
    }
}

/// Each count of an update summary stands with its own word: it starts
/// `N module(s): `, then `U updated` when some were updated (else
/// `D up to date` when some were); a run with failures ends with
/// `F failed` (after `S skipped, ` when some were skipped), and a run
/// without failures but with skips ends with `S skipped`.
pub proof fn lemma_update_summary_labels(total: nat, updated: nat, up_to_date: nat, skipped: nat, failed: nat)
    ensures
        ({
            let s = spec_update_summary(total, updated, up_to_date, skipped, failed);
            &&& s.subrange(0, (decimal(total) + " module(s): "@).len() as int) == decimal(total) + " module(s): "@
            &&& updated > 0 ==> s.subrange(0, (decimal(total) + " module(s): "@ + decimal(updated) + " updated"@).len() as int)
                == decimal(total) + " module(s): "@ + decimal(updated) + " updated"@
            &&& updated == 0 && up_to_date > 0 ==> s.subrange(0, (decimal(total) + " module(s): "@ + decimal(up_to_date) + " up to date"@).len() as int)
                == decimal(total) + " module(s): "@ + decimal(up_to_date) + " up to date"@
            &&& failed > 0 ==> ends_with(s, decimal(failed) + " failed"@)
            &&& failed > 0 && skipped > 0 ==> ends_with(s, decimal(skipped) + " skipped"@ + ", "@ + decimal(failed) + " failed"@)
            &&& failed == 0 && skipped > 0 ==> ends_with(s, decimal(skipped) + " skipped"@)
        }),
{
    let head = decimal(total) + " module(s): "@;
    let ps = count_part(updated, "updated"@) + count_part(up_to_date, "up to date"@) + count_part(skipped, "skipped"@)
        + count_part(failed, "failed"@);
    let j = joined(ps, ", "@);
    let s = spec_update_summary(total, updated, up_to_date, skipped, failed);
    assert(s == head + j);
    assert(s.subrange(0, head.len() as int) =~= head);
    let fpart = decimal(failed) + seq![' '] + "failed"@;
    let spart = decimal(skipped) + seq![' '] + "skipped"@;
    assert(decimal(failed) + " failed"@ =~= fpart) by {
        reveal_strlit(" failed");
        reveal_strlit("failed");
    }
    assert(decimal(skipped) + " skipped"@ =~= spart) by {
        reveal_strlit(" skipped");
        reveal_strlit("skipped");
    }
    if updated > 0 || up_to_date > 0 {
        lemma_joined_first(ps, ", "@);
        let upart = decimal(updated) + seq![' '] + "updated"@;
        let dpart = decimal(up_to_date) + seq![' '] + "up to date"@;
        assert(decimal(updated) + " updated"@ =~= upart) by {
            reveal_strlit(" updated");
            reveal_strlit("updated");
        }
        assert(decimal(up_to_date) + " up to date"@ =~= dpart) by {
            reveal_strlit(" up to date");
            reveal_strlit("up to date");
        }
        let w = if updated > 0 { upart } else { dpart };
        assert(ps[0] == w);
        assert(j.subrange(0, w.len() as int) == w);
        assert(s.subrange(0, (head + w).len() as int) =~= head + j.subrange(0, w.len() as int));
        assert(head + w =~= if updated > 0 { decimal(total) + " module(s): "@ + decimal(updated) + " updated"@ }
            else { decimal(total) + " module(s): "@ + decimal(up_to_date) + " up to date"@ });
    }
    if failed > 0 || skipped > 0 {
        assert(ps.len() > 0);
        lemma_joined_last(ps, ", "@);
        if failed > 0 {
            assert(ps.last() == fpart);
            if skipped > 0 {
                assert(ps[ps.len() - 2] == spart);
                assert(decimal(skipped) + " skipped"@ + ", "@ + decimal(failed) + " failed"@ =~= spart + ", "@ + fpart);
            }
        } else {
            assert(ps.last() == spart);
        }
        let w = if failed > 0 { fpart } else { spart };
        assert(ends_with(j, w));
        assert(s.subrange(s.len() - w.len(), s.len() as int) =~= j.subrange(j.len() - w.len(), j.len() as int));
        if failed > 0 && skipped > 0 {
            let w2 = spart + ", "@ + fpart;
            assert(ends_with(j, w2));
            assert(s.subrange(s.len() - w2.len(), s.len() as int) =~= j.subrange(j.len() - w2.len(), j.len() as int));
        }
    }
}

fn push_part(parts: &mut Vec<String>, n: u32, word: &str)
    ensures
        final(parts)@.map_values(|s: String| s@) == old(parts)@.map_values(|s: String| s@) + count_part(n as nat, word@),
{
    let ghost before = parts@.map_values(|s: String| s@);
    if n > 0 {
        let mut s = String::new();
        push_decimal(&mut s, n as u64);
        s.push(' ');
        push_str(&mut s, word);
        assert(s@ =~= decimal(n as nat) + seq![' '] + word@);
        let ghost sv = s@;
        parts.push(s);
        assert(parts@.map_values(|s: String| s@) =~= before.push(sv));
        assert(parts@.map_values(|s: String| s@) =~= before + count_part(n as nat, word@));
    } else {
        assert(parts@.map_values(|s: String| s@) =~= before + count_part(n as nat, word@));
    }
}

/// The closing line of an update run.
pub fn update_summary(total: usize, updated: u32, up_to_date: u32, skipped: u32, failed: u32) -> (r: String)
    ensures
        r@ == spec_update_summary(total as nat, updated as nat, up_to_date as nat, skipped as nat, failed as nat),
        failed > 0 ==> ends_with(r@, decimal(failed as nat) + " failed"@),
        failed == 0 && skipped > 0 ==> ends_with(r@, decimal(skipped as nat) + " skipped"@),
{
    proof {
        lemma_update_summary_labels(total as nat, updated as nat, up_to_date as nat, skipped as nat, failed as nat);
    }
    let mut parts: Vec<String> = Vec::new();
    push_part(&mut parts, updated, "updated");
    push_part(&mut parts, up_to_date, "up to date");
    push_part(&mut parts, skipped, "skipped");
    push_part(&mut parts, failed, "failed");
    let mut out = String::new();
    push_decimal(&mut out, total as u64);
    push_str(&mut out, " module(s): ");
    let j = crate::text::join_parts(&parts, ", ");
    push_str(&mut out, j.as_str());
    proof {
        let e: Seq<Seq<char>> = Seq::empty();
        assert(e + count_part(updated as nat, "updated"@) + count_part(up_to_date as nat, "up to date"@)
            + count_part(skipped as nat, "skipped"@) + count_part(failed as nat, "failed"@) =~= count_part(updated as nat, "updated"@)
            + count_part(up_to_date as nat, "up to date"@) + count_part(skipped as nat, "skipped"@) + count_part(failed as nat, "failed"@));
    }
    out
}
} // verus!
