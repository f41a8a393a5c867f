//! Trashing from the confirmation list never turns into a permanent removal
//! unasked: when some checked item cannot be trashed (a handler removes it
//! for good), the list asks first whether to remove it all the same.

use vstd::prelude::*;
use crate::confirm::{collect_selected_items, rows, spec_confirm_rows, ConfirmView};
use crate::path::path_eq;
use crate::selection::PathSet;
use crate::session::{Effect, Key, Session, SessionView};

verus! {

/// How many rows of `rs` are checked and cannot be trashed.
pub open spec fn count_irreversible(rs: Seq<ConfirmView>, checked: PathSet) -> nat
    decreases rs.len(),
{
    if rs.len() == 0 {
        0
    } else {
        count_irreversible(rs.drop_last(), checked) + if checked.has(rs.last().path) && !rs.last().reversible {
            1nat
        } else {
            0nat
        }
    }
}

/// Whether a row of `rs` that cannot be trashed lies at `q`.
pub open spec fn irreversible_at(rs: Seq<ConfirmView>, q: Seq<char>) -> bool {
    exists|i: int| 0 <= i < rs.len() && !rs[i].reversible && path_eq(#[trigger] rs[i].path, q)
}

impl Session {
    /// Every row of the confirmation list, whatever the query.
    pub open spec fn all_confirm_rows(&self) -> Seq<ConfirmView> {
        spec_confirm_rows(self.modules@, self.selected_items.entries(), self.drill.levels(), self.drill.cache())
    }

    /// How many checked rows cannot be trashed.
    pub open spec fn irreversible_rows(&self) -> nat {
        count_irreversible(self.all_confirm_rows(), self.confirm_checked)
    }
}

/// What answering the prompt does: it closes; declining unchecks every
/// item that cannot be trashed; then the checked items that remain, if any,
/// are trashed.
pub open spec fn resolve_post(s0: Session, s1: Session, keep_all: bool, r: Effect) -> bool {
    &&& s1@ == (SessionView { irreversible_prompt: false, checked: s1@.checked, ..s0@ })
    &&& forall|q: Seq<char>| #[trigger] s1.confirm_checked.has(q)
        == (s0.confirm_checked.has(q) && (keep_all || !irreversible_at(s0.all_confirm_rows(), q)))
    &&& if s1@.checked.len() > 0 {
        r matches Effect::StartCleanup { permanent } && !permanent
    } else {
        r is Nothing
    }
}

/// What a key does while the prompt is open: `y` includes the items, `n`
/// or Esc leaves them out; other keys do nothing.
pub open spec fn prompt_post(s0: Session, s1: Session, key: Key, r: Effect) -> bool {
    match key {
        Key::Char('y') => resolve_post(s0, s1, true, r),
        Key::Char('n') | Key::Esc => resolve_post(s0, s1, false, r),
        _ => s1@ == s0@ && r is Nothing,
    }
}

impl Session {
    /// How many checked items of the confirmation list cannot be trashed.
    pub fn irreversible_checked_count(&self) -> (r: usize)
        requires
            self.drill.wf(),
        ensures
            r == self.irreversible_rows(),
    {
        let all = collect_selected_items(self.modules.as_slice(), &self.selected_items, &self.drill);
        let ghost rs = rows(all@);
        let mut n: usize = 0;
        let mut i: usize = 0;
        while i < all.len()
            invariant
                i <= all@.len(),
                rs == rows(all@),
                rs == self.all_confirm_rows(),
                n == count_irreversible(rs.take(i as int), self.confirm_checked),
                n <= i,
            decreases all@.len() - i,
        {
            proof {
                assert(rs.take(i + 1).drop_last() =~= rs.take(i as int));
                assert(rs.take(i + 1).last() == all@[i as int]@);
            }
            if self.confirm_checked.contains(all[i].path.as_str()) && !all[i].reversible {
                n = n + 1;
            }
            i = i + 1;
        }
        proof {
            assert(rs.take(all@.len() as int) =~= rs);
        }
        n
    }

    /// Trashes the checked items, unless some cannot be trashed: then the
    /// list asks first and nothing starts.
    pub fn request_trash(&mut self) -> (r: Effect)
        requires
            old(self).wf(),
        ensures
            final(self).wf(),
            old(self).irreversible_rows() > 0 ==> final(self)@ == (SessionView { irreversible_prompt: true, ..old(self)@ })
                && r is Nothing,
            old(self).irreversible_rows() == 0 ==> final(self)@ == old(self)@ && if old(self)@.checked.len() > 0 {
                r matches Effect::StartCleanup { permanent } && !permanent
            } else {
                r is Nothing
            },
    {
        if self.irreversible_checked_count() > 0 {
            self.confirm_irreversible_prompt = true;
            return Effect::Nothing;
        }
        if !self.confirm_checked.is_empty() {
            Effect::StartCleanup { permanent: false }
        } else {
            Effect::Nothing
        }
    }

    /// Answers the prompt: `keep_all` keeps the items that cannot be
    /// trashed, else they are unchecked; what stays checked is trashed.
    pub fn resolve_irreversible_prompt(&mut self, keep_all: bool) -> (r: Effect)
        requires
            old(self).wf(),
        ensures
            final(self).wf(),
            resolve_post(*old(self), *final(self), keep_all, r),
    {
        self.confirm_irreversible_prompt = false;
        if !keep_all {
            let all = collect_selected_items(self.modules.as_slice(), &self.selected_items, &self.drill);
            let ghost rs = rows(all@);
            let ghost c0 = self.confirm_checked;
            let ghost v0 = self@;
            let mut i: usize = 0;
            while i < all.len()
                invariant
                    i <= all@.len(),
                    rs == rows(all@),
                    rs == old(self).all_confirm_rows(),
                    self.confirm_checked.wf(),
                    self@ == (SessionView { checked: self@.checked, ..v0 }),
                    v0 == (SessionView { irreversible_prompt: false, ..old(self)@ }),
                    c0 == old(self).confirm_checked,
                    self.selected_items == old(self).selected_items,
                    self.drill == old(self).drill,
                    self.seen_paths == old(self).seen_paths,
                    self.modules@ == old(self).modules@,
                    forall|q: Seq<char>| #[trigger] self.confirm_checked.has(q)
                        == (c0.has(q) && !irreversible_at(rs.take(i as int), q)),
                decreases all@.len() - i,
            {
                let ghost t = rs.take(i + 1);
                if !all[i].reversible {
                    self.confirm_checked.remove(all[i].path.as_str());
                }
                proof {
                    assert(t[i as int] == all@[i as int]@);
                    assert forall|q: Seq<char>| #[trigger] irreversible_at(t, q)
                        == (irreversible_at(rs.take(i as int), q) || (!all@[i as int].reversible && path_eq(all@[i as int].path@, q))) by {
                        if irreversible_at(t, q) {
                            let a = choose|a: int| 0 <= a < t.len() && !t[a].reversible && path_eq(#[trigger] t[a].path, q);
                            if a < i {
                                assert(rs.take(i as int)[a] == t[a]);
                            }
                        }
                        if irreversible_at(rs.take(i as int), q) {
                            let a = choose|a: int| 0 <= a < i && !rs.take(i as int)[a].reversible
                                && path_eq(#[trigger] rs.take(i as int)[a].path, q);
                            assert(t[a] == rs.take(i as int)[a]);
                        }
                        if !all@[i as int].reversible && path_eq(all@[i as int].path@, q) {
                            assert(t[i as int].path == all@[i as int].path@);
                            assert(t[i as int].reversible == all@[i as int].reversible);
                            assert(!t[i as int].reversible && path_eq(t[i as int].path, q));
                        }
                    }
                    assert forall|q: Seq<char>| #[trigger] self.confirm_checked.has(q)
                        == (c0.has(q) && !irreversible_at(t, q)) by {
                        if !all@[i as int].reversible && path_eq(all@[i as int].path@, q) {
                            assert(path_eq(q, all@[i as int].path@));
                        }
                    }
                }
                i = i + 1;
            }
            proof {
                assert(rs.take(all@.len() as int) =~= rs);
            }
        }
        if !self.confirm_checked.is_empty() {
            Effect::StartCleanup { permanent: false }
        } else {
            Effect::Nothing
        }
    }

    /// Keys while the prompt is open.
    pub fn handle_key_irreversible_prompt(&mut self, key: Key) -> (r: Effect)
        requires
            old(self).wf(),
        ensures
            final(self).wf(),
            prompt_post(*old(self), *final(self), key, r),
    {
        match key {
            Key::Char('y') => self.resolve_irreversible_prompt(true),
            Key::Char('n') | Key::Esc => self.resolve_irreversible_prompt(false),
            _ => Effect::Nothing,
        }
    }
}

/// Trashing from the confirmation list never removes an item for good
/// unasked: when `t` starts a cleanup, no checked item is one that cannot
/// be trashed; when some is, `t` opens the prompt and starts nothing.
pub proof fn lemma_trash_asks_before_permanent(s0: Session, s1: Session, r: Effect)
    requires
        s0@.current_view == crate::types::View::CleanupConfirm,
        !s0@.filter_active,
        !s0.confirm_irreversible_prompt,
        crate::session::key_post(s0, s1, Key::Char('t'), false, r),
    ensures
        r is StartCleanup ==> s0.irreversible_rows() == 0,
        s0.irreversible_rows() > 0 ==> s1@.irreversible_prompt && r is Nothing,
{
}

} // verus!
