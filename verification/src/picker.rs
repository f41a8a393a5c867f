//! The picker shown when installing from a source with several modules:
//! every module starts ticked; the user moves, ticks and unticks, then
//! confirms or cancels.

use vstd::prelude::*;
use crate::manifest::Module;
use crate::session::{normalize_emacs_key, spec_normalize, Key};

verus! {

/// What a key press ends with.
#[derive(Debug, Clone, Copy, PartialEq, Eq, Structural)]
pub enum KeyResult {
    Continue,
    Confirm,
    Cancel,
}

/// The picker's state: each candidate's name and directory, whether it is
/// ticked, and the cursor.
pub struct InstallSelectState {
    pub candidates: Vec<(String, String)>,
    pub selected: Vec<bool>,
    pub cursor: usize,
}

impl InstallSelectState {
    /// Whether there is one tick per candidate.
    pub open spec fn wf(&self) -> bool {
        self.selected@.len() == self.candidates@.len()
    }

    /// A picker over the modules of a source (directory and manifest), all
    /// ticked, cursor on the first.
    pub fn new(modules: &[(String, Module)]) -> (r: Self)
        ensures
            r.wf(),
            r.cursor == 0,
            r.candidates@.len() == modules@.len(),
            forall|i: int| 0 <= i < modules@.len() ==> (#[trigger] r.candidates@[i]).0@ == modules@[i].1.name@
                && r.candidates@[i].1@ == modules@[i].0@,
            forall|i: int| 0 <= i < modules@.len() ==> #[trigger] r.selected@[i],
    {
        let mut candidates: Vec<(String, String)> = Vec::new();
        let mut selected: Vec<bool> = Vec::new();
        let mut i: usize = 0;
        while i < modules.len()
            invariant
                i <= modules@.len(),
                candidates@.len() == i,
                selected@.len() == i,
                forall|k: int| 0 <= k < i ==> (#[trigger] candidates@[k]).0@ == modules@[k].1.name@
                    && candidates@[k].1@ == modules@[k].0@,
                forall|k: int| 0 <= k < i ==> #[trigger] selected@[k],
            decreases modules@.len() - i,
        {
            candidates.push((modules[i].1.name.clone(), modules[i].0.clone()));
            selected.push(true);
            i = i + 1;
        }
        InstallSelectState { candidates, selected, cursor: 0 }
    }

    /// A key: Ctrl+C, Esc and `q` cancel, Enter confirms; down and up move
    /// the cursor with wrap-around (Ctrl+N and Ctrl+P too), space flips the
    /// tick under the cursor, `a` ticks and `n` unticks everything.
    pub fn handle_key(&mut self, code: Key, ctrl: bool) -> (r: KeyResult)
        requires
            old(self).wf(),
            old(self).cursor < old(self).candidates@.len() || old(self).candidates@.len() == 0,
        ensures
            final(self).wf(),
            final(self).candidates == old(self).candidates,
            final(self).cursor < final(self).candidates@.len() || final(self).candidates@.len() == 0,
            ({
                let n = old(self).candidates@.len();
                let c = old(self).cursor;
                let k = spec_normalize(code, ctrl);
                if ctrl && code == Key::Char('c') {
                    r == KeyResult::Cancel && final(self).selected == old(self).selected && final(self).cursor == c
                } else {
                    match k {
                        Key::Esc | Key::Char('q') => r == KeyResult::Cancel && final(self).selected == old(self).selected
                            && final(self).cursor == c,
                        Key::Enter => r == KeyResult::Confirm && final(self).selected == old(self).selected
                            && final(self).cursor == c,
                        Key::Char('j') | Key::Down => r == KeyResult::Continue && final(self).selected == old(self).selected
                            && final(self).cursor == if n > 0 { ((c + 1) % (n as int)) as usize } else { c },
                        Key::Char('k') | Key::Up => r == KeyResult::Continue && final(self).selected == old(self).selected
                            && final(self).cursor == if n > 0 { ((c + n - 1) % (n as int)) as usize } else { c },
                        Key::Char(' ') => r == KeyResult::Continue && final(self).cursor == c
                            && final(self).selected@ == if n > 0 {
                                old(self).selected@.update(c as int, !old(self).selected@[c as int])
                            } else {
                                old(self).selected@
                            },
                        Key::Char('a') => r == KeyResult::Continue && final(self).cursor == c
                            && final(self).selected@ == Seq::new(n, |i: int| true),
                        Key::Char('n') => r == KeyResult::Continue && final(self).cursor == c
                            && final(self).selected@ == Seq::new(n, |i: int| false),
                        _ => r == KeyResult::Continue && final(self).selected == old(self).selected && final(self).cursor == c,
                    }
                }
            }),
    {
        if ctrl && code == Key::Char('c') {
            return KeyResult::Cancel;
        }
        let k = normalize_emacs_key(code, ctrl);
        let n = self.candidates.len();
        match k {
            Key::Esc | Key::Char('q') => KeyResult::Cancel,
            Key::Enter => KeyResult::Confirm,
            Key::Char('j') | Key::Down => {
                if n > 0 {
                    self.cursor = if self.cursor + 1 == n { 0 } else { self.cursor + 1 };
                    proof {
                        let c = old(self).cursor;
                        if c + 1 < n {
                            assert((c + 1) % (n as int) == c + 1) by (nonlinear_arith)
                                requires
                                    0 <= c + 1 < n,
                            ;
                        } else {
                            assert((c + 1) % (n as int) == 0) by (nonlinear_arith)
                                requires
                                    c + 1 == n,
                                    n > 0,
                            ;
                        }
                    }
                }
                KeyResult::Continue
            },
            Key::Char('k') | Key::Up => {
                if n > 0 {
                    self.cursor = if self.cursor == 0 { n - 1 } else { self.cursor - 1 };
                    proof {
                        let c = old(self).cursor;
                        if c == 0 {
                            assert((c + n - 1) % (n as int) == n - 1) by (nonlinear_arith)
                                requires
                                    c == 0,
                                    n > 0,
                            ;
                        } else {
                            assert((c + n - 1) % (n as int) == c - 1) by (nonlinear_arith)
                                requires
                                    0 < c < n,
                            ;
                        }
                    }
                }
                KeyResult::Continue
            },
            Key::Char(' ') => {
                if n > 0 {
                    let c = self.cursor;
                    let v = self.selected[c];
                    self.selected.set(c, !v);
                }
                KeyResult::Continue
            },
            Key::Char('a') => {
                self.set_all(true);
                KeyResult::Continue
            },
            Key::Char('n') => {
                self.set_all(false);
                KeyResult::Continue
            },
            _ => KeyResult::Continue,
        }
    }

    fn set_all(&mut self, v: bool)
        requires
            old(self).wf(),
        ensures
            final(self).wf(),
            final(self).candidates == old(self).candidates,
            final(self).cursor == old(self).cursor,
            final(self).selected@ == Seq::new(old(self).candidates@.len(), |i: int| v),
    {
        let n = self.selected.len();
        let mut i: usize = 0;
        while i < n
            invariant
                n == self.selected@.len(),
                self.selected@.len() == self.candidates@.len(),
                self.candidates == old(self).candidates,
                self.cursor == old(self).cursor,
                i <= n,
                forall|k: int| 0 <= k < i ==> #[trigger] self.selected@[k] == v,
            decreases n - i,
        {
            self.selected.set(i, v);
            i = i + 1;
        }
        assert(self.selected@ =~= Seq::new(old(self).candidates@.len(), |i: int| v));
    }

    /// The positions of the ticked candidates, in order.
    pub fn selected_indices(&self) -> (r: Vec<usize>)
        ensures
            forall|k: int| 0 <= k < r@.len() ==> (#[trigger] r@[k]) < self.selected@.len() && self.selected@[r@[k] as int],
            forall|i: int| 0 <= i < self.selected@.len() && self.selected@[i] ==> r@.contains(i as usize),
            forall|a: int, b: int| 0 <= a < b < r@.len() ==> #[trigger] r@[a] < #[trigger] r@[b],
    {
        let mut r: Vec<usize> = Vec::new();
        let mut i: usize = 0;
        while i < self.selected.len()
            invariant
                i <= self.selected@.len(),
                forall|k: int| 0 <= k < r@.len() ==> (#[trigger] r@[k]) < i && self.selected@[r@[k] as int],
                forall|j: int| 0 <= j < i && self.selected@[j] ==> r@.contains(j as usize),
                forall|a: int, b: int| 0 <= a < b < r@.len() ==> #[trigger] r@[a] < #[trigger] r@[b],
            decreases self.selected@.len() - i,
        {
            if self.selected[i] {
                let ghost before = r@;
                r.push(i);
                proof {
                    assert forall|j: int| 0 <= j < i + 1 && self.selected@[j] implies r@.contains(j as usize) by {
                        if j < i {
                            assert(before.contains(j as usize));
                            let m = choose|m: int| 0 <= m < before.len() && before[m] == j as usize;
                            assert(r@[m] == j as usize);
                        } else {
                            assert(r@[r@.len() - 1] == i);
                        }
                    }
                }
            }
            i = i + 1;
        }
        r
    }
}

} // verus!
