//! Sets of paths, as the interface keeps the selected and the checked items:
//! paths are compared by components (as `std::path::Path` compares them),
//! and each path is held once.

use vstd::prelude::*;
use crate::path::{path_eq, path_eq_exec, path_starts_with, path_starts_with_exec};
use crate::text::chars_of;

verus! {

/// Whether `v` holds a path equal to `q`.
pub open spec fn holds(v: Seq<String>, q: Seq<char>) -> bool {
    exists|i: int| 0 <= i < v.len() && path_eq(#[trigger] v[i]@, q)
}

/// No two entries of `v` are the same path.
pub open spec fn distinct_paths(v: Seq<String>) -> bool {
    forall|i: int, j: int| 0 <= i < v.len() && 0 <= j < v.len() && i != j ==> !path_eq(#[trigger] v[i]@, #[trigger] v[j]@)
}

/// A set of paths.
pub struct PathSet {
    paths: Vec<String>,
}

impl PathSet {
    /// The paths, in the order they were added.
    pub closed spec fn entries(&self) -> Seq<String> {
        self.paths@
    }

    /// No path is held twice.
    pub open spec fn wf(&self) -> bool {
        distinct_paths(self.entries())
    }

    /// Whether the set holds path `q`.
    pub open spec fn has(&self, q: Seq<char>) -> bool {
        holds(self.entries(), q)
    }

    /// The empty set.
    pub fn new() -> (r: Self)
        ensures
            r.wf(),
            r.entries().len() == 0,
            forall|q: Seq<char>| !#[trigger] r.has(q),
    {
        PathSet { paths: Vec::new() }
    }

    /// How many paths the set holds.
    pub fn len(&self) -> (r: usize)
        ensures
            r == self.entries().len(),
    {
        self.paths.len()
    }

    /// Whether the set is empty.
    pub fn is_empty(&self) -> (r: bool)
        ensures
            r == (self.entries().len() == 0),
            r ==> forall|q: Seq<char>| !#[trigger] self.has(q),
    {
        self.paths.len() == 0
    }

    /// The paths, in the order they were added.
    pub fn paths(&self) -> (r: &Vec<String>)
        ensures
            r@ == self.entries(),
    {
        &self.paths
    }

    /// The position of the entry equal to `p`.
    fn find(&self, p: &[char]) -> (r: Option<usize>)
        ensures
            match r {
                Some(j) => j < self.entries().len() && path_eq(self.entries()[j as int]@, p@),
                None => forall|j: int| 0 <= j < self.entries().len() ==> !path_eq(#[trigger] self.entries()[j]@, p@),
            },
    {
        let mut j: usize = 0;
        while j < self.paths.len()
            invariant
                j <= self.paths@.len(),
                forall|k: int| 0 <= k < j ==> !path_eq(#[trigger] self.paths@[k]@, p@),
            decreases self.paths@.len() - j,
        {
            let kc = chars_of(self.paths[j].as_str());
            if path_eq_exec(kc.as_slice(), p) {
                return Some(j);
            }
            j = j + 1;
        }
        None
    }

    /// Whether the set holds `path`.
    pub fn contains(&self, path: &str) -> (r: bool)
        ensures
            r == self.has(path@),
    {
        let pc = chars_of(path);
        self.find(pc.as_slice()).is_some()
    }

    /// Adds `path`; false when it was already there (then nothing changes).
    pub fn insert(&mut self, path: String) -> (r: bool)
        requires
            old(self).wf(),
        ensures
            final(self).wf(),
            r == !old(self).has(path@),
            forall|q: Seq<char>| #[trigger] final(self).has(q) == (old(self).has(q) || path_eq(q, path@)),
            final(self).entries().len() == old(self).entries().len() + if r { 1int } else { 0int },
    {
        let pc = chars_of(path.as_str());
        let ghost v0 = self.paths@;
        match self.find(pc.as_slice()) {
            Some(j) => {
                proof {
                    assert forall|q: Seq<char>| path_eq(q, path@) implies #[trigger] holds(v0, q) by {
                        assert(path_eq(v0[j as int]@, q));
                    }
                }
                false
            },
            None => {
                self.paths.push(path);
                proof {
                    let v1 = self.paths@;
                    let n = v0.len() as int;
                    assert(forall|i: int| 0 <= i < n ==> #[trigger] v1[i] == v0[i]);
                    assert forall|q: Seq<char>| #[trigger] holds(v1, q) == (holds(v0, q) || path_eq(q, pc@)) by {
                        if holds(v1, q) {
                            let i = choose|i: int| 0 <= i < v1.len() && path_eq(#[trigger] v1[i]@, q);
                            if i < n {
                                assert(path_eq(v0[i]@, q));
                            }
                        }
                        if holds(v0, q) {
                            let i = choose|i: int| 0 <= i < v0.len() && path_eq(#[trigger] v0[i]@, q);
                            assert(path_eq(v1[i]@, q));
                        }
                        if path_eq(q, pc@) {
                            assert(path_eq(v1[n]@, q));
                        }
                    }
                    assert(!holds(v0, path@)) by {
                        if holds(v0, path@) {
                            let i = choose|i: int| 0 <= i < v0.len() && path_eq(#[trigger] v0[i]@, path@);
                            assert(!path_eq(v0[i]@, pc@));
                        }
                    }
                }
                true
            },
        }
    }

    /// Removes `path`; true when it was there.
    pub fn remove(&mut self, path: &str) -> (r: bool)
        requires
            old(self).wf(),
        ensures
            final(self).wf(),
            r == old(self).has(path@),
            forall|q: Seq<char>| #[trigger] final(self).has(q) == (old(self).has(q) && !path_eq(q, path@)),
    {
        let pc = chars_of(path);
        let ghost v0 = self.paths@;
        match self.find(pc.as_slice()) {
            Some(j) => {
                self.paths.remove(j);
                proof {
                    let v1 = self.paths@;
                    assert(forall|i: int| 0 <= i < j ==> #[trigger] v1[i] == v0[i]);
                    assert(forall|i: int| j <= i < v1.len() ==> #[trigger] v1[i] == v0[i + 1]);
                    assert forall|a: int, b: int| 0 <= a < v1.len() && 0 <= b < v1.len() && a != b
                        implies !path_eq(#[trigger] v1[a]@, #[trigger] v1[b]@) by {
                        let a0 = if a < j { a } else { a + 1 };
                        let b0 = if b < j { b } else { b + 1 };
                        assert(v1[a] == v0[a0]);
                        assert(v1[b] == v0[b0]);
                    }
                    assert forall|q: Seq<char>| #[trigger] holds(v1, q) == (holds(v0, q) && !path_eq(q, pc@)) by {
                        if holds(v1, q) {
                            let i = choose|i: int| 0 <= i < v1.len() && path_eq(#[trigger] v1[i]@, q);
                            let i0 = if i < j { i } else { i + 1 };
                            assert(v1[i] == v0[i0]);
                            assert(path_eq(v0[i0]@, q));
                            assert(i0 != j);
                            assert(!path_eq(v0[i0]@, v0[j as int]@));
                        }
                        if holds(v0, q) && !path_eq(q, pc@) {
                            let i = choose|i: int| 0 <= i < v0.len() && path_eq(#[trigger] v0[i]@, q);
                            assert(i != j);
                            if i < j {
                                assert(path_eq(v1[i]@, q));
                            } else {
                                assert(path_eq(v1[i - 1]@, q));
                            }
                        }
                    }
                    assert(holds(v0, path@)) by {
                        assert(path_eq(v0[j as int]@, path@));
                    }
                }
                true
            },
            None => {
                proof {
                    assert(!holds(v0, path@)) by {
                        if holds(v0, path@) {
                            let i = choose|i: int| 0 <= i < v0.len() && path_eq(#[trigger] v0[i]@, path@);
                            assert(!path_eq(v0[i]@, pc@));
                        }
                    }
                    assert forall|q: Seq<char>| #[trigger] holds(v0, q) == (holds(v0, q) && !path_eq(q, pc@)) by {
                        if holds(v0, q) && path_eq(q, pc@) {
                            let i = choose|i: int| 0 <= i < v0.len() && path_eq(#[trigger] v0[i]@, q);
                            assert(!path_eq(v0[i]@, pc@));
                        }
                    }
                }
                false
            },
        }
    }

    /// Drops every path that lies at or below `base`.
    pub fn remove_under(&mut self, base: &str)
        requires
            old(self).wf(),
        ensures
            final(self).wf(),
            forall|q: Seq<char>| #[trigger] final(self).has(q) == (old(self).has(q) && !path_starts_with(q, base@)),
    {
        let bc = chars_of(base);
        let ghost v0 = self.paths@;
        let mut kept: Vec<String> = Vec::new();
        let mut i: usize = 0;
        while i < self.paths.len()
            invariant
                i <= self.paths@.len(),
                self.paths@ == v0,
                distinct_paths(v0),
                bc@ == base@,
                distinct_paths(kept@),
                forall|k: int| 0 <= k < kept@.len() ==> exists|m: int| 0 <= m < i && #[trigger] kept@[k] == v0[m],
                forall|q: Seq<char>| #[trigger] holds(kept@, q) == (holds(v0.take(i as int), q) && !path_starts_with(q, base@)),
            decreases self.paths@.len() - i,
        {
            let pc = chars_of(self.paths[i].as_str());
            let ghost t = v0.take(i + 1);
            let ghost k0 = kept@;
            proof {
                assert(t[i as int] == v0[i as int]);
                assert forall|k: int| 0 <= k < i implies #[trigger] t[k] == v0.take(i as int)[k] by {}
            }
            if !path_starts_with_exec(pc.as_slice(), bc.as_slice()) {
                kept.push(self.paths[i].clone());
                proof {
                    let k1 = kept@;
                    assert(k1[k1.len() - 1] == v0[i as int]);
                    assert forall|a: int, b: int| 0 <= a < k1.len() && 0 <= b < k1.len() && a != b
                        implies !path_eq(#[trigger] k1[a]@, #[trigger] k1[b]@) by {
                        if a < k0.len() && b < k0.len() {
                            assert(k1[a] == k0[a]);
                            assert(k1[b] == k0[b]);
                        } else if a < k0.len() {
                            assert(k1[a] == k0[a]);
                            let m = choose|m: int| 0 <= m < i && #[trigger] k0[a] == v0[m];
                            assert(!path_eq(v0[m]@, v0[i as int]@));
                        } else {
                            assert(k1[b] == k0[b]);
                            let m = choose|m: int| 0 <= m < i && #[trigger] k0[b] == v0[m];
                            assert(!path_eq(v0[m]@, v0[i as int]@));
                        }
                    }
                    assert forall|k: int| 0 <= k < k1.len() implies exists|m: int| 0 <= m < i + 1 && #[trigger] k1[k] == v0[m] by {
                        if k < k0.len() {
                            assert(k1[k] == k0[k]);
                            let m = choose|m: int| 0 <= m < i && #[trigger] k0[k] == v0[m];
                            assert(k1[k] == v0[m]);
                        } else {
                            assert(k1[k] == v0[i as int]);
                        }
                    }
                    assert forall|q: Seq<char>| #[trigger] holds(k1, q) == (holds(t, q) && !path_starts_with(q, base@)) by {
                        if holds(k1, q) {
                            let a = choose|a: int| 0 <= a < k1.len() && path_eq(#[trigger] k1[a]@, q);
                            if a < k0.len() {
                                assert(k1[a] == k0[a]);
                                assert(holds(k0, q));
                                let b = choose|b: int| 0 <= b < i && path_eq(#[trigger] v0.take(i as int)[b]@, q);
                                assert(path_eq(t[b]@, q));
                            } else {
                                assert(path_eq(t[i as int]@, q));
                            }
                        }
                        if holds(t, q) && !path_starts_with(q, base@) {
                            let a = choose|a: int| 0 <= a < t.len() && path_eq(#[trigger] t[a]@, q);
                            if a < i {
                                assert(path_eq(v0.take(i as int)[a]@, q));
                                assert(holds(k0, q));
                                let b = choose|b: int| 0 <= b < k0.len() && path_eq(#[trigger] k0[b]@, q);
                                assert(path_eq(k1[b]@, q));
                            } else {
                                assert(path_eq(k1[k1.len() - 1]@, q));
                            }
                        }
                    }
                }
            } else {
                proof {
                    assert forall|q: Seq<char>| #[trigger] holds(k0, q) == (holds(t, q) && !path_starts_with(q, base@)) by {
                        if holds(t, q) && !path_starts_with(q, base@) {
                            let a = choose|a: int| 0 <= a < t.len() && path_eq(#[trigger] t[a]@, q);
                            if a < i {
                                assert(path_eq(v0.take(i as int)[a]@, q));
                            } else {
                                assert(path_eq(v0[i as int]@, q));
                            }
                        }
                        if holds(k0, q) {
                            let b = choose|b: int| 0 <= b < i && path_eq(#[trigger] v0.take(i as int)[b]@, q);
                            assert(path_eq(t[b]@, q));
                        }
                    }
                }
            }
            i = i + 1;
        }
        proof {
            assert(v0.take(v0.len() as int) =~= v0);
        }
        self.paths = kept;
    }

    /// Selects `path` in place of anything already selected below it.
    pub fn select_replacing(&mut self, path: String)
        requires
            old(self).wf(),
        ensures
            final(self).wf(),
            forall|q: Seq<char>| #[trigger] final(self).has(q) == (path_eq(q, path@)
                || (old(self).has(q) && !path_starts_with(q, path@))),
    {
        let ghost s0 = *self;
        self.remove_under(path.as_str());
        let ghost s1 = *self;
        let ghost p = path@;
        self.insert(path);
        proof {
            assert forall|q: Seq<char>| #[trigger] self.has(q) == (path_eq(q, p) || (s0.has(q) && !path_starts_with(q, p))) by {
                assert(s1.has(q) == (s0.has(q) && !path_starts_with(q, p)));
            }
        }
    }

    /// Toggles `path`: removes it when held, else selects it in place of
    /// anything selected below it. True when it was held.
    pub fn toggle(&mut self, path: String) -> (r: bool)
        requires
            old(self).wf(),
        ensures
            final(self).wf(),
            r == old(self).has(path@),
            r ==> forall|q: Seq<char>| #[trigger] final(self).has(q) == (old(self).has(q) && !path_eq(q, path@)),
            !r ==> forall|q: Seq<char>| #[trigger] final(self).has(q) == (path_eq(q, path@)
                || (old(self).has(q) && !path_starts_with(q, path@))),
    {
        if self.remove(path.as_str()) {
            true
        } else {
            let ghost s0 = *self;
            self.select_replacing(path);
            false
        }
    }

    /// Empties the set.
    pub fn clear(&mut self)
        ensures
            final(self).wf(),
            final(self).entries().len() == 0,
            forall|q: Seq<char>| !#[trigger] final(self).has(q),
    {
        self.paths.clear();
    }

    /// A copy of the set.
    pub fn copy(&self) -> (r: Self)
        ensures
            r.entries() == self.entries(),
    {
        let mut v: Vec<String> = Vec::new();
        let mut i: usize = 0;
        while i < self.paths.len()
            invariant
                i <= self.paths@.len(),
                v@ == self.paths@.take(i as int),
            decreases self.paths@.len() - i,
        {
            v.push(self.paths[i].clone());
            assert(v@ =~= self.paths@.take(i + 1));
            i = i + 1;
        }
        assert(self.paths@.take(self.paths@.len() as int) =~= self.paths@);
        PathSet { paths: v }
    }

    /// The paths, copied.
    pub fn to_vec(&self) -> (r: Vec<String>)
        ensures
            r@ == self.entries(),
    {
        let mut v: Vec<String> = Vec::new();
        let mut i: usize = 0;
        while i < self.paths.len()
            invariant
                i <= self.paths@.len(),
                v@ == self.paths@.take(i as int),
            decreases self.paths@.len() - i,
        {
            v.push(self.paths[i].clone());
            assert(v@ =~= self.paths@.take(i + 1));
            i = i + 1;
        }
        assert(self.paths@.take(self.paths@.len() as int) =~= self.paths@);
        v
    }

    /// Whether both sets hold the same paths, in the same order.
    pub fn same_as(&self, other: &PathSet) -> (r: bool)
        ensures
            r ==> forall|q: Seq<char>| #[trigger] self.has(q) == other.has(q),
            r == (self.entries().len() == other.entries().len()
                && forall|i: int| 0 <= i < self.entries().len() ==> #[trigger] self.entries()[i]@ == other.entries()[i]@),
    {
        if self.paths.len() != other.paths.len() {
            return false;
        }
        let mut i: usize = 0;
        while i < self.paths.len()
            invariant
                i <= self.paths@.len(),
                self.paths@.len() == other.paths@.len(),
                forall|k: int| 0 <= k < i ==> #[trigger] self.paths@[k]@ == other.paths@[k]@,
            decreases self.paths@.len() - i,
        {
            if !crate::text::str_eq(self.paths[i].as_str(), other.paths[i].as_str()) {
                return false;
            }
            i = i + 1;
        }
        proof {
            assert forall|q: Seq<char>| #[trigger] self.has(q) == other.has(q) by {
                if self.has(q) {
                    let k = choose|k: int| 0 <= k < self.paths@.len() && path_eq(#[trigger] self.paths@[k]@, q);
                    assert(path_eq(other.paths@[k]@, q));
                }
                if other.has(q) {
                    let k = choose|k: int| 0 <= k < other.paths@.len() && path_eq(#[trigger] other.paths@[k]@, q);
                    assert(path_eq(self.paths@[k]@, q));
                }
            }
        }
        true
    }

    /// Drops every path that `other` holds.
    pub fn remove_all_of(&mut self, other: &PathSet)
        requires
            old(self).wf(),
        ensures
            final(self).wf(),
            forall|q: Seq<char>| #[trigger] final(self).has(q) == (old(self).has(q) && !other.has(q)),
    {
        let ghost s0 = *self;
        let mut i: usize = 0;
        while i < other.paths.len()
            invariant
                i <= other.paths@.len(),
                self.wf(),
                forall|q: Seq<char>| #[trigger] self.has(q) == (s0.has(q) && !holds(other.paths@.take(i as int), q)),
            decreases other.paths@.len() - i,
        {
            let ghost s1 = *self;
            let ghost p = other.paths@[i as int]@;
            self.remove(other.paths[i].as_str());
            proof {
                let t = other.paths@.take(i + 1);
                assert forall|q: Seq<char>| #[trigger] self.has(q) == (s0.has(q) && !holds(t, q)) by {
                    assert(self.has(q) == (s1.has(q) && !path_eq(q, p)));
                    if holds(t, q) {
                        let k = choose|k: int| 0 <= k < t.len() && path_eq(#[trigger] t[k]@, q);
                        if k < i {
                            assert(path_eq(other.paths@.take(i as int)[k]@, q));
                        }
                    }
                    if holds(other.paths@.take(i as int), q) {
                        let k = choose|k: int| 0 <= k < i && path_eq(#[trigger] other.paths@.take(i as int)[k]@, q);
                        assert(path_eq(t[k]@, q));
                    }
                    if path_eq(q, p) {
                        assert(path_eq(t[i as int]@, q));
                    }
                }
            }
            i = i + 1;
        }
        assert(other.paths@.take(other.paths@.len() as int) =~= other.paths@);
    }
}


impl PathSet {
    /// Whether every path of the set is held by `other`.
    fn within(&self, other: &PathSet) -> (r: bool)
        ensures
            r == forall|q: Seq<char>| #[trigger] self.has(q) ==> other.has(q),
    {
        let mut i: usize = 0;
        while i < self.paths.len()
            invariant
                i <= self.paths@.len(),
                forall|k: int| 0 <= k < i ==> other.has(#[trigger] self.paths@[k]@),
            decreases self.paths@.len() - i,
        {
            if !other.contains(self.paths[i].as_str()) {
                proof {
                    assert(self.has(self.paths@[i as int]@)) by {
                        assert(path_eq(self.paths@[i as int]@, self.paths@[i as int]@));
                    }
                }
                return false;
            }
            i = i + 1;
        }
        proof {
            assert forall|q: Seq<char>| #[trigger] self.has(q) implies other.has(q) by {
                let k = choose|k: int| 0 <= k < self.paths@.len() && path_eq(#[trigger] self.paths@[k]@, q);
                assert(other.has(self.paths@[k]@));
                let j = choose|j: int| 0 <= j < other.paths@.len() && path_eq(#[trigger] other.paths@[j]@, self.paths@[k]@);
                assert(path_eq(other.paths@[j]@, q));
            }
        }
        true
    }

    /// Whether both sets hold the same number of paths and the same paths.
    pub fn same_paths(&self, other: &PathSet) -> (r: bool)
        ensures
            r == (self.entries().len() == other.entries().len() && forall|q: Seq<char>| #[trigger] self.has(q) == other.has(q)),
    {
        if self.paths.len() != other.paths.len() {
            return false;
        }
        let a = self.within(other);
        let b = other.within(self);
        proof {
            if !(a && b) {
                if !a {
                    let q = choose|q: Seq<char>| !(#[trigger] self.has(q) ==> other.has(q));
                    assert(self.has(q) != other.has(q));
                } else {
                    let q = choose|q: Seq<char>| !(#[trigger] other.has(q) ==> self.has(q));
                    assert(self.has(q) != other.has(q));
                }
            }
        }
        a && b
    }
}
} // verus!
