//! Small maps keyed by paths, held as vectors of pairs: keys are compared as
//! `std::path::Path` compares them (by components), and no two keys of a
//! map are equal.

use vstd::prelude::*;
use crate::path::{path_eq, path_eq_exec};
use crate::text::chars_of;

verus! {

/// The value held for the first key of `c` that equals `p` as a path; with
/// distinct keys, for the one such key.
pub open spec fn assoc<V>(c: Seq<(String, V)>, p: Seq<char>) -> Option<V> {
    if exists|j: int| 0 <= j < c.len() && path_eq(#[trigger] c[j].0@, p) {
        Some(c[choose|j: int| 0 <= j < c.len() && path_eq(#[trigger] c[j].0@, p)].1)
    } else {
        None
    }
}

/// No two keys of `c` are equal as paths.
pub open spec fn keys_distinct<V>(c: Seq<(String, V)>) -> bool {
    forall|i: int, j: int| 0 <= i < c.len() && 0 <= j < c.len() && i != j ==> !path_eq(#[trigger] c[i].0@, #[trigger] c[j].0@)
}

pub proof fn lemma_assoc_at<V>(c: Seq<(String, V)>, j: int, p: Seq<char>)
    requires
        keys_distinct(c),
        0 <= j < c.len(),
        path_eq(c[j].0@, p),
    ensures
        assoc(c, p) == Some(c[j].1),
{
    let k = choose|k: int| 0 <= k < c.len() && path_eq(#[trigger] c[k].0@, p);
    assert(path_eq(c[k].0@, c[j].0@));
}

pub proof fn lemma_assoc_none<V>(c: Seq<(String, V)>, p: Seq<char>)
    requires
        forall|j: int| 0 <= j < c.len() ==> !path_eq(#[trigger] c[j].0@, p),
    ensures
        assoc(c, p) is None,
{
}

/// The index of the key of `c` equal to `p` as a path.
pub fn find_key<V>(c: &Vec<(String, V)>, p: &[char]) -> (r: Option<usize>)
    ensures
        match r {
            Some(j) => j < c@.len() && path_eq(c@[j as int].0@, p@),
            None => forall|j: int| 0 <= j < c@.len() ==> !path_eq(#[trigger] c@[j].0@, p@),
        },
{
    let mut j: usize = 0;
    while j < c.len()
        invariant
            j <= c@.len(),
            forall|k: int| 0 <= k < j ==> !path_eq(#[trigger] c@[k].0@, p@),
        decreases c@.len() - j,
    {
        let kc = chars_of(c[j].0.as_str());
        if path_eq_exec(kc.as_slice(), p) {
            return Some(j);
        }
        j = j + 1;
    }
    None
}

/// Sets the value for `key`, replacing that of a key equal to it as a path.
pub fn assoc_put<V: Copy>(c: &mut Vec<(String, V)>, key: String, value: V)
    requires
        keys_distinct(old(c)@),
    ensures
        keys_distinct(final(c)@),
        forall|q: Seq<char>| #[trigger] assoc(final(c)@, q) == if path_eq(q, key@) {
            Some(value)
        } else {
            assoc(old(c)@, q)
        },
{
    let kc = chars_of(key.as_str());
    let ghost c0 = c@;
    let ghost k = key@;
    match find_key(c, kc.as_slice()) {
        Some(j) => {
            let old_key = c[j].0.clone();
            c.set(j, (old_key, value));
            proof {
                let c1 = c@;
                assert(forall|i: int| 0 <= i < c1.len() ==> #[trigger] c1[i].0@ == c0[i].0@);
                assert(keys_distinct(c1));
                assert forall|q: Seq<char>| #[trigger] assoc(c1, q) == if path_eq(q, k) {
                    Some(value)
                } else {
                    assoc(c0, q)
                } by {
                    if path_eq(q, k) {
                        lemma_assoc_at(c1, j as int, q);
                    } else if exists|i: int| 0 <= i < c1.len() && path_eq(#[trigger] c1[i].0@, q) {
                        let i = choose|i: int| 0 <= i < c1.len() && path_eq(#[trigger] c1[i].0@, q);
                        lemma_assoc_at(c1, i, q);
                        lemma_assoc_at(c0, i, q);
                    } else {
                        assert forall|i: int| 0 <= i < c0.len() implies !path_eq(#[trigger] c0[i].0@, q) by {
                            assert(c1[i].0@ == c0[i].0@);
                        }
                        lemma_assoc_none(c0, q);
                    }
                }
            }
        },
        None => {
            c.push((key, value));
            proof {
                let c1 = c@;
                let n = c0.len() as int;
                assert(forall|i: int| 0 <= i < c0.len() ==> #[trigger] c1[i] == c0[i]);
                assert(keys_distinct(c1));
                assert forall|q: Seq<char>| #[trigger] assoc(c1, q) == if path_eq(q, k) {
                    Some(value)
                } else {
                    assoc(c0, q)
                } by {
                    if path_eq(q, k) {
                        lemma_assoc_at(c1, n, q);
                    } else if exists|i: int| 0 <= i < c1.len() && path_eq(#[trigger] c1[i].0@, q) {
                        let i = choose|i: int| 0 <= i < c1.len() && path_eq(#[trigger] c1[i].0@, q);
                        lemma_assoc_at(c1, i, q);
                        lemma_assoc_at(c0, i, q);
                    } else {
                        assert forall|i: int| 0 <= i < c0.len() implies !path_eq(#[trigger] c0[i].0@, q) by {
                            assert(c1[i].0@ == c0[i].0@);
                        }
                        lemma_assoc_none(c0, q);
                    }
                }
            }
        },
    }
}


/// Drops the value for the key equal to `key` as a path, if any.
pub fn assoc_remove<V>(c: &mut Vec<(String, V)>, key: &str)
    requires
        keys_distinct(old(c)@),
    ensures
        keys_distinct(final(c)@),
        forall|q: Seq<char>| #[trigger] assoc(final(c)@, q) == if path_eq(q, key@) {
            None
        } else {
            assoc(old(c)@, q)
        },
{
    let pc = chars_of(key);
    let ghost c0 = c@;
    match find_key(c, pc.as_slice()) {
        Some(j) => {
            c.remove(j);
            proof {
                let c1 = c@;
                assert(forall|i: int| 0 <= i < j ==> #[trigger] c1[i] == c0[i]);
                assert(forall|i: int| j <= i < c1.len() ==> #[trigger] c1[i] == c0[i + 1]);
                assert forall|a: int, b: int| 0 <= a < c1.len() && 0 <= b < c1.len() && a != b
                    implies !path_eq(#[trigger] c1[a].0@, #[trigger] c1[b].0@) by {
                    let a0 = if a < j { a } else { a + 1 };
                    let b0 = if b < j { b } else { b + 1 };
                    assert(c1[a] == c0[a0]);
                    assert(c1[b] == c0[b0]);
                }
                assert forall|q: Seq<char>| #[trigger] assoc(c1, q) == if path_eq(q, pc@) {
                    None
                } else {
                    assoc(c0, q)
                } by {
                    if exists|i: int| 0 <= i < c1.len() && path_eq(#[trigger] c1[i].0@, q) {
                        let i = choose|i: int| 0 <= i < c1.len() && path_eq(#[trigger] c1[i].0@, q);
                        let i0 = if i < j { i } else { i + 1 };
                        assert(c1[i] == c0[i0]);
                        assert(i0 != j);
                        lemma_assoc_at(c1, i, q);
                        lemma_assoc_at(c0, i0, q);
                        assert(!path_eq(c0[i0].0@, c0[j as int].0@));
                    } else {
                        lemma_assoc_none(c1, q);
                        if !path_eq(q, pc@) {
                            assert forall|i: int| 0 <= i < c0.len() implies !path_eq(#[trigger] c0[i].0@, q) by {
                                if i < j {
                                    assert(c1[i] == c0[i]);
                                } else if i > j {
                                    assert(c1[i - 1] == c0[i]);
                                }
                            }
                            lemma_assoc_none(c0, q);
                        }
                    }
                }
            }
        },
        None => {
            proof {
                assert forall|q: Seq<char>| path_eq(q, pc@) implies #[trigger] assoc(c0, q) is None by {
                    assert forall|i: int| 0 <= i < c0.len() implies !path_eq(#[trigger] c0[i].0@, q) by {}
                }
            }
        },
    }
}

} // verus!
