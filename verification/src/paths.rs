//! Expansion of a leading `~` to the home directory: the one rule that every
//! configured or manifest path goes through.

use vstd::prelude::*;
use crate::path::{join, join_exec};
use crate::safety::home_dir;
use crate::text::{chars_of, seq_starts_with, starts_with_at, string_of};

verus! {

/// `~` alone is the home directory; `~/rest` is `rest` under it; without a
/// home directory, or without a leading `~`, the path stays as it is.
pub open spec fn spec_expand_tilde(path: Seq<char>, home: Option<Seq<char>>) -> Seq<char> {
    match home {
        Some(h) => if path == seq!['~'] {
            h
        } else if seq_starts_with(path, seq!['~', '/']) {
            join(h, path.skip(2))
        } else {
            path
        },
        None => path,
    }
}

/// Expands a leading `~` or `~/` against the given home directory.
pub fn expand_tilde_with(path: &str, home: &Option<String>) -> (r: String)
    ensures
        r@ == spec_expand_tilde(path@, match home { Some(h) => Some(h@), None => None }),
{
    let cs = chars_of(path);
    let tilde = ['~', '/'];
    assert(tilde@ =~= seq!['~', '/']);
    assert(cs@.skip(0) =~= cs@);
    match home {
        Some(h) => {
            if cs.len() == 1 && cs[0] == '~' {
                assert(cs@ =~= seq!['~']);
                return h.clone();
            }
            if starts_with_at(cs.as_slice(), 0, &tilde) {
                let hc = chars_of(h.as_str());
                let rest = crate::text::slice_vec(cs.as_slice(), 2, cs.len());
                assert(rest@ =~= path@.skip(2));
                let j = join_exec(hc.as_slice(), rest.as_slice());
                proof {
                    assert(path@ != seq!['~']) by {
                        assert(path@.len() >= 2);
                    }
                }
                return string_of(j.as_slice());
            }
            proof {
                if path@ == seq!['~'] {
                    assert(cs@.len() == 1);
                }
            }
            string_of(cs.as_slice())
        },
        None => string_of(cs.as_slice()),
    }
}

/// Expands a leading `~` or `~/` to the user's home directory. A path that
/// does not start with `~` comes back unchanged whatever the home directory.
pub fn expand_tilde(path: &str) -> (r: String)
    ensures
        exists|h: Option<Seq<char>>| r@ == #[trigger] spec_expand_tilde(path@, h),
        path@.len() == 0 || path@[0] != '~' ==> r@ == path@,
{
    let home = home_dir();
    let r = expand_tilde_with(path, &home);
    let ghost h = match home { Some(x) => Some(x@), None => None };
    assert(r@ == spec_expand_tilde(path@, h));
    r
}

} // verus!
