//! Filtering of the module and item lists: a case-insensitive text query
//! (with `#` to search tags only) and the risk / restore toggles.

use vstd::prelude::*;
use crate::manifest::{RestoreKind, RiskLevel};
use crate::text::{chars_of, contains_chars, seq_contains};

verus! {

/// What `str::to_lowercase` gives for a string (Unicode lowercase mapping).
pub uninterp spec fn lowercase(s: Seq<char>) -> Seq<char>;

/// `str::to_lowercase`: the Unicode lowercase form of `s`. The result is
/// named, not described: it depends on `s` alone.
#[verifier::external_body]
fn to_lowercase(s: &str) -> (r: String)
    ensures
        r@ == lowercase(s@),
{
    s.to_lowercase()
}

/// Whether the lowercase form of `s` contains that of `q`.
pub open spec fn lower_contains(s: Seq<char>, q: Seq<char>) -> bool {
    seq_contains(lowercase(s), lowercase(q))
}

/// Whether some tag matches `q`, ignoring case.
pub open spec fn some_tag_matches(tags: Seq<String>, q: Seq<char>) -> bool {
    exists|i: int| 0 <= i < tags.len() && lower_contains(#[trigger] tags[i]@, q)
}

/// What the filter accepts: everything for an empty query; for `#` and a
/// text, the entries with a tag that contains the text; otherwise the
/// entries whose name or one of whose tags contains the query, ignoring
/// case.
pub open spec fn spec_matches_filter(haystack: Seq<char>, tags: Seq<String>, query: Seq<char>) -> bool {
    if query.len() == 0 {
        true
    } else if query[0] == '#' {
        let tq = query.skip(1);
        tq.len() == 0 || some_tag_matches(tags, tq)
    } else {
        lower_contains(haystack, query) || some_tag_matches(tags, query)
    }
}

fn any_tag_matches(tags: &[String], q: &str) -> (r: bool)
    ensures
        r == some_tag_matches(tags@, q@),
{
    let lq = to_lowercase(q);
    let lqc = chars_of(lq.as_str());
    let mut i: usize = 0;
    while i < tags.len()
        invariant
            i <= tags@.len(),
            lqc@ == lowercase(q@),
            forall|k: int| 0 <= k < i ==> !lower_contains(#[trigger] tags@[k]@, q@),
        decreases tags@.len() - i,
    {
        let lt = to_lowercase(tags[i].as_str());
        let ltc = chars_of(lt.as_str());
        if contains_chars(ltc.as_slice(), lqc.as_slice()) {
            return true;
        }
        i = i + 1;
    }
    false
}

/// Case-insensitive match of a list entry against the filter query.
pub fn matches_filter(haystack: &str, tags: &[String], query: &str) -> (r: bool)
    ensures
        r == spec_matches_filter(haystack@, tags@, query@),
{
    let qc = chars_of(query);
    if qc.len() == 0 {
        return true;
    }
    if qc[0] == '#' {
        let tag_query = query.substring_char(1, qc.len());
        assert(tag_query@ =~= query@.skip(1));
        if qc.len() == 1 {
            return true;
        }
        return any_tag_matches(tags, tag_query);
    }
    let lq = to_lowercase(query);
    let lh = to_lowercase(haystack);
    let lqc = chars_of(lq.as_str());
    let lhc = chars_of(lh.as_str());
    contains_chars(lhc.as_slice(), lqc.as_slice()) || any_tag_matches(tags, query)
}

/// The position of a risk level among the risk toggles.
pub open spec fn risk_slot(r: RiskLevel) -> int {
    match r {
        RiskLevel::Safe => 0,
        RiskLevel::Low => 1,
        RiskLevel::Medium => 2,
        RiskLevel::High => 3,
    }
}

/// The position of a restore kind among the restore toggles.
pub open spec fn restore_slot(k: RestoreKind) -> int {
    match k {
        RestoreKind::Auto => 0,
        RestoreKind::Manual => 1,
    }
}

/// Whether an item passes the risk and restore toggles: both of its
/// toggles must be on.
pub fn matches_structured_filter(
    risk: RiskLevel,
    restore: RestoreKind,
    filter_risk: &[bool; 4],
    filter_restore: &[bool; 2],
) -> (r: bool)
    ensures
        r == (filter_risk@[risk_slot(risk)] && filter_restore@[restore_slot(restore)]),
{
    let risk_ok = match risk {
        RiskLevel::Safe => filter_risk[0],
        RiskLevel::Low => filter_risk[1],
        RiskLevel::Medium => filter_risk[2],
        RiskLevel::High => filter_risk[3],
    };
    let restore_ok = match restore {
        RestoreKind::Auto => filter_restore[0],
        RestoreKind::Manual => filter_restore[1],
    };
    risk_ok && restore_ok
}

} // verus!
