//! Pieces of the terminal interface that are plain computation: ordering by
//! size, checkbox marks, pruning a selection to its topmost paths, the items
//! of the confirmation list, wrapping a failure reason, and "how long ago".

use vstd::prelude::*;
use std::cmp::Ordering;
use crate::exec::spec_is_whitespace;
use crate::exec::is_whitespace;
use crate::manifest::{hex_value, is_hex_digit, RestoreKind, RiskLevel};
use crate::session::utf8_len;
use crate::path::{is_proper_ancestor, is_proper_ancestor_exec, path_eq, path_eq_exec};
use crate::safety::SafetyLevel;
use crate::text::{chars_of, decimal, push_chars, push_decimal, push_str};

verus! {

// ---------------------------------------------------------------------------
// Ordering by size
// ---------------------------------------------------------------------------

/// The order of two sizes in lists sorted by size: unknown sizes first,
/// then the largest first.
pub open spec fn size_desc_order(a: Option<u64>, b: Option<u64>) -> Ordering {
    match (b, a) {
        (Some(sb), Some(sa)) => if sb < sa {
            Ordering::Less
        } else if sb > sa {
            Ordering::Greater
        } else {
            Ordering::Equal
        },
        (Some(_), None) => Ordering::Less,
        (None, Some(_)) => Ordering::Greater,
        (None, None) => Ordering::Equal,
    }
}

/// Compares two sizes for a descending sort, unknown sizes first.
pub fn cmp_size_desc(a: Option<u64>, b: Option<u64>) -> (r: Ordering)
    ensures
        r == size_desc_order(a, b),
{
    match (b, a) {
        (Some(sb), Some(sa)) => if sb < sa {
            Ordering::Less
        } else if sb > sa {
            Ordering::Greater
        } else {
            Ordering::Equal
        },
        (Some(_), None) => Ordering::Less,
        (None, Some(_)) => Ordering::Greater,
        (None, None) => Ordering::Equal,
    }
}

// ---------------------------------------------------------------------------
// Checkboxes
// ---------------------------------------------------------------------------

/// How much of a group is selected.
#[derive(Debug, Clone, Copy, PartialEq, Eq, Structural)]
pub enum CheckState {
    /// Nothing selected.
    Empty,
    /// Everything selected.
    All,
    /// Some but not all selected.
    Partial,
}

/// The mark shown for each check state.
pub open spec fn checkbox_text(s: CheckState) -> Seq<char> {
    match s {
        CheckState::Empty => "[ ]"@,
        CheckState::All => "[x]"@,
        CheckState::Partial => "[~]"@,
    }
}

/// The checkbox mark of a check state.
pub fn checkbox_str(state: &CheckState) -> (r: &'static str)
    ensures
        r@ == checkbox_text(*state),
{
    match state {
        CheckState::Empty => "[ ]",
        CheckState::All => "[x]",
        CheckState::Partial => "[~]",
    }
}

// ---------------------------------------------------------------------------
// Screen areas
// ---------------------------------------------------------------------------

/// A rectangle of terminal cells: its top-left corner and its size.
#[derive(Debug, Clone, Copy, PartialEq, Eq, Structural)]
pub struct Area {
    pub x: u16,
    pub y: u16,
    pub width: u16,
    pub height: u16,
}

/// Whether a click in column `col` falls in the checkbox column of a table
/// drawn in `table_area`: within its left border, the highlight symbol and
/// the checkbox itself (eight columns).
pub fn is_checkbox_click(col: u16, table_area: Area) -> (r: bool)
    requires
        table_area.x + 8 <= u16::MAX,
    ensures
        r == (col < table_area.x + 8),
{
    col < table_area.x + 8
}

/// The side of a centred dialog along one axis: `max_percent` percent of
/// `extent`, at least `floor`, at most `extent`.
pub open spec fn dialog_extent(extent: u16, max_percent: u16, floor: u16) -> u16 {
    let scaled = (extent * max_percent / 100) as u16;
    let wide = if scaled < floor { floor } else { scaled };
    if wide < extent { wide } else { extent }
}

/// A dialog centred in `area` (its position measured from the area's
/// origin): `max_percent` percent of each side, at least 40 columns and 10
/// rows, never larger than the area.
pub fn centered_rect(area: Area, max_percent: u16) -> (r: Area)
    requires
        area.width * max_percent <= u16::MAX,
        area.height * max_percent <= u16::MAX,
    ensures
        r.width == dialog_extent(area.width, max_percent, 40),
        r.height == dialog_extent(area.height, max_percent, 10),
        r.x == (area.width - r.width) / 2,
        r.y == (area.height - r.height) / 2,
{
    let max_width = area.width * max_percent / 100;
    let max_height = area.height * max_percent / 100;
    let w0 = if max_width < 40 { 40 } else { max_width };
    let width = if w0 < area.width { w0 } else { area.width };
    let h0 = if max_height < 10 { 10 } else { max_height };
    let height = if h0 < area.height { h0 } else { area.height };
    let x = (area.width - width) / 2;
    let y = (area.height - height) / 2;
    Area { x, y, width, height }
}

// ---------------------------------------------------------------------------
// Hex colours
// ---------------------------------------------------------------------------

/// The value of one hexadecimal digit.
pub open spec fn hex_digit_value(c: char) -> Option<u8> {
    if is_hex_digit(c) {
        Some(hex_value(c) as u8)
    } else {
        None
    }
}

/// A two-character field read as `u8::from_str_radix(field, 16)` reads it:
/// two hexadecimal digits, or `+` followed by one.
pub open spec fn hex_pair_value(a: char, b: char) -> Option<u8> {
    if a == '+' {
        hex_digit_value(b)
    } else if is_hex_digit(a) && is_hex_digit(b) {
        Some((hex_value(a) * 16 + hex_value(b)) as u8)
    } else {
        None
    }
}

/// Whether byte offset `b` of the UTF-8 encoding of `t` falls between two
/// characters.
pub open spec fn is_char_boundary(t: Seq<char>, b: nat) -> bool {
    exists|k: int| 0 <= k <= t.len() && utf8_len(t.take(k)) == b
}

/// The colour a `#RRGGBB` string names.
pub open spec fn spec_parse_hex_color(s: Seq<char>) -> Option<(u8, u8, u8)> {
    if s.len() == 7 && s[0] == '#' {
        match (hex_pair_value(s[1], s[2]), hex_pair_value(s[3], s[4]), hex_pair_value(s[5], s[6])) {
            (Some(r), Some(g), Some(b)) => Some((r, g, b)),
            _ => None,
        }
    } else {
        None
    }
}

fn hex_digit_exec(c: char) -> (r: Option<u8>)
    ensures
        r == hex_digit_value(c),
{
    if '0' <= c && c <= '9' {
        Some((c as u32 - '0' as u32) as u8)
    } else if 'a' <= c && c <= 'f' {
        Some((c as u32 - 'a' as u32 + 10) as u8)
    } else if 'A' <= c && c <= 'F' {
        Some((c as u32 - 'A' as u32 + 10) as u8)
    } else {
        None
    }
}

fn hex_pair(a: char, b: char) -> (r: Option<u8>)
    ensures
        r == hex_pair_value(a, b),
{
    if a == '+' {
        return hex_digit_exec(b);
    }
    match (hex_digit_exec(a), hex_digit_exec(b)) {
        (Some(x), Some(y)) => Some(x * 16 + y),
        _ => None,
    }
}

/// Parses a hex colour such as `#2496ED` into its red, green and blue
/// components. The six characters after `#` form three fields, each read
/// as a hexadecimal byte.
pub fn parse_hex_color(hex: &str) -> (r: Option<(u8, u8, u8)>)
    requires
        hex@.len() > 0 && hex@[0] == '#' && utf8_len(hex@.skip(1)) == 6
            ==> is_char_boundary(hex@.skip(1), 2) && is_char_boundary(hex@.skip(1), 4),
    ensures
        r == spec_parse_hex_color(hex@),
{
    let cs = chars_of(hex);
    if cs.len() != 7 || cs[0] != '#' {
        return None;
    }
    match (hex_pair(cs[1], cs[2]), hex_pair(cs[3], cs[4]), hex_pair(cs[5], cs[6])) {
        (Some(r), Some(g), Some(b)) => Some((r, g, b)),
        _ => None,
    }
}

// ---------------------------------------------------------------------------
// Topmost selected paths
// ---------------------------------------------------------------------------

/// Whether `paths[i]` stays: no path of the set lies above it, and no
/// earlier path is the same path.
pub open spec fn topmost_at(paths: Seq<String>, i: int) -> bool {
    &&& forall|j: int| 0 <= j < paths.len() ==> !is_proper_ancestor(#[trigger] paths[j]@, paths[i]@)
    &&& forall|j: int| 0 <= j < i ==> !path_eq(#[trigger] paths[j]@, paths[i]@)
}

/// The paths that stay, in order.
pub open spec fn topmost(paths: Seq<String>, n: int) -> Seq<Seq<char>>
    decreases n,
{
    if n <= 0 {
        Seq::empty()
    } else {
        topmost(paths, n - 1) + if topmost_at(paths, n - 1) {
            seq![paths[n - 1]@]
        } else {
            Seq::empty()
        }
    }
}

/// The selected paths without those that lie below another selected path,
/// and without repeats: when `/a/b` and `/a/b/c/d` are both selected only
/// `/a/b` stays. The order of the input is kept.
pub fn dedup_paths(paths: &[String]) -> (r: Vec<String>)
    ensures
        r@.map_values(|s: String| s@) == topmost(paths@, paths@.len() as int),
{
    let mut cs: Vec<Vec<char>> = Vec::new();
    let mut k: usize = 0;
    while k < paths.len()
        invariant
            k <= paths@.len(),
            cs@.len() == k,
            forall|m: int| 0 <= m < k ==> #[trigger] cs@[m]@ == paths@[m]@,
        decreases paths@.len() - k,
    {
        cs.push(chars_of(paths[k].as_str()));
        k = k + 1;
    }
    let mut r: Vec<String> = Vec::new();
    let mut i: usize = 0;
    while i < paths.len()
        invariant
            i <= paths@.len(),
            cs@.len() == paths@.len(),
            forall|m: int| 0 <= m < paths@.len() ==> #[trigger] cs@[m]@ == paths@[m]@,
            r@.map_values(|s: String| s@) == topmost(paths@, i as int),
        decreases paths@.len() - i,
    {
        let mut keep = true;
        let mut j: usize = 0;
        while j < paths.len()
            invariant
                i < paths@.len(),
                j <= paths@.len(),
                cs@.len() == paths@.len(),
                forall|m: int| 0 <= m < paths@.len() ==> #[trigger] cs@[m]@ == paths@[m]@,
                keep == ((forall|m: int| 0 <= m < j ==> !is_proper_ancestor(#[trigger] paths@[m]@, paths@[i as int]@))
                    && (forall|m: int| 0 <= m < j && m < i ==> !path_eq(#[trigger] paths@[m]@, paths@[i as int]@))),
            decreases paths@.len() - j,
        {
            let above = is_proper_ancestor_exec(cs[j].as_slice(), cs[i].as_slice());
            let same = j < i && path_eq_exec(cs[j].as_slice(), cs[i].as_slice());
            if above || same {
                keep = false;
            }
            j = j + 1;
        }
        let ghost prev = r@.map_values(|s: String| s@);
        if keep {
            r.push(paths[i].clone());
            assert(r@.map_values(|s: String| s@) =~= prev.push(paths@[i as int]@));
        }
        assert(r@.map_values(|s: String| s@) =~= topmost(paths@, i + 1));
        i = i + 1;
    }
    r
}

proof fn lemma_ancestor_trans(a: Seq<char>, b: Seq<char>, c: Seq<char>)
    requires
        is_proper_ancestor(a, b),
        is_proper_ancestor(b, c),
    ensures
        is_proper_ancestor(a, c),
{
    let (ca, cb, cc) = (crate::path::components(a), crate::path::components(b), crate::path::components(c));
    assert(cc.take(ca.len() as int) =~= cb.take(ca.len() as int));
    if ca.len() == 0 {
        assert(cc[0] == cb[0]);
    }
}

/// Each kept path is some selected path that stays, and each selected path
/// that stays is kept.
proof fn lemma_topmost_members(paths: Seq<String>, n: int)
    requires
        0 <= n <= paths.len(),
    ensures
        forall|a: int| 0 <= a < topmost(paths, n).len() ==> exists|k: int|
            0 <= k < n && topmost_at(paths, k) && #[trigger] topmost(paths, n)[a] == paths[k]@,
        forall|k: int| 0 <= k < n && #[trigger] topmost_at(paths, k) ==> exists|a: int|
            0 <= a < topmost(paths, n).len() && topmost(paths, n)[a] == paths[k]@,
    decreases n,
{
    if n > 0 {
        lemma_topmost_members(paths, n - 1);
        let prev = topmost(paths, n - 1);
        let cur = topmost(paths, n);
        assert forall|a: int| 0 <= a < cur.len() implies exists|k: int|
            0 <= k < n && topmost_at(paths, k) && #[trigger] cur[a] == paths[k]@ by {
            if a < prev.len() {
                assert(cur[a] == prev[a]);
            } else {
                assert(cur[a] == paths[n - 1]@);
            }
        }
        assert forall|k: int| 0 <= k < n && #[trigger] topmost_at(paths, k) implies exists|a: int|
            0 <= a < cur.len() && cur[a] == paths[k]@ by {
            if k < n - 1 {
                let a = choose|a: int| 0 <= a < prev.len() && prev[a] == paths[k]@;
                assert(cur[a] == prev[a]);
            } else {
                assert(cur[prev.len() as int] == paths[k]@);
            }
        }
    }
}

/// Kept paths neither nest nor repeat.
proof fn lemma_topmost_apart(paths: Seq<String>, n: int)
    requires
        0 <= n <= paths.len(),
    ensures
        forall|a: int, b: int| 0 <= a < topmost(paths, n).len() && 0 <= b < topmost(paths, n).len()
            ==> !is_proper_ancestor(#[trigger] topmost(paths, n)[a], #[trigger] topmost(paths, n)[b]),
        forall|a: int, b: int| 0 <= a < b < topmost(paths, n).len()
            ==> !path_eq(#[trigger] topmost(paths, n)[a], #[trigger] topmost(paths, n)[b]),
    decreases n,
{
    if n > 0 {
        lemma_topmost_apart(paths, n - 1);
        lemma_topmost_members(paths, n - 1);
        let prev = topmost(paths, n - 1);
        let cur = topmost(paths, n);
        if topmost_at(paths, n - 1) {
            let x = paths[n - 1]@;
            assert(cur =~= prev.push(x));
            assert forall|a: int| 0 <= a < prev.len() implies !is_proper_ancestor(#[trigger] prev[a], x)
                && !is_proper_ancestor(x, prev[a]) && !path_eq(prev[a], x) by {
                let k = choose|k: int| 0 <= k < n - 1 && topmost_at(paths, k) && #[trigger] prev[a] == paths[k]@;
                assert(!is_proper_ancestor(paths[k]@, paths[n - 1]@));
                assert(!is_proper_ancestor(paths[n - 1]@, paths[k]@));
                assert(!path_eq(paths[k]@, paths[n - 1]@));
            }
            assert forall|a: int, b: int| 0 <= a < cur.len() && 0 <= b < cur.len()
                implies !is_proper_ancestor(#[trigger] cur[a], #[trigger] cur[b]) by {
                if a < prev.len() && b < prev.len() {
                    assert(cur[a] == prev[a] && cur[b] == prev[b]);
                } else if a < prev.len() {
                    assert(cur[a] == prev[a]);
                } else if b < prev.len() {
                    assert(cur[b] == prev[b]);
                } else {
                    assert(!is_proper_ancestor(paths[n - 1]@, paths[n - 1]@));
                }
            }
            assert forall|a: int, b: int| 0 <= a < b < cur.len()
                implies !path_eq(#[trigger] cur[a], #[trigger] cur[b]) by {
                assert(cur[a] == prev[a]);
                if b < prev.len() {
                    assert(cur[b] == prev[b]);
                }
            }
        } else {
            assert(cur =~= prev);
        }
    }
}

/// Every selected path is covered by a selected path that stays: the same
/// path, or one above it.
proof fn lemma_topmost_covers(paths: Seq<String>, i: int)
    requires
        0 <= i < paths.len(),
    ensures
        exists|k: int| 0 <= k < paths.len() && topmost_at(paths, k)
            && (path_eq(paths[k]@, paths[i]@) || is_proper_ancestor(paths[k]@, paths[i]@)),
    decreases crate::path::components(paths[i]@).len(), i,
{
    let p = paths[i]@;
    if exists|j: int| 0 <= j < paths.len() && is_proper_ancestor(#[trigger] paths[j]@, p) {
        let j = choose|j: int| 0 <= j < paths.len() && is_proper_ancestor(#[trigger] paths[j]@, p);
        lemma_topmost_covers(paths, j);
        let k = choose|k: int| 0 <= k < paths.len() && topmost_at(paths, k)
            && (path_eq(paths[k]@, paths[j]@) || is_proper_ancestor(paths[k]@, paths[j]@));
        if is_proper_ancestor(paths[k]@, paths[j]@) {
            lemma_ancestor_trans(paths[k]@, paths[j]@, p);
        }
    } else if exists|j: int| 0 <= j < i && path_eq(#[trigger] paths[j]@, p) {
        let j = choose|j: int| 0 <= j < i && path_eq(#[trigger] paths[j]@, p);
        lemma_topmost_covers(paths, j);
    } else {
        assert(topmost_at(paths, i));
    }
}

/// The paths kept by `dedup_paths` neither lie below one another nor
/// repeat, and every selected path is one of them or lies below one of them.
pub proof fn lemma_dedup_paths_topmost(paths: Seq<String>)
    ensures
        forall|a: int, b: int| 0 <= a < topmost(paths, paths.len() as int).len()
            && 0 <= b < topmost(paths, paths.len() as int).len()
            ==> !is_proper_ancestor(#[trigger] topmost(paths, paths.len() as int)[a],
                #[trigger] topmost(paths, paths.len() as int)[b]),
        forall|a: int, b: int| 0 <= a < b < topmost(paths, paths.len() as int).len()
            ==> !path_eq(#[trigger] topmost(paths, paths.len() as int)[a],
                #[trigger] topmost(paths, paths.len() as int)[b]),
        forall|i: int| 0 <= i < paths.len() ==> exists|a: int| 0 <= a < topmost(paths, paths.len() as int).len()
            && (path_eq(#[trigger] topmost(paths, paths.len() as int)[a], paths[i]@)
                || is_proper_ancestor(topmost(paths, paths.len() as int)[a], #[trigger] paths[i]@)),
{
    let n = paths.len() as int;
    lemma_topmost_apart(paths, n);
    lemma_topmost_members(paths, n);
    let r = topmost(paths, n);
    assert forall|i: int| 0 <= i < paths.len() implies exists|a: int| 0 <= a < r.len()
        && (path_eq(#[trigger] r[a], paths[i]@) || is_proper_ancestor(r[a], #[trigger] paths[i]@)) by {
        lemma_topmost_covers(paths, i);
        let k = choose|k: int| 0 <= k < paths.len() && topmost_at(paths, k)
            && (path_eq(paths[k]@, paths[i]@) || is_proper_ancestor(paths[k]@, paths[i]@));
        let a = choose|a: int| 0 <= a < r.len() && r[a] == paths[k]@;
        assert(r[a] == paths[k]@);
    }
}

// ---------------------------------------------------------------------------
// The confirmation list
// ---------------------------------------------------------------------------

/// A selected item as the confirmation list shows it.
pub struct ConfirmItem {
    pub name: String,
    pub path: String,
    pub size: Option<u64>,
    pub safety_level: SafetyLevel,
    pub restore_kind: RestoreKind,
    pub restore_steps: Option<String>,
    pub risk_level: RiskLevel,
    /// The exact command a handler item runs, shown before confirming.
    pub removal_command: Option<String>,
    /// Whether the removal can be undone (handler items cannot be trashed).
    pub reversible: bool,
    /// Where a handler item really lies, its own path being synthetic.
    pub display_path: Option<String>,
}

impl ConfirmItem {
    /// The location shown in the list: the real location when there is
    /// one, else the path.
    pub fn shown_path(&self) -> (r: &str)
        ensures
            r@ == match self.display_path {
                Some(d) => d@,
                None => self.path@,
            },
    {
        match &self.display_path {
            Some(d) => d.as_str(),
            None => self.path.as_str(),
        }
    }
}

// ---------------------------------------------------------------------------
// Wrapping a failure reason
// ---------------------------------------------------------------------------

/// The marker that starts a wrapped reason: three spaces, `↳`, a space.
pub open spec fn reason_prefix() -> Seq<char> {
    seq![' ', ' ', ' ', '\u{21b3}', ' ']
}

/// The indent of the continuation lines: five spaces.
pub open spec fn reason_continuation() -> Seq<char> {
    seq![' ', ' ', ' ', ' ', ' ']
}

/// Where the word starting at `i` ends.
pub open spec fn word_end(s: Seq<char>, i: int) -> int
    decreases s.len() - i,
{
    if i < 0 || i >= s.len() || spec_is_whitespace(s[i]) {
        i
    } else {
        word_end(s, i + 1)
    }
}

pub proof fn lemma_word_end(s: Seq<char>, i: int)
    requires
        0 <= i <= s.len(),
    ensures
        i <= word_end(s, i) <= s.len(),
        forall|k: int| i <= k < word_end(s, i) ==> !spec_is_whitespace(#[trigger] s[k]),
        word_end(s, i) < s.len() ==> spec_is_whitespace(s[word_end(s, i)]),
    decreases s.len() - i,
{
    if i < s.len() && !spec_is_whitespace(s[i]) {
        lemma_word_end(s, i + 1);
    }
}

/// `str::split_whitespace` of `s[i..]`: the runs of non-whitespace.
pub open spec fn words_from(s: Seq<char>, i: int) -> Seq<Seq<char>>
    decreases s.len() - i,
{
    if i < 0 || i >= s.len() {
        Seq::empty()
    } else if spec_is_whitespace(s[i]) {
        words_from(s, i + 1)
    } else {
        let e = word_end(s, i);
        proof {
            lemma_word_end(s, i + 1);
        }
        seq![s.subrange(i, e)] + words_from(s, e)
    }
}

/// The lines finished so far and the line being filled, after placing
/// `words` greedily: a word goes on the current line after a space when it
/// fits in `width`, else it starts a continuation line; the first word of a
/// line always goes on it.
pub open spec fn wrap_fold(words: Seq<Seq<char>>, width: int) -> (Seq<Seq<char>>, Seq<char>)
    decreases words.len(),
{
    if words.len() == 0 {
        (Seq::empty(), reason_prefix())
    } else {
        let prev = wrap_fold(words.drop_last(), width);
        let w = words.last();
        let cur = prev.1;
        if cur.len() > 5 && cur.len() + 1 + w.len() > width {
            (prev.0.push(cur), reason_continuation() + w)
        } else if cur.len() > 5 {
            (prev.0, cur + seq![' '] + w)
        } else {
            (prev.0, cur + w)
        }
    }
}

/// The lines of a wrapped reason; an empty reason gives one line that says
/// there is no detail.
pub open spec fn spec_wrap_reason(reason: Seq<char>, width: int) -> Seq<Seq<char>> {
    let f = wrap_fold(words_from(reason, 0), width);
    if f.0.len() == 0 && f.1.len() == 5 {
        seq![reason_prefix() + "(no detail)"@]
    } else {
        f.0.push(f.1)
    }
}

proof fn lemma_fold_len(words: Seq<Seq<char>>, width: int)
    ensures
        wrap_fold(words, width).1.len() >= 5,
    decreases words.len(),
{
    if words.len() > 0 {
        lemma_fold_len(words.drop_last(), width);
    }
}

/// Wraps a failure reason to `width` columns onto continuation lines under
/// a `↳` marker, word by word, losing no word.
pub fn wrap_reason(reason: &str, width: usize) -> (r: Vec<String>)
    requires
        reason@.len() <= usize::MAX / 4,
    ensures
        r@.map_values(|s: String| s@) == spec_wrap_reason(reason@, width as int),
{
    let cs = chars_of(reason);
    let n = cs.len();
    let mut lines: Vec<String> = Vec::new();
    let mut current = String::new();
    current.push(' ');
    current.push(' ');
    current.push(' ');
    current.push('\u{21b3}');
    current.push(' ');
    let mut current_len: usize = 5;
    let ghost mut done: Seq<Seq<char>> = Seq::empty();
    let mut i: usize = 0;
    assert(current@ =~= reason_prefix());
    while i < n
        invariant
            n == cs@.len(),
            cs@ == reason@,
            n <= usize::MAX / 4,
            i <= n,
            done + words_from(cs@, i as int) == words_from(cs@, 0),
            lines@.map_values(|s: String| s@) == wrap_fold(done, width as int).0,
            current@ == wrap_fold(done, width as int).1,
            current_len == current@.len(),
            current_len <= 5 + 2 * i,
        decreases n - i,
    {
        if is_whitespace(cs[i]) {
            proof {
                assert(words_from(cs@, i as int) == words_from(cs@, i + 1));
            }
            i = i + 1;
        } else {
            let mut e = i;
            while e < n && !is_whitespace(cs[e])
                invariant
                    i <= e <= n,
                    n == cs@.len(),
                    word_end(cs@, i as int) == word_end(cs@, e as int),
                decreases n - e,
            {
                e = e + 1;
            }
            let word_len = e - i;
            let ghost w = cs@.subrange(i as int, e as int);
            proof {
                lemma_fold_len(done, width as int);
                assert(words_from(cs@, i as int) == seq![w] + words_from(cs@, e as int));
            }
            let ghost prev_lines = lines@.map_values(|s: String| s@);
            let too_long = if current_len >= width { true } else { word_len >= width - current_len };
            if current_len > 5 && too_long {
                let finished = current;
                lines.push(finished);
                current = String::new();
                push_str(&mut current, "     ");
                proof {
                    reveal_strlit("     ");
                }
                current_len = 5;
                assert(lines@.map_values(|s: String| s@) =~= prev_lines.push(finished@));
            } else if current_len > 5 {
                current.push(' ');
                current_len = current_len + 1;
            }
            push_chars(&mut current, &cs.as_slice()[i..e]);
            current_len = current_len + word_len;
            proof {
                let d2 = done.push(w);
                assert(d2.drop_last() =~= done);
                assert(d2.last() == w);
                assert(d2 + words_from(cs@, e as int) =~= done + words_from(cs@, i as int));
                assert(current@ =~= wrap_fold(d2, width as int).1);
                done = d2;
            }
            i = e;
        }
    }
    proof {
        assert(words_from(cs@, n as int) =~= Seq::<Seq<char>>::empty());
        assert(done =~= words_from(cs@, 0));
    }
    if lines.len() == 0 && current_len == 5 {
        let mut only = String::new();
        only.push(' ');
        only.push(' ');
        only.push(' ');
        only.push('\u{21b3}');
        only.push(' ');
        push_str(&mut only, "(no detail)");
        let mut r: Vec<String> = Vec::new();
        r.push(only);
        assert(r@.map_values(|s: String| s@) =~= seq![reason_prefix() + "(no detail)"@]);
        r
    } else {
        let ghost prev_lines = lines@.map_values(|s: String| s@);
        lines.push(current);
        assert(lines@.map_values(|s: String| s@) =~= prev_lines.push(wrap_fold(done, width as int).1));
        lines
    }
}

/// The words of several groups, group after group.
pub open spec fn flat_groups(groups: Seq<Seq<Seq<char>>>) -> Seq<Seq<char>>
    decreases groups.len(),
{
    if groups.len() == 0 {
        Seq::empty()
    } else {
        flat_groups(groups.drop_last()) + groups.last()
    }
}

/// The marker that starts line `i` of a wrapped reason.
pub open spec fn line_marker(i: int) -> Seq<char> {
    if i == 0 {
        reason_prefix()
    } else {
        reason_continuation()
    }
}

/// The words on each finished line and on the line being filled, following
/// `wrap_fold` step by step.
pub open spec fn wrap_groups(words: Seq<Seq<char>>, width: int) -> (Seq<Seq<Seq<char>>>, Seq<Seq<char>>)
    decreases words.len(),
{
    if words.len() == 0 {
        (Seq::empty(), Seq::empty())
    } else {
        let prev = wrap_groups(words.drop_last(), width);
        let cur = wrap_fold(words.drop_last(), width).1;
        let w = words.last();
        if cur.len() > 5 && cur.len() + 1 + w.len() > width {
            (prev.0.push(prev.1), seq![w])
        } else {
            (prev.0, prev.1.push(w))
        }
    }
}

proof fn lemma_words_nonempty(s: Seq<char>, i: int)
    ensures
        forall|k: int| 0 <= k < words_from(s, i).len() ==> #[trigger] words_from(s, i)[k].len() > 0,
    decreases s.len() - i,
{
    if 0 <= i < s.len() {
        if spec_is_whitespace(s[i]) {
            lemma_words_nonempty(s, i + 1);
            assert(words_from(s, i) == words_from(s, i + 1));
        } else {
            let e = word_end(s, i);
            lemma_word_end(s, i + 1);
            assert(e == word_end(s, i + 1));
            assert(e >= i + 1);
            lemma_words_nonempty(s, e);
            let ws = words_from(s, i);
            assert(ws == seq![s.subrange(i, e)] + words_from(s, e));
            assert forall|k: int| 0 <= k < ws.len() implies #[trigger] ws[k].len() > 0 by {
                if k > 0 {
                    assert(ws[k] == words_from(s, e)[k - 1]);
                }
            }
        }
    }
}

proof fn lemma_joined_len(ws: Seq<Seq<char>>)
    requires
        ws.len() > 0,
        forall|k: int| 0 <= k < ws.len() ==> #[trigger] ws[k].len() > 0,
    ensures
        crate::text::joined(ws, seq![' ']).len() > 0,
    decreases ws.len(),
{
    if ws.len() > 1 {
        lemma_joined_len(ws.drop_last());
    }
}

proof fn lemma_wrap_groups(words: Seq<Seq<char>>, width: int)
    requires
        forall|k: int| 0 <= k < words.len() ==> #[trigger] words[k].len() > 0,
    ensures
        wrap_fold(words, width).0.len() == wrap_groups(words, width).0.len(),
        forall|i: int| 0 <= i < wrap_groups(words, width).0.len() ==>
            (#[trigger] wrap_groups(words, width).0[i]).len() > 0
            && wrap_fold(words, width).0[i] == line_marker(i) + crate::text::joined(wrap_groups(words, width).0[i], seq![' ']),
        wrap_fold(words, width).1 == line_marker(wrap_groups(words, width).0.len() as int)
            + crate::text::joined(wrap_groups(words, width).1, seq![' ']),
        (wrap_groups(words, width).1.len() == 0) == (words.len() == 0),
        forall|k: int| 0 <= k < wrap_groups(words, width).1.len() ==> #[trigger] wrap_groups(words, width).1[k].len() > 0,
        flat_groups(wrap_groups(words, width).0) + wrap_groups(words, width).1 == words,
    decreases words.len(),
{
    if words.len() > 0 {
        let ws = words.drop_last();
        lemma_wrap_groups(ws, width);
        let f = wrap_fold(ws, width);
        let g = wrap_groups(ws, width);
        let w = words.last();
        let cur = f.1;
        let f2 = wrap_fold(words, width);
        let g2 = wrap_groups(words, width);
        assert(ws.len() < words.len());
        if g.1.len() > 0 {
            lemma_joined_len(g.1);
        }
        assert(words =~= ws.push(w));
        if cur.len() > 5 && cur.len() + 1 + w.len() > width {
            assert(g2.0 == g.0.push(g.1));
            assert(f2.0 == f.0.push(cur));
            assert(g.1.len() > 0);
            assert(g2.0.drop_last() =~= g.0);
            assert(flat_groups(g2.0) == flat_groups(g.0) + g.1);
            assert(flat_groups(g2.0) + g2.1 =~= words);
            assert forall|i: int| 0 <= i < g2.0.len() implies (#[trigger] g2.0[i]).len() > 0
                && f2.0[i] == line_marker(i) + crate::text::joined(g2.0[i], seq![' ']) by {
                if i < g.0.len() {
                    assert(g2.0[i] == g.0[i]);
                    assert(f2.0[i] == f.0[i]);
                }
            }
            assert(crate::text::joined(seq![w], seq![' ']) == w);
        } else if cur.len() > 5 {
            assert(g.1.len() > 0);
            assert(g2.1 == g.1.push(w));
            assert(g2.1.drop_last() =~= g.1);
            assert(crate::text::joined(g2.1, seq![' ']) == crate::text::joined(g.1, seq![' ']) + seq![' '] + w);
            assert(f2.1 =~= line_marker(g2.0.len() as int) + crate::text::joined(g2.1, seq![' ']));
            assert(flat_groups(g2.0) + g2.1 =~= words);
            assert forall|k: int| 0 <= k < g2.1.len() implies #[trigger] g2.1[k].len() > 0 by {
                if k < g.1.len() {
                    assert(g2.1[k] == g.1[k]);
                }
            }
        } else {
            assert(g.1.len() == 0);
            assert(g2.1 =~= seq![w]);
            assert(crate::text::joined(seq![w], seq![' ']) == w);
            assert(crate::text::joined(g.1, seq![' ']) == Seq::<char>::empty());
            assert(f2.1 =~= line_marker(g2.0.len() as int) + crate::text::joined(g2.1, seq![' ']));
            assert(flat_groups(g2.0) + g2.1 =~= words);
        }
    }
}

/// Wrapping loses no word and adds none: the lines of a reason that has
/// words are its words, in order, split into non-empty groups, each line
/// its marker followed by its group's words separated by single spaces.
pub proof fn lemma_wrap_reason_keeps_words(reason: Seq<char>, width: int)
    ensures
        words_from(reason, 0).len() > 0 ==> exists|groups: Seq<Seq<Seq<char>>>|
            groups.len() == spec_wrap_reason(reason, width).len()
            && flat_groups(groups) == words_from(reason, 0)
            && forall|i: int| 0 <= i < groups.len() ==> (#[trigger] groups[i]).len() > 0
                && spec_wrap_reason(reason, width)[i] == line_marker(i) + crate::text::joined(groups[i], seq![' ']),
{
    let words = words_from(reason, 0);
    if words.len() > 0 {
        lemma_words_nonempty(reason, 0);
        lemma_wrap_groups(words, width);
        lemma_fold_len(words, width);
        let f = wrap_fold(words, width);
        let g = wrap_groups(words, width);
        lemma_joined_len(g.1);
        let groups = g.0.push(g.1);
        assert(groups.drop_last() =~= g.0);
        let r = spec_wrap_reason(reason, width);
        assert(r == f.0.push(f.1));
        assert forall|i: int| 0 <= i < groups.len() implies (#[trigger] groups[i]).len() > 0
            && r[i] == line_marker(i) + crate::text::joined(groups[i], seq![' ']) by {
            if i < g.0.len() {
                assert(groups[i] == g.0[i]);
                assert(r[i] == f.0[i]);
            }
        }
        assert(flat_groups(groups) == words);
    }
}


// ---------------------------------------------------------------------------
// How long ago
// ---------------------------------------------------------------------------

/// `n` and a unit, plural unless `n` is one, then `ago`.
pub open spec fn ago(n: nat, unit: Seq<char>) -> Seq<char> {
    decimal(n) + seq![' '] + unit + (if n == 1 { Seq::empty() } else { seq!['s'] }) + " ago"@
}

/// How long ago something happened, `secs` seconds before now: "just now"
/// under a minute, else in whole minutes, hours or days.
pub open spec fn spec_elapsed_text(secs: nat) -> Seq<char> {
    if secs < 60 {
        "just now"@
    } else if secs < 3600 {
        ago(secs / 60, "minute"@)
    } else if secs < 86400 {
        ago(secs / 3600, "hour"@)
    } else {
        ago(secs / 86400, "day"@)
    }
}

fn push_ago(out: &mut String, n: u64, unit: &str)
    ensures
        final(out)@ == old(out)@ + ago(n as nat, unit@),
{
    push_decimal(out, n);
    out.push(' ');
    push_str(out, unit);
    if n != 1 {
        out.push('s');
    }
    push_str(out, " ago");
    assert(final(out)@ =~= old(out)@ + ago(n as nat, unit@));
}

/// The text for something that happened `secs` seconds ago.
pub fn elapsed_text(secs: u64) -> (r: String)
    ensures
        r@ == spec_elapsed_text(secs as nat),
{
    let mut out = String::new();
    if secs < 60 {
        push_str(&mut out, "just now");
    } else if secs < 3600 {
        push_ago(&mut out, secs / 60, "minute");
    } else if secs < 86400 {
        push_ago(&mut out, secs / 3600, "hour");
    } else {
        push_ago(&mut out, secs / 86400, "day");
    }
    out
}

/// Seconds from `then` to `now`; none when `then` is later.
pub open spec fn elapsed_since(now: u64, then: u64) -> nat {
    if now >= then {
        (now - then) as nat
    } else {
        0
    }
}

/// How long ago the Unix time `epoch_secs` was, against the system clock;
/// a time in the future counts as now.
pub fn format_timestamp(epoch_secs: u64) -> (r: String)
    ensures
        exists|now: u64| r@ == spec_elapsed_text(#[trigger] elapsed_since(now, epoch_secs)),
{
    let now = crate::audit::unix_now_secs();
    let secs = if now >= epoch_secs { now - epoch_secs } else { 0 };
    let r = elapsed_text(secs);
    assert(r@ == spec_elapsed_text(elapsed_since(now, epoch_secs)));
    r
}

} // verus!
