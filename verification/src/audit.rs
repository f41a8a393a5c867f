//! Calendar arithmetic and formatting for the audit trail of cleanup
//! operations: UTC timestamps in ISO 8601 form, and trimming of an oversized
//! log to its most recent lines.

use vstd::prelude::*;
use crate::exec::{lines_of, strip_cr};
use crate::path::{components, components_of, path_starts_with, path_starts_with_exec, sep_joined};
use crate::text::{chars_of, decimal, first_match, find_char_from, joined, lemma_decimal, push_chars, push_decimal, push_str, string_of, CharClass};

verus! {

/// Whether a year of the proleptic Gregorian calendar has 366 days.
pub open spec fn spec_is_leap(year: int) -> bool {
    (year % 4 == 0 && year % 100 != 0) || year % 400 == 0
}

/// Whether `year` is a leap year.
pub fn is_leap(year: u64) -> (r: bool)
    ensures
        r == spec_is_leap(year as int),
{
    (year % 4 == 0 && year % 100 != 0) || year % 400 == 0
}

pub open spec fn year_days(year: int) -> int {
    if spec_is_leap(year) {
        366
    } else {
        365
    }
}

/// Days from 1970-01-01 to the first day of `year`.
pub open spec fn days_before_year(year: int) -> int
    decreases year - 1970,
{
    if year <= 1970 {
        0
    } else {
        days_before_year(year - 1) + year_days(year - 1)
    }
}

/// The number of days of month `m` (1-12) of `year`.
pub open spec fn month_len(year: int, m: int) -> int {
    if m == 2 {
        if spec_is_leap(year) {
            29
        } else {
            28
        }
    } else if m == 4 || m == 6 || m == 9 || m == 11 {
        30
    } else {
        31
    }
}

/// Days from the first of January of `year` to the first day of month `m`.
pub open spec fn days_before_month(year: int, m: int) -> int
    decreases m,
{
    if m <= 1 {
        0
    } else {
        days_before_month(year, m - 1) + month_len(year, m - 1)
    }
}

proof fn lemma_days_before_month_12(year: int)
    ensures
        days_before_month(year, 13) == year_days(year),
{
    reveal_with_fuel(days_before_month, 13);
}

/// The calendar date `days` days after 1970-01-01.
pub open spec fn is_date_of(days: int, y: int, m: int, d: int) -> bool {
    &&& y >= 1970
    &&& 1 <= m <= 12
    &&& 1 <= d <= month_len(y, m)
    &&& days == days_before_year(y) + days_before_month(y, m) + d - 1
}

/// Converts days since the Unix epoch to a (year, month, day) date.
pub fn days_to_ymd(days: u64) -> (r: (u64, u64, u64))
    ensures
        is_date_of(days as int, r.0 as int, r.1 as int, r.2 as int),
{
    let mut rest = days;
    let mut year: u64 = 1970;
    loop
        invariant
            1970 <= year,
            rest <= days,
            rest as int + days_before_year(year as int) == days as int,
            365 * (year as int - 1970) <= days as int - rest as int,
        ensures
            1970 <= year,
            rest as int + days_before_year(year as int) == days as int,
            rest < year_days(year as int),
        decreases rest,
    {
        let year_days_now: u64 = if is_leap(year) { 366 } else { 365 };
        if rest < year_days_now {
            break;
        }
        rest = rest - year_days_now;
        year = year + 1;
    }
    let leap = is_leap(year);
    let mut month: u64 = 1;
    loop
        invariant
            1 <= month <= 12,
            leap == spec_is_leap(year as int),
            rest as int + days_before_month(year as int, month as int) < year_days(year as int),
            rest as int + days_before_year(year as int) + days_before_month(year as int, month as int) == days as int,
        ensures
            1 <= month <= 12,
            rest < month_len(year as int, month as int),
            rest as int + days_before_year(year as int) + days_before_month(year as int, month as int) == days as int,
        decreases 12 - month,
    {
        let md: u64 = if month == 2 {
            if leap { 29 } else { 28 }
        } else if month == 4 || month == 6 || month == 9 || month == 11 {
            30
        } else {
            31
        };
        assert(md == month_len(year as int, month as int));
        if rest < md {
            break;
        }
        if month == 12 {
            proof {
                lemma_days_before_month_12(year as int);
            }
            assert(false);
        }
        rest = rest - md;
        month = month + 1;
    }
    (year, month, rest + 1)
}

/// `n` in decimal, padded with leading zeros to at least `width` digits.
pub open spec fn padded(n: nat, width: nat) -> Seq<char> {
    let s = decimal(n);
    if s.len() >= width {
        s
    } else {
        Seq::new((width - s.len()) as nat, |i: int| '0') + s
    }
}

fn push_padded(out: &mut String, n: u64, width: usize)
    requires
        width <= 4,
    ensures
        final(out)@ == old(out)@ + padded(n as nat, width as nat),
{
    let mut digits = String::new();
    push_decimal(&mut digits, n);
    proof {
        lemma_decimal(n as nat);
    }
    let len = count_decimal_digits_capped(n);
    let mut k: usize = len;
    let ghost start = out@;
    while k < width
        invariant
            len <= k <= width || k == len,
            len as nat == if decimal(n as nat).len() >= 4 { 4 } else { decimal(n as nat).len() },
            width <= 4,
            out@ == start + Seq::new((k - len) as nat, |i: int| '0'),
        decreases width - k,
    {
        out.push('0');
        assert(out@ =~= start + Seq::new((k + 1 - len) as nat, |i: int| '0'));
        k = k + 1;
    }
    crate::text::push_str(out, digits.as_str());
    proof {
        if decimal(n as nat).len() >= width {
            assert(out@ =~= start + decimal(n as nat));
        } else {
            assert(out@ =~= start + padded(n as nat, width as nat));
        }
    }
}

fn count_decimal_digits_capped(n: u64) -> (r: usize)
    ensures
        r as nat == if decimal(n as nat).len() >= 4 { 4 } else { decimal(n as nat).len() },
    decreases n,
{
    if n < 10 {
        1
    } else {
        let k = count_decimal_digits_capped(n / 10);
        assert(decimal(n as nat) == decimal((n / 10) as nat).push(crate::text::digit_char((n % 10) as int)));
        if k >= 4 {
            4
        } else {
            k + 1
        }
    }
}

/// The UTC time `secs` seconds after the Unix epoch, as
/// `YYYY-MM-DDTHH:MM:SSZ`.
pub open spec fn spec_iso8601(secs: nat, y: nat, m: nat, d: nat) -> Seq<char> {
    let t = secs % 86400;
    padded(y, 4) + seq!['-'] + padded(m, 2) + seq!['-'] + padded(d, 2) + seq!['T']
        + padded(t / 3600, 2) + seq![':'] + padded((t % 3600) / 60, 2) + seq![':'] + padded(t % 60, 2)
        + seq!['Z']
}

/// Formats the UTC time `secs` seconds after the Unix epoch as
/// `YYYY-MM-DDTHH:MM:SSZ`.
pub fn iso8601_from_secs(secs: u64) -> (r: String)
    ensures
        exists|y: nat, m: nat, d: nat| is_date_of((secs / 86400) as int, y as int, m as int, d as int)
            && r@ == #[trigger] spec_iso8601(secs as nat, y, m, d),
{
    let days = secs / 86400;
    let time_of_day = secs % 86400;
    let hours = time_of_day / 3600;
    let minutes = (time_of_day % 3600) / 60;
    let seconds = time_of_day % 60;
    let (year, month, day) = days_to_ymd(days);
    let mut out = String::new();
    push_padded(&mut out, year, 4);
    out.push('-');
    push_padded(&mut out, month, 2);
    out.push('-');
    push_padded(&mut out, day, 2);
    out.push('T');
    push_padded(&mut out, hours, 2);
    out.push(':');
    push_padded(&mut out, minutes, 2);
    out.push(':');
    push_padded(&mut out, seconds, 2);
    out.push('Z');
    assert(out@ =~= spec_iso8601(secs as nat, year as nat, month as nat, day as nat));
    out
}

/// The current time in seconds since the Unix epoch, read from the system
/// clock (zero if the clock is before the epoch). Nothing is claimed about
/// its value.
#[verifier::external_body]
pub(crate) fn unix_now_secs() -> (r: u64) {
    std::time::SystemTime::now()
        .duration_since(std::time::UNIX_EPOCH)
        .map(|d| d.as_secs())
        .unwrap_or(0)
}

/// The current UTC time as `YYYY-MM-DDTHH:MM:SSZ`.
pub fn now_iso8601() -> (r: String)
    ensures
        exists|secs: nat, y: nat, m: nat, d: nat| is_date_of((secs / 86400) as int, y as int, m as int, d as int)
            && r@ == #[trigger] spec_iso8601(secs, y, m, d),
{
    let secs = unix_now_secs();
    let r = iso8601_from_secs(secs);
    r
}


// ---------------------------------------------------------------------------
// The log file
// ---------------------------------------------------------------------------

/// The size above which the log is trimmed: 1 MiB.
pub const MAX_LOG_BYTES: u64 = 1048576;

/// Whether a log of `len` bytes is trimmed before the next write.
pub fn needs_rotation(len: u64) -> (r: bool)
    ensures
        r == (len > MAX_LOG_BYTES),
{
    len > MAX_LOG_BYTES
}

/// What a trimmed log holds: its more recent half of lines (the later
/// half, with the middle line when the count is odd), each ended by a
/// newline.
pub open spec fn spec_rotated(content: Seq<char>) -> Seq<char> {
    let ls = lines_of(content);
    joined(ls.skip((ls.len() / 2) as int), seq!['\n']) + seq!['\n']
}

/// The lines of `s`, as `str::lines` gives them.
fn lines_vec(s: &str) -> (r: Vec<String>)
    ensures
        r@.map_values(|x: String| x@) == lines_of(s@),
{
    let cs = chars_of(s);
    let n = cs.len();
    let mut r: Vec<String> = Vec::new();
    let mut start: usize = 0;
    assert(cs@.skip(0) =~= cs@);
    assert(r@.map_values(|x: String| x@) + lines_of(cs@.skip(0)) =~= lines_of(s@));
    while start < n
        invariant
            n == cs@.len(),
            cs@ == s@,
            start <= n,
            r@.map_values(|x: String| x@) + lines_of(cs@.skip(start as int)) == lines_of(s@),
        decreases n - start,
    {
        let ghost rest = cs@.skip(start as int);
        let found = find_char_from(cs.as_slice(), start, '\n');
        proof {
            crate::text::lemma_first_match(rest, CharClass::Is('\n'));
        }
        let (end, next) = match found {
            Some(p) => (p, p + 1),
            None => (n, n),
        };
        let mut line_end = end;
        if found.is_some() && end > start && cs[end - 1] == '\r' {
            line_end = end - 1;
        }
        let line = string_of(&cs.as_slice()[start..line_end]);
        proof {
            let lv = cs@.subrange(start as int, line_end as int);
            match found {
                Some(p) => {
                    assert(rest.take(p - start) =~= cs@.subrange(start as int, p as int));
                    assert(rest.skip(p - start + 1) =~= cs@.skip(p + 1));
                    if end > start && cs@[end - 1] == '\r' {
                        assert(cs@.subrange(start as int, p as int).drop_last() =~= lv);
                    }
                    assert(strip_cr(rest.take(p - start)) == lv);
                    assert(lines_of(rest) == seq![lv] + lines_of(cs@.skip(next as int)));
                },
                None => {
                    assert(rest =~= lv);
                    assert(cs@.skip(next as int).len() == 0);
                    assert(lines_of(cs@.skip(next as int)) =~= Seq::<Seq<char>>::empty());
                    assert(lines_of(rest) =~= seq![lv] + lines_of(cs@.skip(next as int)));
                },
            }
        }
        let ghost prev = r@.map_values(|x: String| x@);
        r.push(line);
        proof {
            assert(r@.map_values(|x: String| x@) =~= prev.push(line@));
            assert(prev.push(line@) + lines_of(cs@.skip(next as int)) =~= prev + lines_of(rest));
        }
        start = next;
    }
    proof {
        assert(cs@.skip(start as int).len() == 0);
        assert(lines_of(cs@.skip(start as int)) =~= Seq::<Seq<char>>::empty());
        assert(r@.map_values(|x: String| x@) + Seq::<Seq<char>>::empty() =~= r@.map_values(|x: String| x@));
    }
    r
}

/// The content a log is trimmed to: the more recent half of its lines.
pub fn rotated_content(content: &str) -> (r: String)
    ensures
        r@ == spec_rotated(content@),
{
    let ls = lines_vec(content);
    let keep_from = ls.len() / 2;
    let mut kept: Vec<String> = Vec::new();
    let mut i: usize = keep_from;
    let ghost lv = ls@.map_values(|x: String| x@);
    while i < ls.len()
        invariant
            keep_from <= i <= ls@.len(),
            lv == ls@.map_values(|x: String| x@),
            kept@.map_values(|x: String| x@) == lv.subrange(keep_from as int, i as int),
        decreases ls@.len() - i,
    {
        let ghost prev = kept@.map_values(|x: String| x@);
        let line = ls[i].clone();
        assert(line@ == lv[i as int]);
        kept.push(line);
        assert(kept@.map_values(|x: String| x@) =~= prev.push(line@));
        assert(lv.subrange(keep_from as int, i + 1) =~= lv.subrange(keep_from as int, i as int).push(lv[i as int]));
        i = i + 1;
    }
    assert(lv.subrange(keep_from as int, lv.len() as int) =~= lv.skip((lv.len() / 2) as int));
    let mut out = crate::text::join_parts(&kept, "\n");
    out.push('\n');
    proof {
        reveal_strlit("\n");
        assert("\n"@ =~= seq!['\n']);
    }
    out
}

/// A path shown with the home directory as `~`: `~/rest` for a path below
/// (or at) `home`, the path itself otherwise.
pub open spec fn spec_collapse_home(path: Seq<char>, home: Option<Seq<char>>) -> Seq<char> {
    match home {
        Some(h) => if path_starts_with(path, h) {
            seq!['~', '/'] + sep_joined(components(path).skip(components(h).len() as int))
        } else {
            path
        },
        None => path,
    }
}

/// Replaces the home directory at the start of `path` with `~`.
pub fn collapse_home_with(path: &str, home: &Option<String>) -> (r: String)
    ensures
        r@ == spec_collapse_home(path@, match home { Some(h) => Some(h@), None => None }),
{
    let pc = chars_of(path);
    match home {
        Some(h) => {
            let hc = chars_of(h.as_str());
            if path_starts_with_exec(pc.as_slice(), hc.as_slice()) {
                let cp = components_of(pc.as_slice());
                let ch = components_of(hc.as_slice());
                let ghost cv = cp@.map_values(|v: Vec<char>| v@);
                let ghost hv = ch@.map_values(|v: Vec<char>| v@);
                let mut out = String::new();
                out.push('~');
                out.push('/');
                let ghost base = out@;
                let k0 = ch.len();
                let mut k = k0;
                while k < cp.len()
                    invariant
                        k0 <= k <= cp@.len(),
                        cv == cp@.map_values(|v: Vec<char>| v@),
                        out@ == base + sep_joined(cv.subrange(k0 as int, k as int)),
                    decreases cp@.len() - k,
                {
                    let ghost t = cv.subrange(k0 as int, k + 1);
                    proof {
                        assert(t.drop_last() =~= cv.subrange(k0 as int, k as int));
                        assert(t.last() == cp@[k as int]@);
                    }
                    if k > k0 {
                        out.push('/');
                    }
                    push_chars(&mut out, cp[k].as_slice());
                    proof {
                        if k == k0 {
                            assert(t.len() == 1);
                        }
                        assert(out@ =~= base + sep_joined(t));
                    }
                    k = k + 1;
                }
                proof {
                    assert(cv.subrange(k0 as int, cv.len() as int) =~= cv.skip(hv.len() as int));
                    assert(base =~= seq!['~', '/']);
                }
                return out;
            }
            string_of(pc.as_slice())
        },
        None => string_of(pc.as_slice()),
    }
}

/// A line of the audit log:
/// `TIME OP PATH (SIZE) [module: ID]`, without the size part when the size
/// is unknown.
pub open spec fn spec_log_line(now: Seq<char>, op: Seq<char>, path: Seq<char>, size_text: Option<Seq<char>>, module_id: Seq<char>) -> Seq<char> {
    now + seq![' '] + op + seq![' '] + path + match size_text {
        Some(s) => " ("@ + s + ")"@,
        None => Seq::empty(),
    } + " [module: "@ + module_id + "]"@
}

/// Formats one line of the audit log; `size_text` is the size as shown to
/// the user.
pub fn log_line(now: &str, op: &str, display_path: &str, size_text: Option<&str>, module_id: &str) -> (r: String)
    ensures
        r@ == spec_log_line(now@, op@, display_path@, match size_text { Some(s) => Some(s@), None => None }, module_id@),
{
    let mut out = String::new();
    push_str(&mut out, now);
    out.push(' ');
    push_str(&mut out, op);
    out.push(' ');
    push_str(&mut out, display_path);
    match size_text {
        Some(s) => {
            push_str(&mut out, " (");
            push_str(&mut out, s);
            push_str(&mut out, ")");
        },
        None => {},
    }
    push_str(&mut out, " [module: ");
    push_str(&mut out, module_id);
    push_str(&mut out, "]");
    proof {
        match size_text {
            Some(s) => assert(out@ =~= spec_log_line(now@, op@, display_path@, Some(s@), module_id@)),
            None => assert(out@ =~= spec_log_line(now@, op@, display_path@, None, module_id@)),
        }
    }
    out
}

} // verus!
