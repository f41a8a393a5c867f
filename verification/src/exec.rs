//! What the library decides around running a handler's command: how an
//! argument vector is shown to the user, which line of a failed command's
//! error output is reported, and when a run counts as a failure. Starting
//! the process itself is left to the caller.

use vstd::prelude::*;
use crate::text::{chars_of, first_match, find_char_from, push_decimal, push_str, push_chars, decimal, CharClass};

verus! {

/// The characters with the Unicode `White_Space` property, which
/// `char::is_whitespace` reports.
pub open spec fn spec_is_whitespace(c: char) -> bool {
    let n = c as u32;
    (0x9 <= n && n <= 0xD) || n == 0x20 || n == 0x85 || n == 0xA0 || n == 0x1680
        || (0x2000 <= n && n <= 0x200A) || n == 0x2028 || n == 0x2029 || n == 0x202F
        || n == 0x205F || n == 0x3000
}

/// `char::is_whitespace`.
pub fn is_whitespace(c: char) -> (r: bool)
    ensures
        r == spec_is_whitespace(c),
{
    let n = c as u32;
    (0x9 <= n && n <= 0xD) || n == 0x20 || n == 0x85 || n == 0xA0 || n == 0x1680
        || (0x2000 <= n && n <= 0x200A) || n == 0x2028 || n == 0x2029 || n == 0x202F
        || n == 0x205F || n == 0x3000
}

/// What `{:?}` prints for a string: the string in double quotes, with
/// quotes, backslashes and control characters escaped.
pub uninterp spec fn debug_quoted(s: Seq<char>) -> Seq<char>;

/// The `Debug` rendering of a `str` (`format!("{:?}", s)`). Its result is
/// named, not described: it depends on `s` alone.
#[verifier::external_body]
fn debug_quote(s: &str) -> (r: String)
    ensures
        r@ == debug_quoted(s@),
{
    format!("{:?}", s)
}

/// Whether an argument must be quoted to be read back as one word: it is
/// empty, or holds whitespace or a double quote.
pub open spec fn needs_quotes(a: Seq<char>) -> bool {
    a.len() == 0 || exists|i: int| 0 <= i < a.len() && (spec_is_whitespace(#[trigger] a[i]) || a[i] == '"')
}

/// How one argument is shown.
pub open spec fn shown_arg(a: Seq<char>) -> Seq<char> {
    if needs_quotes(a) {
        debug_quoted(a)
    } else {
        a
    }
}

/// The arguments shown one after another, separated by single spaces.
pub open spec fn shown_argv(argv: Seq<Seq<char>>) -> Seq<char>
    decreases argv.len(),
{
    if argv.len() == 0 {
        Seq::empty()
    } else if argv.len() == 1 {
        shown_arg(argv[0])
    } else {
        shown_argv(argv.drop_last()) + seq![' '] + shown_arg(argv.last())
    }
}

pub open spec fn argv_view(argv: Seq<&str>) -> Seq<Seq<char>> {
    argv.map_values(|a: &str| a@)
}

fn arg_needs_quotes(a: &str) -> (r: bool)
    ensures
        r == needs_quotes(a@),
{
    let cs = chars_of(a);
    if cs.len() == 0 {
        return true;
    }
    let mut i: usize = 0;
    while i < cs.len()
        invariant
            cs@ == a@,
            i <= cs@.len(),
            forall|j: int| 0 <= j < i ==> !(spec_is_whitespace(#[trigger] cs@[j]) || cs@[j] == '"'),
        decreases cs@.len() - i,
    {
        if is_whitespace(cs[i]) || cs[i] == '"' {
            return true;
        }
        i = i + 1;
    }
    false
}

/// An argument vector as it would be typed at a shell, for showing to the
/// user: arguments that are empty or hold whitespace or a double quote are
/// quoted as `{:?}` prints them; the others are shown as they are.
pub fn display_argv(argv: &[&str]) -> (r: String)
    ensures
        r@ == shown_argv(argv_view(argv@)),
{
    let mut out = String::new();
    let mut i: usize = 0;
    while i < argv.len()
        invariant
            i <= argv@.len(),
            out@ == shown_argv(argv_view(argv@).take(i as int)),
        decreases argv@.len() - i,
    {
        let a: &str = argv[i];
        let ghost prev = argv_view(argv@).take(i as int);
        let ghost next = argv_view(argv@).take(i + 1);
        proof {
            assert(next.drop_last() =~= prev);
            assert(next.last() == a@);
        }
        if i > 0 {
            out.push(' ');
        }
        if arg_needs_quotes(a) {
            let q = debug_quote(a);
            push_str(&mut out, q.as_str());
        } else {
            push_str(&mut out, a);
        }
        proof {
            if i == 0 {
                assert(prev.len() == 0);
            }
        }
        i = i + 1;
    }
    proof {
        assert(argv_view(argv@).take(argv@.len() as int) =~= argv_view(argv@));
    }
    out
}

// ---------------------------------------------------------------------------
// Lines and trimming, as `str::lines` and `str::trim` define them
// ---------------------------------------------------------------------------

/// A line without the `\r` of a `\r\n` ending.
pub open spec fn strip_cr(l: Seq<char>) -> Seq<char> {
    if l.len() > 0 && l.last() == '\r' {
        l.drop_last()
    } else {
        l
    }
}

/// `str::lines`: the pieces between `\n` characters, each without a
/// trailing `\r` of a `\r\n` ending; a final `\n` ends the last line and
/// starts no new one.
pub open spec fn lines_of(s: Seq<char>) -> Seq<Seq<char>>
    decreases s.len(),
{
    if s.len() == 0 {
        Seq::empty()
    } else {
        match first_match(s, CharClass::Is('\n')) {
            Some(i) => {
                proof {
                    crate::text::lemma_first_match(s, CharClass::Is('\n'));
                }
                seq![strip_cr(s.take(i))] + lines_of(s.skip(i + 1))
            },
            None => seq![s],
        }
    }
}

/// `s` without leading whitespace.
pub open spec fn trim_start(s: Seq<char>) -> Seq<char>
    decreases s.len(),
{
    if s.len() > 0 && spec_is_whitespace(s[0]) {
        trim_start(s.skip(1))
    } else {
        s
    }
}

/// `s` without trailing whitespace.
pub open spec fn trim_end(s: Seq<char>) -> Seq<char>
    decreases s.len(),
{
    if s.len() > 0 && spec_is_whitespace(s.last()) {
        trim_end(s.drop_last())
    } else {
        s
    }
}

/// `str::trim`.
pub open spec fn trim(s: Seq<char>) -> Seq<char> {
    trim_end(trim_start(s))
}

/// The first line that is not blank, trimmed.
pub open spec fn first_nonblank(ls: Seq<Seq<char>>) -> Option<Seq<char>>
    decreases ls.len(),
{
    if ls.len() == 0 {
        None
    } else if trim(ls[0]).len() > 0 {
        Some(trim(ls[0]))
    } else {
        first_nonblank(ls.skip(1))
    }
}

/// The bounds of `cs[a..b]` trimmed.
pub fn trim_bounds(cs: &[char], a: usize, b: usize) -> (r: (usize, usize))
    requires
        a <= b <= cs@.len(),
    ensures
        a <= r.0 <= r.1 <= b,
        cs@.subrange(r.0 as int, r.1 as int) == trim(cs@.subrange(a as int, b as int)),
{
    let mut s = a;
    while s < b && is_whitespace(cs[s])
        invariant
            a <= s <= b <= cs@.len(),
            trim_start(cs@.subrange(a as int, b as int)) == trim_start(cs@.subrange(s as int, b as int)),
        decreases b - s,
    {
        proof {
            let t = cs@.subrange(s as int, b as int);
            assert(t[0] == cs@[s as int]);
            assert(t.skip(1) =~= cs@.subrange(s + 1, b as int));
        }
        s = s + 1;
    }
    proof {
        let t = cs@.subrange(s as int, b as int);
        if s < b {
            assert(t[0] == cs@[s as int]);
        }
    }
    let mut e = b;
    while e > s && is_whitespace(cs[e - 1])
        invariant
            a <= s <= e <= b <= cs@.len(),
            trim_end(cs@.subrange(s as int, b as int)) == trim_end(cs@.subrange(s as int, e as int)),
        decreases e - s,
    {
        proof {
            let t = cs@.subrange(s as int, e as int);
            assert(t.last() == cs@[e - 1]);
            assert(t.drop_last() =~= cs@.subrange(s as int, e - 1));
        }
        e = e - 1;
    }
    proof {
        let t = cs@.subrange(s as int, e as int);
        if e > s {
            assert(t.last() == cs@[e - 1]);
        }
    }
    (s, e)
}

/// The first non-blank line of `s`, trimmed.
fn first_nonblank_line(s: &str) -> (r: Option<String>)
    ensures
        match (first_nonblank(lines_of(s@)), r) {
            (Some(a), Some(b)) => b@ == a,
            (None, None) => true,
            _ => false,
        },
{
    let cs = chars_of(s);
    let n = cs.len();
    let mut start: usize = 0;
    assert(cs@.skip(0) =~= cs@);
    while start < n
        invariant
            n == cs@.len(),
            cs@ == s@,
            start <= n,
            first_nonblank(lines_of(s@)) == first_nonblank(lines_of(cs@.skip(start as int))),
        decreases n - start,
    {
        let ghost rest = cs@.skip(start as int);
        let found = find_char_from(cs.as_slice(), start, '\n');
        proof {
            crate::text::lemma_first_match(rest, CharClass::Is('\n'));
        }
        let (end, next) = match found {
            Some(p) => (p, p + 1),
            None => (n, n),
        };
        let mut line_end = end;
        if found.is_some() && end > start && cs[end - 1] == '\r' {
            line_end = end - 1;
        }
        proof {
            crate::text::lemma_first_match(rest, CharClass::Is('\n'));
            let line = cs@.subrange(start as int, line_end as int);
            match found {
                Some(p) => {
                    assert(rest.take(p - start) =~= cs@.subrange(start as int, p as int));
                    assert(rest.skip(p - start + 1) =~= cs@.skip(p + 1));
                    if end > start && cs@[end - 1] == '\r' {
                        assert(cs@.subrange(start as int, p as int).drop_last() =~= line);
                    }
                    assert(strip_cr(rest.take(p - start)) == line);
                    assert(lines_of(rest) == seq![line] + lines_of(cs@.skip(next as int)));
                },
                None => {
                    assert(rest =~= line);
                    assert(cs@.skip(next as int).len() == 0);
                    assert(lines_of(cs@.skip(next as int)) =~= Seq::<Seq<char>>::empty());
                    assert(lines_of(rest) =~= seq![line] + lines_of(cs@.skip(next as int)));
                },
            }
            let ls = lines_of(rest);
            assert(ls[0] == line);
            assert(ls.skip(1) =~= lines_of(cs@.skip(next as int)));
        }
        let (a, b) = trim_bounds(cs.as_slice(), start, line_end);
        if a < b {
            let mut out = String::new();
            push_chars(&mut out, &cs.as_slice()[a..b]);
            proof {
                assert(cs@.subrange(a as int, b as int) == trim(cs@.subrange(start as int, line_end as int)));
            }
            return Some(out);
        }
        start = next;
    }
    proof {
        assert(cs@.skip(start as int).len() == 0);
        assert(lines_of(cs@.skip(start as int)) =~= Seq::<Seq<char>>::empty());
    }
    None
}

/// The decimal text of a signed integer.
pub open spec fn int_text(n: int) -> Seq<char> {
    if n < 0 {
        seq!['-'] + decimal((-n) as nat)
    } else {
        decimal(n as nat)
    }
}

/// Captured result of running a command.
pub struct Output {
    pub stdout: String,
    pub stderr: String,
    /// The exit code; `None` when a signal ended the process.
    pub status: Option<i32>,
}

/// The line of failure text reported for an output.
pub open spec fn error_detail(stderr: Seq<char>) -> Seq<char> {
    match first_nonblank(lines_of(stderr)) {
        Some(l) => l,
        None => "no error output"@,
    }
}

/// The failure summary: `exited CODE: DETAIL`, or `terminated by signal:
/// DETAIL` when a signal ended the process.
pub open spec fn spec_error_summary(status: Option<i32>, stderr: Seq<char>) -> Seq<char> {
    match status {
        Some(code) => "exited "@ + int_text(code as int) + ": "@ + error_detail(stderr),
        None => "terminated by signal: "@ + error_detail(stderr),
    }
}

impl Output {
    /// The most useful single line of failure text: the first non-blank
    /// line of standard error, trimmed, after the exit code or the word that
    /// a signal ended the process.
    pub fn error_summary(&self) -> (r: String)
        ensures
            r@ == spec_error_summary(self.status, self.stderr@),
    {
        let mut out = String::new();
        match self.status {
            Some(code) => {
                push_str(&mut out, "exited ");
                if code < 0 {
                    out.push('-');
                    let m: i64 = -(code as i64);
                    push_decimal(&mut out, m as u64);
                } else {
                    push_decimal(&mut out, code as u64);
                }
                push_str(&mut out, ": ");
            },
            None => {
                push_str(&mut out, "terminated by signal: ");
            },
        }
        match first_nonblank_line(self.stderr.as_str()) {
            Some(l) => push_str(&mut out, l.as_str()),
            None => push_str(&mut out, "no error output"),
        }
        proof {
            match self.status {
                Some(code) => {
                    assert(out@ =~= spec_error_summary(self.status, self.stderr@));
                },
                None => {
                    assert(out@ =~= spec_error_summary(self.status, self.stderr@));
                },
            }
        }
        out
    }
}

/// What a checked run yields: the standard output on exit code zero,
/// otherwise the command and its failure summary.
pub open spec fn spec_check_output(argv: Seq<Seq<char>>, status: Option<i32>, stdout: Seq<char>, stderr: Seq<char>) -> Result<Seq<char>, Seq<char>> {
    if status == Some(0i32) {
        Ok(stdout)
    } else {
        Err("`"@ + shown_argv(argv) + "` "@ + spec_error_summary(status, stderr))
    }
}

/// The outcome of a run that must succeed: its standard output when it
/// exited with code zero, else an error that names the command and
/// summarises the failure.
pub fn check_output(argv: &[&str], output: Output) -> (r: Result<String, String>)
    ensures
        match (spec_check_output(argv_view(argv@), output.status, output.stdout@, output.stderr@), r) {
            (Ok(a), Ok(b)) => b@ == a,
            (Err(a), Err(b)) => b@ == a,
            _ => false,
        },
{
    let ok = match output.status {
        Some(c) => c == 0,
        None => false,
    };
    if ok {
        return Ok(output.stdout);
    }
    let mut m = String::new();
    push_str(&mut m, "`");
    let shown = display_argv(argv);
    push_str(&mut m, shown.as_str());
    push_str(&mut m, "` ");
    let summary = output.error_summary();
    push_str(&mut m, summary.as_str());
    Err(m)
}

} // verus!
