//! Character-level helpers shared by the parsers and formatters of the crate:
//! conversion between strings and character vectors, searching, and decimal
//! numbers.

use vstd::prelude::*;

verus! {

/// `String::push`: appends one character, as the standard library
/// documents; the contract claims the new content is the old one followed
/// by `ch`.
pub assume_specification[ String::push ](s: &mut String, ch: char)
    ensures
        final(s)@ == old(s)@.push(ch),
;

// ---------------------------------------------------------------------------
// Strings and character vectors
// ---------------------------------------------------------------------------

/// The characters of `s`, in order.
pub fn chars_of(s: &str) -> (v: Vec<char>)
    ensures
        v@ == s@,
{
    let n = s.unicode_len();
    let mut v: Vec<char> = Vec::new();
    let mut i: usize = 0;
    while i < n
        invariant
            n == s@.len(),
            i <= n,
            v@ == s@.subrange(0, i as int),
        decreases n - i,
    {
        let c = s.get_char(i);
        v.push(c);
        i = i + 1;
    }
    v
}

/// A string holding exactly the characters of `cs`.
pub fn string_of(cs: &[char]) -> (s: String)
    ensures
        s@ == cs@,
{
    let mut s = String::new();
    push_chars(&mut s, cs);
    s
}

/// Appends the characters of `cs` to `out`.
pub fn push_chars(out: &mut String, cs: &[char])
    ensures
        final(out)@ == old(out)@ + cs@,
{
    let mut i: usize = 0;
    while i < cs.len()
        invariant
            i <= cs@.len(),
            out@ == old(out)@ + cs@.subrange(0, i as int),
        decreases cs@.len() - i,
    {
        out.push(cs[i]);
        i = i + 1;
    }
}

/// Appends the characters of `s` to `out`.
pub fn push_str(out: &mut String, s: &str)
    ensures
        final(out)@ == old(out)@ + s@,
{
    let cs = chars_of(s);
    push_chars(out, cs.as_slice());
}

/// The characters `cs[start..end]` as a string.
pub fn string_of_range(cs: &[char], start: usize, end: usize) -> (s: String)
    requires
        start <= end <= cs@.len(),
    ensures
        s@ == cs@.subrange(start as int, end as int),
{
    let mut s = String::new();
    let mut i: usize = start;
    while i < end
        invariant
            start <= i <= end <= cs@.len(),
            s@ == cs@.subrange(start as int, i as int),
        decreases end - i,
    {
        s.push(cs[i]);
        i = i + 1;
    }
    s
}

/// Whether two strings hold the same characters.
pub fn str_eq(a: &str, b: &str) -> (r: bool)
    ensures
        r == (a@ == b@),
{
    let x = chars_of(a);
    let y = chars_of(b);
    chars_eq(x.as_slice(), y.as_slice())
}

/// Whether two character slices are equal.
pub fn chars_eq(x: &[char], y: &[char]) -> (r: bool)
    ensures
        r == (x@ == y@),
{
    if x.len() != y.len() {
        return false;
    }
    let mut i: usize = 0;
    while i < x.len()
        invariant
            x@.len() == y@.len(),
            i <= x@.len(),
            forall|j: int| 0 <= j < i ==> x@[j] == y@[j],
        decreases x@.len() - i,
    {
        if x[i] != y[i] {
            return false;
        }
        i = i + 1;
    }
    assert(x@ =~= y@);
    true
}

/// Whether `s` begins with `prefix`.
pub open spec fn seq_starts_with(s: Seq<char>, prefix: Seq<char>) -> bool {
    prefix.len() <= s.len() && s.subrange(0, prefix.len() as int) == prefix
}

/// Whether `s` ends with `suffix`.
pub open spec fn seq_ends_with(s: Seq<char>, suffix: Seq<char>) -> bool {
    suffix.len() <= s.len() && s.subrange(s.len() - suffix.len(), s.len() as int) == suffix
}

/// Whether `needle` occurs in `s` at position `i`.
pub open spec fn occurs_at(s: Seq<char>, needle: Seq<char>, i: int) -> bool {
    0 <= i && i + needle.len() <= s.len() && s.subrange(i, i + needle.len()) == needle
}

/// Whether `needle` occurs anywhere in `s` (the empty needle occurs in every string).
pub open spec fn seq_contains(s: Seq<char>, needle: Seq<char>) -> bool {
    exists|i: int| occurs_at(s, needle, i)
}

/// Whether `cs[at..]` begins with `prefix`.
pub fn starts_with_at(cs: &[char], at: usize, prefix: &[char]) -> (r: bool)
    requires
        at <= cs@.len(),
    ensures
        r == seq_starts_with(cs@.skip(at as int), prefix@),
{
    if prefix.len() > cs.len() - at {
        return false;
    }
    let mut i: usize = 0;
    while i < prefix.len()
        invariant
            at <= cs@.len(),
            at + prefix@.len() <= cs@.len(),
            cs@.len() == cs.len(),
            i <= prefix@.len(),
            forall|j: int| 0 <= j < i ==> cs@[at + j] == prefix@[j],
        decreases prefix@.len() - i,
    {
        if cs[at + i] != prefix[i] {
            assert(cs@.skip(at as int).subrange(0, prefix@.len() as int)[i as int] != prefix@[i as int]);
            return false;
        }
        i = i + 1;
    }
    assert(cs@.skip(at as int).subrange(0, prefix@.len() as int) =~= prefix@);
    true
}

/// Whether `needle` occurs in `hay`.
pub fn contains_chars(hay: &[char], needle: &[char]) -> (r: bool)
    ensures
        r == seq_contains(hay@, needle@),
{
    if needle.len() > hay.len() {
        assert forall|i: int| !occurs_at(hay@, needle@, i) by {}
        return false;
    }
    let last = hay.len() - needle.len();
    let mut i: usize = 0;
    loop
        invariant
            needle@.len() <= hay@.len(),
            hay@.len() == hay.len(),
            last == hay@.len() - needle@.len(),
            i <= last,
            forall|j: int| 0 <= j < i ==> !occurs_at(hay@, needle@, j),
        decreases last - i,
    {
        assert(hay@.skip(i as int).subrange(0, needle@.len() as int) =~= hay@.subrange(
            i as int,
            i + needle@.len(),
        ));
        if starts_with_at(hay, i, needle) {
            assert(occurs_at(hay@, needle@, i as int));
            return true;
        }
        if i == last {
            assert forall|j: int| !occurs_at(hay@, needle@, j) by {
                if 0 <= j < i {
                }
            }
            return false;
        }
        i = i + 1;
    }
}

// ---------------------------------------------------------------------------
// Searching
// ---------------------------------------------------------------------------

/// The index of the first character of `s` that satisfies `p`, if any.
pub open spec fn first_match(s: Seq<char>, p: CharClass) -> Option<int>
    decreases s.len(),
{
    if s.len() == 0 {
        None
    } else if in_class(s[0], p) {
        Some(0)
    } else {
        match first_match(s.drop_first(), p) {
            Some(i) => Some(i + 1),
            None => None,
        }
    }
}

/// `first_match` names the least index whose character satisfies `p`.
pub proof fn lemma_first_match(s: Seq<char>, p: CharClass)
    ensures
        match first_match(s, p) {
            Some(i) => 0 <= i < s.len() && in_class(s[i], p) && forall|j: int| 0 <= j < i ==> !in_class(#[trigger] s[j], p),
            None => forall|j: int| 0 <= j < s.len() ==> !in_class(#[trigger] s[j], p),
        },
    decreases s.len(),
{
    if s.len() > 0 && !in_class(s[0], p) {
        lemma_first_match(s.drop_first(), p);
        match first_match(s.drop_first(), p) {
            Some(i) => {
                assert forall|j: int| 0 <= j < i + 1 implies !in_class(#[trigger] s[j], p) by {
                    if j > 0 {
                        assert(s[j] == s.drop_first()[j - 1]);
                    }
                }
            },
            None => {
                assert forall|j: int| 0 <= j < s.len() implies !in_class(#[trigger] s[j], p) by {
                    if j > 0 {
                        assert(s[j] == s.drop_first()[j - 1]);
                    }
                }
            },
        }
    }
}

/// A least satisfying index is what `first_match` names.
pub proof fn lemma_first_match_is(s: Seq<char>, p: CharClass, i: int)
    requires
        0 <= i < s.len(),
        in_class(s[i], p),
        forall|j: int| 0 <= j < i ==> !in_class(#[trigger] s[j], p),
    ensures
        first_match(s, p) == Some(i),
{
    lemma_first_match(s, p);
    match first_match(s, p) {
        Some(k) => {
            if k < i {
                assert(!in_class(s[k], p));
            } else if k > i {
                assert(!in_class(s[i], p));
            }
        },
        None => {
            assert(!in_class(s[i], p));
        },
    }
}

/// With no satisfying character, `first_match` is `None`.
pub proof fn lemma_first_match_none(s: Seq<char>, p: CharClass)
    requires
        forall|j: int| 0 <= j < s.len() ==> !in_class(#[trigger] s[j], p),
    ensures
        first_match(s, p) == None::<int>,
{
    lemma_first_match(s, p);
    match first_match(s, p) {
        Some(k) => {
            assert(in_class(s[k], p));
        },
        None => {},
    }
}

/// A class of characters to search for.
pub enum CharClass {
    /// Exactly this character.
    Is(char),
    /// A decimal digit `0`-`9`.
    Digit,
    /// Anything but a decimal digit.
    NonDigit,
    /// Either of two characters.
    Either(char, char),
}

pub open spec fn in_class(c: char, k: CharClass) -> bool {
    match k {
        CharClass::Is(x) => c == x,
        CharClass::Digit => is_digit(c),
        CharClass::NonDigit => !is_digit(c),
        CharClass::Either(x, y) => c == x || c == y,
    }
}

pub open spec fn is_digit(c: char) -> bool {
    '0' <= c && c <= '9'
}

pub open spec fn is_not_digit(c: char) -> bool {
    !is_digit(c)
}



/// The position of the first `c` in `cs[from..]`, counted from the start of `cs`.
pub fn find_char_from(cs: &[char], from: usize, c: char) -> (r: Option<usize>)
    requires
        from <= cs@.len(),
    ensures
        match r {
            Some(p) => from <= p && first_match(cs@.skip(from as int), CharClass::Is(c)) == Some(p - from),
            None => first_match(cs@.skip(from as int), CharClass::Is(c)) is None,
        },
{
    let mut i: usize = from;
    while i < cs.len()
        invariant
            from <= i <= cs@.len(),
            forall|j: int| from <= j < i ==> cs@[j] != c,
        decreases cs@.len() - i,
    {
        if cs[i] == c {
            proof {
                let k = CharClass::Is(c);
                let t = cs@.skip(from as int);
                assert forall|j: int| 0 <= j < i - from implies !in_class(#[trigger] t[j], CharClass::Is(c)) by {
                    assert(t[j] == cs@[from + j]);
                }
                lemma_first_match_is(t, CharClass::Is(c), i - from);
            }
            return Some(i);
        }
        i = i + 1;
    }
    proof {
        let k = CharClass::Is(c);
        let t = cs@.skip(from as int);
        assert forall|j: int| 0 <= j < t.len() implies !in_class(#[trigger] t[j], CharClass::Is(c)) by {
            assert(t[j] == cs@[from + j]);
        }
        lemma_first_match_none(t, CharClass::Is(c));
    }
    None
}

/// The position of the first `x` or `y` in `cs[from..]`, counted from the start of `cs`.
pub fn find_either_from(cs: &[char], from: usize, x: char, y: char) -> (r: Option<usize>)
    requires
        from <= cs@.len(),
    ensures
        match r {
            Some(p) => from <= p && first_match(cs@.skip(from as int), CharClass::Either(x, y)) == Some(p - from),
            None => first_match(cs@.skip(from as int), CharClass::Either(x, y)) is None,
        },
{
    let mut i: usize = from;
    while i < cs.len()
        invariant
            from <= i <= cs@.len(),
            forall|j: int| from <= j < i ==> cs@[j] != x && cs@[j] != y,
        decreases cs@.len() - i,
    {
        if cs[i] == x || cs[i] == y {
            proof {
                let k = CharClass::Either(x, y);
                let t = cs@.skip(from as int);
                assert forall|j: int| 0 <= j < i - from implies !in_class(#[trigger] t[j], k) by {
                    assert(t[j] == cs@[from + j]);
                }
                lemma_first_match_is(t, k, i - from);
            }
            return Some(i);
        }
        i = i + 1;
    }
    proof {
        let k = CharClass::Either(x, y);
        let t = cs@.skip(from as int);
        assert forall|j: int| 0 <= j < t.len() implies !in_class(#[trigger] t[j], k) by {
            assert(t[j] == cs@[from + j]);
        }
        lemma_first_match_none(t, k);
    }
    None
}

/// The position of the first decimal digit in `cs[from..]`, counted from the start of `cs`.
pub fn find_digit_from(cs: &[char], from: usize) -> (r: Option<usize>)
    requires
        from <= cs@.len(),
    ensures
        match r {
            Some(p) => from <= p && first_match(cs@.skip(from as int), CharClass::Digit) == Some(p - from),
            None => first_match(cs@.skip(from as int), CharClass::Digit) is None,
        },
{
    let mut i: usize = from;
    while i < cs.len()
        invariant
            from <= i <= cs@.len(),
            forall|j: int| from <= j < i ==> !is_digit(#[trigger] cs@[j]),
        decreases cs@.len() - i,
    {
        if '0' <= cs[i] && cs[i] <= '9' {
            proof {
                let k = CharClass::Digit;
                let t = cs@.skip(from as int);
                assert forall|j: int| 0 <= j < i - from implies !in_class(#[trigger] t[j], k) by {
                    assert(t[j] == cs@[from + j]);
                    assert(from <= from + j < i);
                }
                assert(t[i - from] == cs@[i as int]);
                lemma_first_match_is(t, k, i - from);
            }
            return Some(i);
        }
        i = i + 1;
    }
    proof {
        let k = CharClass::Digit;
        let t = cs@.skip(from as int);
        assert forall|j: int| 0 <= j < t.len() implies !in_class(#[trigger] t[j], k) by {
            assert(t[j] == cs@[from + j]);
            assert(from <= from + j < i);
        }
        lemma_first_match_none(t, k);
    }
    None
}

/// The position of the first character that is not a decimal digit in
/// `cs[from..]`, counted from the start of `cs`.
pub fn find_non_digit_from(cs: &[char], from: usize) -> (r: Option<usize>)
    requires
        from <= cs@.len(),
    ensures
        match r {
            Some(p) => from <= p && first_match(cs@.skip(from as int), CharClass::NonDigit) == Some(p - from),
            None => first_match(cs@.skip(from as int), CharClass::NonDigit) is None,
        },
{
    let mut i: usize = from;
    while i < cs.len()
        invariant
            from <= i <= cs@.len(),
            forall|j: int| from <= j < i ==> is_digit(#[trigger] cs@[j]),
        decreases cs@.len() - i,
    {
        if !('0' <= cs[i] && cs[i] <= '9') {
            proof {
                let k = CharClass::NonDigit;
                let t = cs@.skip(from as int);
                assert forall|j: int| 0 <= j < i - from implies !in_class(#[trigger] t[j], k) by {
                    assert(t[j] == cs@[from + j]);
                    assert(from <= from + j < i);
                }
                assert(t[i - from] == cs@[i as int]);
                lemma_first_match_is(t, k, i - from);
            }
            return Some(i);
        }
        i = i + 1;
    }
    proof {
        let k = CharClass::NonDigit;
        let t = cs@.skip(from as int);
        assert forall|j: int| 0 <= j < t.len() implies !in_class(#[trigger] t[j], k) by {
            assert(t[j] == cs@[from + j]);
            assert(from <= from + j < i);
        }
        lemma_first_match_none(t, k);
    }
    None
}

/// The position of the first occurrence of `needle` in `s`, if any.
pub open spec fn first_occurrence(s: Seq<char>, needle: Seq<char>) -> Option<int>
    decreases s.len(),
{
    if needle.len() > s.len() {
        None
    } else if s.subrange(0, needle.len() as int) == needle {
        Some(0)
    } else if s.len() == 0 {
        None
    } else {
        match first_occurrence(s.drop_first(), needle) {
            Some(i) => Some(i + 1),
            None => None,
        }
    }
}

/// `first_occurrence` names the least position at which `needle` occurs.
pub proof fn lemma_first_occurrence(s: Seq<char>, needle: Seq<char>)
    ensures
        match first_occurrence(s, needle) {
            Some(i) => occurs_at(s, needle, i) && forall|j: int| 0 <= j < i ==> !#[trigger] occurs_at(s, needle, j),
            None => forall|j: int| !#[trigger] occurs_at(s, needle, j),
        },
    decreases s.len(),
{
    if needle.len() > s.len() {
    } else if s.subrange(0, needle.len() as int) == needle {
    } else if s.len() == 0 {
        assert(s.subrange(0, needle.len() as int) =~= needle);
    } else {
        let t = s.drop_first();
        lemma_first_occurrence(t, needle);
        assert forall|j: int| 1 <= j implies occurs_at(s, needle, j) == occurs_at(t, needle, j - 1) by {
            if 0 <= j - 1 && j - 1 + needle.len() <= t.len() {
                assert(s.subrange(j, j + needle.len()) =~= t.subrange(j - 1, j - 1 + needle.len()));
            }
        }
        assert(!occurs_at(s, needle, 0));
    }
}

/// A least position of occurrence is what `first_occurrence` names.
pub proof fn lemma_first_occurrence_is(s: Seq<char>, needle: Seq<char>, i: int)
    requires
        occurs_at(s, needle, i),
        forall|j: int| 0 <= j < i ==> !#[trigger] occurs_at(s, needle, j),
    ensures
        first_occurrence(s, needle) == Some(i),
{
    lemma_first_occurrence(s, needle);
    match first_occurrence(s, needle) {
        Some(k) => {
            if k < i {
                assert(!occurs_at(s, needle, k));
            } else if k > i {
                assert(!occurs_at(s, needle, i));
            }
        },
        None => {
            assert(!occurs_at(s, needle, i));
        },
    }
}

/// The position of the first occurrence of `needle` in `cs`.
pub fn find_chars(cs: &[char], needle: &[char]) -> (r: Option<usize>)
    ensures
        match r {
            Some(p) => first_occurrence(cs@, needle@) == Some(p as int),
            None => first_occurrence(cs@, needle@) is None,
        },
{
    proof {
        lemma_first_occurrence(cs@, needle@);
    }
    if needle.len() > cs.len() {
        return None;
    }
    let last = cs.len() - needle.len();
    let mut i: usize = 0;
    loop
        invariant
            needle@.len() <= cs@.len(),
            cs@.len() == cs.len(),
            last == cs@.len() - needle@.len(),
            i <= last,
            forall|j: int| 0 <= j < i ==> !#[trigger] occurs_at(cs@, needle@, j),
        decreases last - i,
    {
        assert(cs@.skip(i as int).subrange(0, needle@.len() as int) =~= cs@.subrange(
            i as int,
            i + needle@.len(),
        ));
        if starts_with_at(cs, i, needle) {
            proof {
                lemma_first_occurrence_is(cs@, needle@, i as int);
            }
            return Some(i);
        }
        if i == last {
            proof {
                lemma_first_occurrence(cs@, needle@);
                match first_occurrence(cs@, needle@) {
                    Some(k) => {
                        assert(occurs_at(cs@, needle@, k));
                        assert(k <= last);
                    },
                    None => {},
                }
            }
            return None;
        }
        i = i + 1;
    }
}

// ---------------------------------------------------------------------------
// Decimal numbers
// ---------------------------------------------------------------------------

/// The decimal digit character for `d` (`0 <= d < 10`).
pub open spec fn digit_char(d: int) -> char {
    if d == 0 {
        '0'
    } else if d == 1 {
        '1'
    } else if d == 2 {
        '2'
    } else if d == 3 {
        '3'
    } else if d == 4 {
        '4'
    } else if d == 5 {
        '5'
    } else if d == 6 {
        '6'
    } else if d == 7 {
        '7'
    } else if d == 8 {
        '8'
    } else {
        '9'
    }
}

/// The value of a decimal digit character.
pub open spec fn digit_value(c: char) -> int {
    c as int - '0' as int
}

/// The decimal representation of `n`, without leading zeros.
pub open spec fn decimal(n: nat) -> Seq<char>
    decreases n,
{
    if n < 10 {
        seq![digit_char(n as int)]
    } else {
        decimal(n / 10).push(digit_char((n % 10) as int))
    }
}

/// The value of a string of decimal digits (0 for the empty string).
pub open spec fn digits_value(s: Seq<char>) -> nat
    decreases s.len(),
{
    if s.len() == 0 {
        0
    } else {
        (digits_value(s.drop_last()) * 10 + digit_value(s.last())) as nat
    }
}

pub open spec fn all_digits(s: Seq<char>) -> bool {
    forall|i: int| 0 <= i < s.len() ==> is_digit(#[trigger] s[i])
}

/// What `str::parse::<u64>` gives for a non-empty string of digits: its value,
/// unless that does not fit in 64 bits.
pub open spec fn parse_digits(s: Seq<char>) -> Option<u64> {
    if digits_value(s) <= u64::MAX {
        Some(digits_value(s) as u64)
    } else {
        None
    }
}

pub proof fn lemma_digit_char(d: int)
    requires
        0 <= d < 10,
    ensures
        is_digit(digit_char(d)),
        digit_value(digit_char(d)) == d,
{
}

/// The decimal representation of `n` is a string of digits whose value is `n`.
pub proof fn lemma_decimal(n: nat)
    ensures
        all_digits(decimal(n)),
        digits_value(decimal(n)) == n,
        decimal(n).len() >= 1,
    decreases n,
{
    if n < 10 {
        lemma_digit_char(n as int);
        assert(decimal(n).drop_last() =~= Seq::<char>::empty());
        assert(decimal(n).last() == digit_char(n as int));
        assert(digits_value(Seq::<char>::empty()) == 0);
    } else {
        lemma_decimal(n / 10);
        lemma_digit_char((n % 10) as int);
        let s = decimal(n);
        assert(s.drop_last() =~= decimal(n / 10));
        assert(s.last() == digit_char((n % 10) as int));
        assert(digit_value(s.last()) == n % 10);
        assert((n / 10) * 10 + n % 10 == n) by (nonlinear_arith);
        assert(digits_value(s) == digits_value(s.drop_last()) * 10 + digit_value(s.last()));
        assert forall|i: int| 0 <= i < s.len() implies is_digit(#[trigger] s[i]) by {
            if i < s.len() - 1 {
                assert(s[i] == decimal(n / 10)[i]);
            }
        }
    }
}

/// The value of a digit string is at least the value of any of its prefixes.
pub proof fn lemma_digits_value_prefix(s: Seq<char>, k: int)
    requires
        0 <= k <= s.len(),
        all_digits(s),
    ensures
        digits_value(s.subrange(0, k)) <= digits_value(s),
    decreases s.len() - k,
{
    if k < s.len() {
        lemma_digits_value_prefix(s, k + 1);
        let t = s.subrange(0, k + 1);
        assert(t.drop_last() =~= s.subrange(0, k));
        assert(is_digit(s[k]));
        assert(t.last() == s[k]);
    } else {
        assert(s.subrange(0, k) =~= s);
    }
}

/// Appends the decimal representation of `n` to `out`.
pub fn push_decimal(out: &mut String, n: u64)
    ensures
        final(out)@ == old(out)@ + decimal(n as nat),
    decreases n,
{
    if n >= 10 {
        push_decimal(out, n / 10);
    }
    let d = n % 10;
    let c = if d == 0 {
        '0'
    } else if d == 1 {
        '1'
    } else if d == 2 {
        '2'
    } else if d == 3 {
        '3'
    } else if d == 4 {
        '4'
    } else if d == 5 {
        '5'
    } else if d == 6 {
        '6'
    } else if d == 7 {
        '7'
    } else if d == 8 {
        '8'
    } else {
        '9'
    };
    out.push(c);
    proof {
        if n >= 10 {
            assert(decimal(n as nat) == decimal((n / 10) as nat).push(digit_char((n % 10) as int)));
        }
    }
}

/// The decimal representation of `n` as a string.
pub fn decimal_string(n: u64) -> (s: String)
    ensures
        s@ == decimal(n as nat),
{
    let mut s = String::new();
    push_decimal(&mut s, n);
    s
}

/// Parses `cs[start..end]`, a non-empty run of decimal digits, as a `u64`;
/// `None` when the value does not fit.
pub fn parse_digit_run(cs: &[char], start: usize, end: usize) -> (r: Option<u64>)
    requires
        start < end <= cs@.len(),
        all_digits(cs@.subrange(start as int, end as int)),
    ensures
        r == parse_digits(cs@.subrange(start as int, end as int)),
{
    let ghost s = cs@.subrange(start as int, end as int);
    let mut acc: u64 = 0;
    let mut i: usize = start;
    while i < end
        invariant
            start <= i <= end <= cs@.len(),
            s == cs@.subrange(start as int, end as int),
            all_digits(s),
            acc as nat == digits_value(s.subrange(0, i - start)),
        decreases end - i,
    {
        let ghost k = i - start;
        assert(is_digit(s[k]));
        assert(s[k] == cs@[i as int]);
        let d = (cs[i] as u32 - '0' as u32) as u64;
        proof {
            let t = s.subrange(0, k + 1);
            assert(t.drop_last() =~= s.subrange(0, k));
            assert(t.last() == s[k]);
            assert(digits_value(t) == digits_value(s.subrange(0, k)) * 10 + d);
        }
        if acc > (u64::MAX - d) / 10 {
            proof {
                let t = s.subrange(0, k + 1);
                assert(acc * 10 + d > u64::MAX) by (nonlinear_arith)
                    requires
                        acc > (u64::MAX - d) / 10,
                        d <= 9,
                ;
                lemma_digits_value_prefix(s, k + 1);
            }
            return None;
        }
        proof {
            assert(acc * 10 + d <= u64::MAX) by (nonlinear_arith)
                requires
                    acc <= (u64::MAX - d) / 10,
                    d <= 9,
            ;
        }
        acc = acc * 10 + d;
        i = i + 1;
    }
    assert(s.subrange(0, (end - start) as int) =~= s);
    Some(acc)
}

// ---------------------------------------------------------------------------
// Splitting and trimming
// ---------------------------------------------------------------------------

/// `s` split around its first `c`, as `str::split_once` does.
pub open spec fn split_first(s: Seq<char>, c: char) -> Option<(Seq<char>, Seq<char>)> {
    match first_match(s, CharClass::Is(c)) {
        Some(i) => Some((s.take(i), s.skip(i + 1))),
        None => None,
    }
}

/// `s` without the prefix `p`, when it has it.
pub open spec fn strip_prefix(s: Seq<char>, p: Seq<char>) -> Option<Seq<char>> {
    if seq_starts_with(s, p) {
        Some(s.skip(p.len() as int))
    } else {
        None
    }
}

/// `s` without the suffix `p`, when it has it.
pub open spec fn strip_suffix(s: Seq<char>, p: Seq<char>) -> Option<Seq<char>> {
    if seq_ends_with(s, p) {
        Some(s.take(s.len() - p.len()))
    } else {
        None
    }
}

/// `s` without any trailing `c`.
pub open spec fn trim_end_char(s: Seq<char>, c: char) -> Seq<char>
    decreases s.len(),
{
    if s.len() > 0 && s.last() == c {
        trim_end_char(s.drop_last(), c)
    } else {
        s
    }
}

/// How many times `c` occurs in `s`.
pub open spec fn count_char(s: Seq<char>, c: char) -> nat
    decreases s.len(),
{
    if s.len() == 0 {
        0
    } else {
        count_char(s.drop_last(), c) + (if s.last() == c { 1nat } else { 0nat })
    }
}

/// A copy of `cs[start..end]`.
pub fn slice_vec(cs: &[char], start: usize, end: usize) -> (v: Vec<char>)
    requires
        start <= end <= cs@.len(),
    ensures
        v@ == cs@.subrange(start as int, end as int),
{
    let mut v: Vec<char> = Vec::new();
    let mut i: usize = start;
    while i < end
        invariant
            start <= i <= end <= cs@.len(),
            v@ == cs@.subrange(start as int, i as int),
        decreases end - i,
    {
        v.push(cs[i]);
        i = i + 1;
    }
    v
}

/// `cs` split around its first `c`.
pub fn split_first_vec(cs: &[char], c: char) -> (r: Option<(Vec<char>, Vec<char>)>)
    ensures
        match (split_first(cs@, c), r) {
            (Some(x), Some(y)) => y.0@ == x.0 && y.1@ == x.1,
            (None, None) => true,
            _ => false,
        },
{
    proof {
        lemma_first_match(cs@, CharClass::Is(c));
        assert(cs@.skip(0) =~= cs@);
    }
    let n = cs.len();
    match find_char_from(cs, 0, c) {
        Some(i) => {
            assert(i < n);
            let a = slice_vec(cs, 0, i);
            let b = slice_vec(cs, i + 1, cs.len());
            Some((a, b))
        },
        None => None,
    }
}

/// `cs` without the prefix `p`, when it has it.
pub fn strip_prefix_vec(cs: &[char], p: &[char]) -> (r: Option<Vec<char>>)
    ensures
        match strip_prefix(cs@, p@) {
            Some(t) => r is Some && r->0@ == t,
            None => r is None,
        },
{
    assert(cs@.skip(0) =~= cs@);
    if starts_with_at(cs, 0, p) {
        Some(slice_vec(cs, p.len(), cs.len()))
    } else {
        None
    }
}

/// `cs` without the suffix `p`, when it has it.
pub fn strip_suffix_vec(cs: &[char], p: &[char]) -> (r: Option<Vec<char>>)
    ensures
        match strip_suffix(cs@, p@) {
            Some(t) => r is Some && r->0@ == t,
            None => r is None,
        },
{
    if p.len() > cs.len() {
        return None;
    }
    let at = cs.len() - p.len();
    if starts_with_at(cs, at, p) {
        assert(cs@.skip(at as int).subrange(0, p@.len() as int) =~= cs@.subrange(at as int, cs@.len() as int));
        Some(slice_vec(cs, 0, at))
    } else {
        assert(cs@.skip(at as int).subrange(0, p@.len() as int) =~= cs@.subrange(at as int, cs@.len() as int));
        None
    }
}

/// `cs` without any trailing `c`.
pub fn trim_end_char_vec(cs: &[char], c: char) -> (v: Vec<char>)
    ensures
        v@ == trim_end_char(cs@, c),
{
    let mut end: usize = cs.len();
    assert(cs@.subrange(0, cs@.len() as int) =~= cs@);
    while end > 0 && cs[end - 1] == c
        invariant
            end <= cs@.len(),
            trim_end_char(cs@.subrange(0, end as int), c) == trim_end_char(cs@, c),
        decreases end,
    {
        proof {
            let t = cs@.subrange(0, end as int);
            assert(t.drop_last() =~= cs@.subrange(0, end - 1));
        }
        end = end - 1;
    }
    proof {
        assert(cs@.subrange(0, cs@.len() as int) =~= cs@);
    }
    slice_vec(cs, 0, end)
}

/// How many times `c` occurs in `cs`.
pub fn count_char_vec(cs: &[char], c: char) -> (n: usize)
    ensures
        n == count_char(cs@, c),
{
    let mut n: usize = 0;
    let mut i: usize = 0;
    while i < cs.len()
        invariant
            i <= cs@.len(),
            n == count_char(cs@.subrange(0, i as int), c),
            n <= i,
        decreases cs@.len() - i,
    {
        proof {
            let t = cs@.subrange(0, i + 1);
            assert(t.drop_last() =~= cs@.subrange(0, i as int));
        }
        if cs[i] == c {
            n = n + 1;
        }
        i = i + 1;
    }
    assert(cs@.subrange(0, cs@.len() as int) =~= cs@);
    n
}

/// Appends the characters of `v` to `out`.
pub fn push_vec(out: &mut Vec<char>, v: &[char])
    ensures
        final(out)@ == old(out)@ + v@,
{
    let mut i: usize = 0;
    while i < v.len()
        invariant
            i <= v@.len(),
            out@ == old(out)@ + v@.subrange(0, i as int),
        decreases v@.len() - i,
    {
        out.push(v[i]);
        proof {
            assert(out@ =~= old(out)@ + v@.subrange(0, i + 1));
        }
        i = i + 1;
    }
    assert(v@.subrange(0, v@.len() as int) =~= v@);
}

/// A copy of a list of strings.
pub fn clone_strings(v: &Vec<String>) -> (r: Vec<String>)
    ensures
        r@.map_values(|s: String| s@) == v@.map_values(|s: String| s@),
{
    let mut r: Vec<String> = Vec::new();
    let mut i: usize = 0;
    while i < v.len()
        invariant
            i <= v@.len(),
            r@.map_values(|s: String| s@) == v@.map_values(|s: String| s@).take(i as int),
        decreases v@.len() - i,
    {
        let c = v[i].clone();
        assert(c@ == v@[i as int]@);
        let ghost prev = r@.map_values(|s: String| s@);
        r.push(c);
        assert(r@.map_values(|s: String| s@) =~= prev.push(c@));
        assert(r@.map_values(|s: String| s@) =~= v@.map_values(|s: String| s@).take(i + 1));
        i = i + 1;
    }
    assert(v@.map_values(|s: String| s@).take(v@.len() as int) =~= v@.map_values(|s: String| s@));
    r
}

/// A copy of an optional string.
pub fn clone_opt_string(o: &Option<String>) -> (r: Option<String>)
    ensures
        match (o, r) {
            (Some(a), Some(b)) => b@ == a@,
            (None, None) => true,
            _ => false,
        },
{
    match o {
        Some(s) => Some(s.clone()),
        None => None,
    }
}


// ---------------------------------------------------------------------------
// Ordering and searching from the back
// ---------------------------------------------------------------------------

/// Lexicographic order of character sequences by code point, which is the
/// order `str` and `String` compare in (UTF-8 byte order).
pub open spec fn lex_lt(a: Seq<char>, b: Seq<char>) -> bool
    decreases a.len(),
{
    if a.len() == 0 {
        b.len() > 0
    } else if b.len() == 0 {
        false
    } else if a[0] != b[0] {
        (a[0] as u32) < (b[0] as u32)
    } else {
        lex_lt(a.skip(1), b.skip(1))
    }
}

pub proof fn lemma_lex_trans(a: Seq<char>, b: Seq<char>, c: Seq<char>)
    requires
        lex_lt(a, b),
        lex_lt(b, c),
    ensures
        lex_lt(a, c),
    decreases a.len(),
{
    if a.len() > 0 && b.len() > 0 && c.len() > 0 && a[0] == b[0] && b[0] == c[0] {
        lemma_lex_trans(a.skip(1), b.skip(1), c.skip(1));
    }
}

pub proof fn lemma_lex_asym(a: Seq<char>, b: Seq<char>)
    ensures
        !(lex_lt(a, b) && lex_lt(b, a)),
    decreases a.len(),
{
    if a.len() > 0 && b.len() > 0 && a[0] == b[0] {
        lemma_lex_asym(a.skip(1), b.skip(1));
    }
}

/// Whether `a` comes before `b` in lexicographic order.
pub fn lex_less(a: &[char], b: &[char]) -> (r: bool)
    ensures
        r == lex_lt(a@, b@),
{
    let mut i: usize = 0;
    assert(a@.skip(0) =~= a@);
    assert(b@.skip(0) =~= b@);
    while i < a.len() && i < b.len() && a[i] == b[i]
        invariant
            i <= a@.len(),
            i <= b@.len(),
            lex_lt(a@, b@) == lex_lt(a@.skip(i as int), b@.skip(i as int)),
        decreases a@.len() - i,
    {
        proof {
            assert(a@.skip(i as int)[0] == a@[i as int]);
            assert(b@.skip(i as int)[0] == b@[i as int]);
            assert(a@.skip(i as int).skip(1) =~= a@.skip(i + 1));
            assert(b@.skip(i as int).skip(1) =~= b@.skip(i + 1));
        }
        i = i + 1;
    }
    proof {
        if i < a@.len() {
            assert(a@.skip(i as int)[0] == a@[i as int]);
        }
        if i < b@.len() {
            assert(b@.skip(i as int)[0] == b@[i as int]);
        }
    }
    if i == a.len() {
        i < b.len()
    } else if i == b.len() {
        false
    } else {
        (a[i] as u32) < (b[i] as u32)
    }
}

/// What follows the last `c` in `s`; all of `s` when it has none.
pub open spec fn after_last(s: Seq<char>, c: char) -> Seq<char>
    decreases s.len(),
{
    if s.len() == 0 {
        s
    } else if s.last() == c {
        Seq::empty()
    } else {
        after_last(s.drop_last(), c).push(s.last())
    }
}

/// The start of what follows the last `c` in `cs`.
pub fn after_last_index(cs: &[char], c: char) -> (r: usize)
    ensures
        r <= cs@.len(),
        cs@.skip(r as int) == after_last(cs@, c),
{
    let mut i: usize = cs.len();
    assert(cs@.take(cs@.len() as int) =~= cs@);
    assert(after_last(cs@, c) + cs@.skip(cs@.len() as int) =~= after_last(cs@, c));
    while i > 0 && cs[i - 1] != c
        invariant
            i <= cs@.len(),
            after_last(cs@, c) == after_last(cs@.take(i as int), c) + cs@.skip(i as int),
        decreases i,
    {
        proof {
            let t = cs@.take(i as int);
            assert(t.last() == cs@[i - 1]);
            assert(t.drop_last() =~= cs@.take(i - 1));
            assert(after_last(cs@.take(i - 1), c) + cs@.skip(i - 1) =~= after_last(cs@.take(i - 1), c).push(cs@[i - 1]) + cs@.skip(i as int));
        }
        i = i - 1;
    }
    proof {
        let t = cs@.take(i as int);
        if i > 0 {
            assert(t.last() == cs@[i - 1]);
        } else {
            assert(t.len() == 0);
        }
        assert(after_last(t, c) =~= Seq::<char>::empty());
        assert(after_last(cs@, c) =~= cs@.skip(i as int));
    }
    i
}

/// What follows the last occurrence of `sep` in `s` (occurrences compared
/// by where they end); all of `s` when there is none.
pub open spec fn after_last_occurrence(s: Seq<char>, sep: Seq<char>) -> Seq<char>
    decreases s.len(),
{
    if s.len() < sep.len() || s.len() == 0 {
        s
    } else if seq_ends_with(s, sep) {
        Seq::empty()
    } else {
        after_last_occurrence(s.drop_last(), sep).push(s.last())
    }
}

/// The start of what follows the last occurrence of `sep` in `cs`.
pub fn after_last_occurrence_index(cs: &[char], sep: &[char]) -> (r: usize)
    requires
        sep@.len() > 0,
    ensures
        r <= cs@.len(),
        cs@.skip(r as int) == after_last_occurrence(cs@, sep@),
{
    let mut i: usize = cs.len();
    assert(cs@.take(cs@.len() as int) =~= cs@);
    assert(after_last_occurrence(cs@, sep@) + cs@.skip(cs@.len() as int) =~= after_last_occurrence(cs@, sep@));
    while i >= sep.len() && i > 0 && !starts_with_at(cs, i - sep.len(), sep)
        invariant
            i <= cs@.len(),
            sep@.len() > 0,
            after_last_occurrence(cs@, sep@) == after_last_occurrence(cs@.take(i as int), sep@) + cs@.skip(i as int),
        decreases i,
    {
        proof {
            let t = cs@.take(i as int);
            assert(cs@.skip(i - sep@.len()).subrange(0, sep@.len() as int) =~= t.subrange(t.len() - sep@.len(), t.len() as int));
            assert(t.last() == cs@[i - 1]);
            assert(t.drop_last() =~= cs@.take(i - 1));
            assert(after_last_occurrence(cs@.take(i - 1), sep@) + cs@.skip(i - 1) =~= after_last_occurrence(cs@.take(i - 1), sep@).push(cs@[i - 1]) + cs@.skip(i as int));
        }
        i = i - 1;
    }
    proof {
        let t = cs@.take(i as int);
        if i >= sep@.len() && i > 0 {
            assert(cs@.skip(i - sep@.len()).subrange(0, sep@.len() as int) =~= t.subrange(t.len() - sep@.len(), t.len() as int));
            assert(after_last_occurrence(t, sep@) =~= Seq::<char>::empty());
            assert(after_last_occurrence(cs@, sep@) =~= cs@.skip(i as int));
        } else {
            assert(after_last_occurrence(t, sep@) == t);
            assert(t + cs@.skip(i as int) =~= cs@.skip(0));
        }
    }
    if i >= sep.len() && i > 0 {
        i
    } else {
        0
    }
}

/// Parts written out with `sep` between them.
pub open spec fn joined(parts: Seq<Seq<char>>, sep: Seq<char>) -> Seq<char>
    decreases parts.len(),
{
    if parts.len() == 0 {
        Seq::empty()
    } else if parts.len() == 1 {
        parts[0]
    } else {
        joined(parts.drop_last(), sep) + sep + parts.last()
    }
}

pub fn join_parts(parts: &Vec<String>, sep: &str) -> (r: String)
    ensures
        r@ == joined(parts@.map_values(|s: String| s@), sep@),
{
    let ghost pv = parts@.map_values(|s: String| s@);
    let mut out = String::new();
    let mut i: usize = 0;
    while i < parts.len()
        invariant
            i <= parts@.len(),
            pv == parts@.map_values(|s: String| s@),
            out@ == joined(pv.take(i as int), sep@),
        decreases parts@.len() - i,
    {
        let ghost t = pv.take(i + 1);
        proof {
            assert(t.drop_last() =~= pv.take(i as int));
            assert(t.last() == parts@[i as int]@);
        }
        if i > 0 {
            push_str(&mut out, sep);
        }
        push_str(&mut out, parts[i].as_str());
        i = i + 1;
    }
    assert(pv.take(pv.len() as int) =~= pv);
    out
}

} // verus!
