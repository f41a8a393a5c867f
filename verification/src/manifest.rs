//! Module manifests (`module.toml`): the data types and the validation that
//! turns a decoded manifest into a `Module`.

use vstd::prelude::*;
use crate::path::components;
use crate::text::{chars_of, clone_opt_string, clone_strings, contains_chars, push_str, seq_contains, string_of};

verus! {

/// How the contents of a target can be restored after deletion.
#[derive(Debug, Clone, Copy, PartialEq, Eq, Structural)]
pub enum RestoreKind {
    /// Rebuilt automatically by the system, zero user action needed.
    Auto,
    /// Requires a manual step to restore (e.g. `npm install`, `pod install`).
    Manual,
}

impl Default for RestoreKind {
    fn default() -> (r: RestoreKind)
        ensures
            r == RestoreKind::Auto,
    {
        RestoreKind::Auto
    }
}

impl RestoreKind {
    /// The manifest name of this kind: `auto` or `manual`.
    pub fn as_str(&self) -> (r: &'static str)
        ensures
            r@ == restore_kind_name(*self),
    {
        match self {
            RestoreKind::Auto => "auto",
            RestoreKind::Manual => "manual",
        }
    }
}

pub open spec fn restore_kind_name(k: RestoreKind) -> Seq<char> {
    match k {
        RestoreKind::Auto => "auto"@,
        RestoreKind::Manual => "manual"@,
    }
}

/// Potential impact of deleting a target's contents.
#[derive(Debug, Clone, Copy, PartialEq, Eq, Structural)]
pub enum RiskLevel {
    /// No meaningful impact — safe to remove freely.
    Safe,
    /// Low impact — minor inconvenience at most.
    Low,
    /// May contain user data worth reviewing before deletion.
    Medium,
    /// Likely data loss without a backup.
    High,
}

impl Default for RiskLevel {
    fn default() -> (r: RiskLevel)
        ensures
            r == RiskLevel::Safe,
    {
        RiskLevel::Safe
    }
}

impl RiskLevel {
    /// The manifest name of this level: `safe`, `low`, `medium` or `high`.
    pub fn as_str(&self) -> (r: &'static str)
        ensures
            r@ == risk_level_name(*self),
    {
        match self {
            RiskLevel::Safe => "safe",
            RiskLevel::Low => "low",
            RiskLevel::Medium => "medium",
            RiskLevel::High => "high",
        }
    }
}

pub open spec fn risk_level_name(k: RiskLevel) -> Seq<char> {
    match k {
        RiskLevel::Safe => "safe"@,
        RiskLevel::Low => "low"@,
        RiskLevel::Medium => "medium"@,
        RiskLevel::High => "high"@,
    }
}

/// Why a manifest was rejected.
#[derive(Debug)]
pub enum ManifestError {
    /// The TOML could not be decoded into the manifest's fields.
    Decode(String),
    UnknownRestoreKind(String),
    UnknownRiskLevel(String),
    EmptyId,
    InvalidId(String),
    InvalidUnicodeEscape(String),
    InvalidCodePoint(String),
    /// The icon's code point lies outside the Nerd Font ranges.
    IconNotNerdFont(u32),
    EmptyIcon,
    IconNotSingleChar,
    BothPathAndPaths,
    NoPath,
    EmptyPaths,
    /// A target pattern with a `..` component.
    TargetTraversal(String),
    EmptyIgnorePattern,
    AbsoluteIgnorePattern(String),
    IgnoreTraversal(String),
    InvalidIgnoreGlob(String),
}

/// A manifest error as plain values.
pub enum ManifestErrorView {
    Decode(Seq<char>),
    UnknownRestoreKind(Seq<char>),
    UnknownRiskLevel(Seq<char>),
    EmptyId,
    InvalidId(Seq<char>),
    InvalidUnicodeEscape(Seq<char>),
    InvalidCodePoint(Seq<char>),
    IconNotNerdFont(u32),
    EmptyIcon,
    IconNotSingleChar,
    BothPathAndPaths,
    NoPath,
    EmptyPaths,
    TargetTraversal(Seq<char>),
    EmptyIgnorePattern,
    AbsoluteIgnorePattern(Seq<char>),
    IgnoreTraversal(Seq<char>),
    InvalidIgnoreGlob(Seq<char>),
}

impl View for ManifestError {
    type V = ManifestErrorView;

    open spec fn view(&self) -> ManifestErrorView {
        match self {
            ManifestError::Decode(m) => ManifestErrorView::Decode(m@),
            ManifestError::UnknownRestoreKind(s) => ManifestErrorView::UnknownRestoreKind(s@),
            ManifestError::UnknownRiskLevel(s) => ManifestErrorView::UnknownRiskLevel(s@),
            ManifestError::EmptyId => ManifestErrorView::EmptyId,
            ManifestError::InvalidId(s) => ManifestErrorView::InvalidId(s@),
            ManifestError::InvalidUnicodeEscape(s) => ManifestErrorView::InvalidUnicodeEscape(s@),
            ManifestError::InvalidCodePoint(s) => ManifestErrorView::InvalidCodePoint(s@),
            ManifestError::IconNotNerdFont(cp) => ManifestErrorView::IconNotNerdFont(*cp),
            ManifestError::EmptyIcon => ManifestErrorView::EmptyIcon,
            ManifestError::IconNotSingleChar => ManifestErrorView::IconNotSingleChar,
            ManifestError::BothPathAndPaths => ManifestErrorView::BothPathAndPaths,
            ManifestError::NoPath => ManifestErrorView::NoPath,
            ManifestError::EmptyPaths => ManifestErrorView::EmptyPaths,
            ManifestError::TargetTraversal(p) => ManifestErrorView::TargetTraversal(p@),
            ManifestError::EmptyIgnorePattern => ManifestErrorView::EmptyIgnorePattern,
            ManifestError::AbsoluteIgnorePattern(p) => ManifestErrorView::AbsoluteIgnorePattern(p@),
            ManifestError::IgnoreTraversal(p) => ManifestErrorView::IgnoreTraversal(p@),
            ManifestError::InvalidIgnoreGlob(p) => ManifestErrorView::InvalidIgnoreGlob(p@),
        }
    }
}

/// Whether a check's result is the problem the spec names, if any.
pub open spec fn check_agrees(r: Result<(), ManifestError>, p: Option<ManifestErrorView>) -> bool {
    match (r, p) {
        (Ok(()), None) => true,
        (Err(e), Some(v)) => e@ == v,
        _ => false,
    }
}

/// Upper-case hexadecimal digit for `d` (`0 <= d < 16`).
pub open spec fn hex_digit(d: int) -> char {
    if d < 10 {
        crate::text::digit_char(d)
    } else if d == 10 {
        'A'
    } else if d == 11 {
        'B'
    } else if d == 12 {
        'C'
    } else if d == 13 {
        'D'
    } else if d == 14 {
        'E'
    } else {
        'F'
    }
}

/// Upper-case hexadecimal representation of `n`, without leading zeros.
pub open spec fn hex(n: nat) -> Seq<char>
    decreases n,
{
    if n < 16 {
        seq![hex_digit(n as int)]
    } else {
        hex(n / 16).push(hex_digit((n % 16) as int))
    }
}

/// `{:04X}`: upper-case hexadecimal, padded with zeros to four digits.
pub open spec fn hex4(n: nat) -> Seq<char> {
    let h = hex(n);
    if h.len() >= 4 {
        h
    } else {
        Seq::new((4 - h.len()) as nat, |i: int| '0') + h
    }
}

fn push_hex(out: &mut Vec<char>, n: u32)
    ensures
        final(out)@ == old(out)@ + hex(n as nat),
    decreases n,
{
    if n >= 16 {
        push_hex(out, n / 16);
    }
    let d = n % 16;
    let c = if d < 10 {
        if d == 0 { '0' } else if d == 1 { '1' } else if d == 2 { '2' } else if d == 3 { '3' }
        else if d == 4 { '4' } else if d == 5 { '5' } else if d == 6 { '6' } else if d == 7 { '7' }
        else if d == 8 { '8' } else { '9' }
    } else if d == 10 {
        'A'
    } else if d == 11 {
        'B'
    } else if d == 12 {
        'C'
    } else if d == 13 {
        'D'
    } else if d == 14 {
        'E'
    } else {
        'F'
    };
    out.push(c);
    proof {
        if n >= 16 {
            assert(hex(n as nat) == hex((n / 16) as nat).push(hex_digit((n % 16) as int)));
        }
    }
}

/// `n` as `{:04X}`.
pub fn hex4_string(n: u32) -> (r: String)
    ensures
        r@ == hex4(n as nat),
{
    let mut h: Vec<char> = Vec::new();
    push_hex(&mut h, n);
    assert(h@ =~= hex(n as nat));
    let mut out: Vec<char> = Vec::new();
    let mut k: usize = h.len();
    while k < 4
        invariant
            h.len() <= k <= 4 || (k == h.len() && k >= 4),
            h@ == hex(n as nat),
            out@ == Seq::new((k - h@.len()) as nat, |i: int| '0'),
        decreases 4 - k,
    {
        out.push('0');
        proof {
            assert(out@ =~= Seq::new((k + 1 - h@.len()) as nat, |i: int| '0'));
        }
        k = k + 1;
    }
    crate::text::push_vec(&mut out, h.as_slice());
    proof {
        if h@.len() >= 4 {
            assert(out@ =~= hex(n as nat));
        } else {
            assert(out@ =~= hex4(n as nat));
        }
    }
    string_of(out.as_slice())
}

/// The message for each manifest error.
pub open spec fn manifest_error_message(e: ManifestErrorView) -> Seq<char> {
    match e {
        ManifestErrorView::Decode(m) => m,
        ManifestErrorView::UnknownRestoreKind(s) => "unknown restore kind '"@ + s + "': expected one of auto, manual"@,
        ManifestErrorView::UnknownRiskLevel(s) => "unknown risk level '"@ + s + "': expected one of safe, low, medium, high"@,
        ManifestErrorView::EmptyId => "module id must not be empty"@,
        ManifestErrorView::InvalidId(s) => "module id '"@ + s + "' is invalid: must be kebab-case (e.g. \"docker\", \"node-modules\")"@,
        ManifestErrorView::InvalidUnicodeEscape(s) => "invalid Unicode escape: "@ + s,
        ManifestErrorView::InvalidCodePoint(s) => "invalid Unicode code point: "@ + s,
        ManifestErrorView::IconNotNerdFont(cp) => "icon U+"@ + hex4(cp as nat) + " is not a Nerd Font glyph; must be in PUA range U+E000-U+F8FF or U+F0000-U+F1AF0"@,
        ManifestErrorView::EmptyIcon => "icon must not be empty"@,
        ManifestErrorView::IconNotSingleChar => "icon must be a single character"@,
        ManifestErrorView::BothPathAndPaths => "target must specify either 'path' or 'paths', not both"@,
        ManifestErrorView::NoPath => "target must specify either 'path' or 'paths'"@,
        ManifestErrorView::EmptyPaths => "target paths must not be empty"@,
        ManifestErrorView::TargetTraversal(p) => "target pattern contains '..': '"@ + p + "' \u{2014} directory traversal is not allowed"@,
        ManifestErrorView::EmptyIgnorePattern => "ignore pattern must not be empty"@,
        ManifestErrorView::AbsoluteIgnorePattern(p) => "ignore pattern '"@ + p + "' must be relative, not absolute"@,
        ManifestErrorView::IgnoreTraversal(p) => "ignore pattern '"@ + p + "' must not contain directory traversal (..)"@,
        ManifestErrorView::InvalidIgnoreGlob(p) => "ignore pattern '"@ + p + "' is not a valid glob pattern"@,
    }
}

fn quoted(pre: &str, s: &String, post: &str) -> (r: String)
    ensures
        r@ == pre@ + s@ + post@,
{
    let mut out = String::new();
    push_str(&mut out, pre);
    push_str(&mut out, s.as_str());
    push_str(&mut out, post);
    assert(out@ =~= pre@ + s@ + post@);
    out
}

fn prefixed(pre: &str, s: &String) -> (r: String)
    ensures
        r@ == pre@ + s@,
{
    let mut out = String::new();
    push_str(&mut out, pre);
    push_str(&mut out, s.as_str());
    assert(out@ =~= pre@ + s@);
    out
}

impl ManifestError {
    /// The message shown for this error.
    pub fn message(&self) -> (r: String)
        ensures
            r@ == manifest_error_message(self@),
    {
        match self {
            ManifestError::Decode(m) => {
                let r = m.as_str().to_owned();
                assert(r@ == manifest_error_message(self@));
                r
            },
            ManifestError::UnknownRestoreKind(s) => {
                let r = quoted("unknown restore kind '", s, "': expected one of auto, manual");
                assert(r@ == manifest_error_message(self@));
                r
            },
            ManifestError::UnknownRiskLevel(s) => {
                let r = quoted("unknown risk level '", s, "': expected one of safe, low, medium, high");
                assert(r@ == manifest_error_message(self@));
                r
            },
            ManifestError::EmptyId => {
                let r = "module id must not be empty".to_owned();
                assert(r@ == manifest_error_message(self@));
                r
            },
            ManifestError::InvalidId(s) => {
                let r = quoted("module id '", s, "' is invalid: must be kebab-case (e.g. \"docker\", \"node-modules\")");
                assert(r@ == manifest_error_message(self@));
                r
            },
            ManifestError::InvalidUnicodeEscape(s) => {
                let r = prefixed("invalid Unicode escape: ", s);
                assert(r@ == manifest_error_message(self@));
                r
            },
            ManifestError::InvalidCodePoint(s) => {
                let r = prefixed("invalid Unicode code point: ", s);
                assert(r@ == manifest_error_message(self@));
                r
            },
            ManifestError::IconNotNerdFont(cp) => {
                let h = hex4_string(*cp);
                quoted("icon U+", &h, " is not a Nerd Font glyph; must be in PUA range U+E000-U+F8FF or U+F0000-U+F1AF0")
            },
            ManifestError::EmptyIcon => {
                let r = "icon must not be empty".to_owned();
                assert(r@ == manifest_error_message(self@));
                r
            },
            ManifestError::IconNotSingleChar => {
                let r = "icon must be a single character".to_owned();
                assert(r@ == manifest_error_message(self@));
                r
            },
            ManifestError::BothPathAndPaths => {
                let r = "target must specify either 'path' or 'paths', not both".to_owned();
                assert(r@ == manifest_error_message(self@));
                r
            },
            ManifestError::NoPath => {
                let r = "target must specify either 'path' or 'paths'".to_owned();
                assert(r@ == manifest_error_message(self@));
                r
            },
            ManifestError::EmptyPaths => {
                let r = "target paths must not be empty".to_owned();
                assert(r@ == manifest_error_message(self@));
                r
            },
            ManifestError::TargetTraversal(p) => {
                let r = quoted("target pattern contains '..': '", p, "' \u{2014} directory traversal is not allowed");
                assert(r@ == manifest_error_message(self@));
                r
            },
            ManifestError::EmptyIgnorePattern => {
                let r = "ignore pattern must not be empty".to_owned();
                assert(r@ == manifest_error_message(self@));
                r
            },
            ManifestError::AbsoluteIgnorePattern(p) => {
                let r = quoted("ignore pattern '", p, "' must be relative, not absolute");
                assert(r@ == manifest_error_message(self@));
                r
            },
            ManifestError::IgnoreTraversal(p) => {
                let r = quoted("ignore pattern '", p, "' must not contain directory traversal (..)");
                assert(r@ == manifest_error_message(self@));
                r
            },
            ManifestError::InvalidIgnoreGlob(p) => {
                let r = quoted("ignore pattern '", p, "' is not a valid glob pattern");
                assert(r@ == manifest_error_message(self@));
                r
            },
        }
    }
}

// ---------------------------------------------------------------------------
// Names of restore kinds and risk levels
// ---------------------------------------------------------------------------

/// The restore kind a manifest names.
pub open spec fn spec_restore_kind(s: Seq<char>) -> Option<RestoreKind> {
    if s == "auto"@ {
        Some(RestoreKind::Auto)
    } else if s == "manual"@ {
        Some(RestoreKind::Manual)
    } else {
        None
    }
}

/// The risk level a manifest names.
pub open spec fn spec_risk_level(s: Seq<char>) -> Option<RiskLevel> {
    if s == "safe"@ {
        Some(RiskLevel::Safe)
    } else if s == "low"@ {
        Some(RiskLevel::Low)
    } else if s == "medium"@ {
        Some(RiskLevel::Medium)
    } else if s == "high"@ {
        Some(RiskLevel::High)
    } else {
        None
    }
}

/// Reads a restore kind name: `auto` or `manual`.
pub fn parse_restore_kind(s: &str) -> (r: Result<RestoreKind, ManifestError>)
    ensures
        match spec_restore_kind(s@) {
            Some(k) => r == Ok::<RestoreKind, ManifestError>(k),
            None => r matches Err(e) && e@ == ManifestErrorView::UnknownRestoreKind(s@),
        },
{
    if crate::text::str_eq(s, "auto") {
        Ok(RestoreKind::Auto)
    } else if crate::text::str_eq(s, "manual") {
        Ok(RestoreKind::Manual)
    } else {
        Err(ManifestError::UnknownRestoreKind(s.to_owned()))
    }
}

/// Reads a risk level name: `safe`, `low`, `medium` or `high`.
pub fn parse_risk_level(s: &str) -> (r: Result<RiskLevel, ManifestError>)
    ensures
        match spec_risk_level(s@) {
            Some(k) => r == Ok::<RiskLevel, ManifestError>(k),
            None => r matches Err(e) && e@ == ManifestErrorView::UnknownRiskLevel(s@),
        },
{
    if crate::text::str_eq(s, "safe") {
        Ok(RiskLevel::Safe)
    } else if crate::text::str_eq(s, "low") {
        Ok(RiskLevel::Low)
    } else if crate::text::str_eq(s, "medium") {
        Ok(RiskLevel::Medium)
    } else if crate::text::str_eq(s, "high") {
        Ok(RiskLevel::High)
    } else {
        Err(ManifestError::UnknownRiskLevel(s.to_owned()))
    }
}

// ---------------------------------------------------------------------------
// Ids
// ---------------------------------------------------------------------------

pub open spec fn is_id_char(c: char) -> bool {
    ('a' <= c && c <= 'z') || ('0' <= c && c <= '9')
}

/// Kebab-case: `^[a-z0-9]+(-[a-z0-9]+)*$` — lower-case letters and digits in
/// non-empty segments joined by single hyphens.
pub open spec fn is_kebab_case(id: Seq<char>) -> bool {
    &&& id.len() > 0
    &&& forall|i: int| 0 <= i < id.len() ==> is_id_char(#[trigger] id[i]) || (id[i] == '-' && 0 < i < id.len() - 1 && id[i - 1] != '-')
}

/// What is wrong with `id`, if anything.
pub open spec fn id_problem(id: Seq<char>) -> Option<ManifestErrorView> {
    if id.len() == 0 {
        Some(ManifestErrorView::EmptyId)
    } else if !is_kebab_case(id) {
        Some(ManifestErrorView::InvalidId(id))
    } else {
        None
    }
}

/// Checks that a module id is kebab-case.
pub fn validate_id(id: &str) -> (r: Result<(), ManifestError>)
    ensures
        check_agrees(r, id_problem(id@)),
{
    let cs = chars_of(id);
    if cs.len() == 0 {
        return Err(ManifestError::EmptyId);
    }
    let n = cs.len();
    let mut i: usize = 0;
    while i < n
        invariant
            n == cs@.len(),
            cs@ == id@,
            i <= n,
            forall|j: int| 0 <= j < i ==> is_id_char(#[trigger] cs@[j]) || (cs@[j] == '-' && 0 < j < n - 1 && cs@[j - 1] != '-'),
        decreases n - i,
    {
        let c = cs[i];
        let ok = (('a' <= c && c <= 'z') || ('0' <= c && c <= '9'))
            || (c == '-' && i > 0 && i < n - 1 && cs[i - 1] != '-');
        if !ok {
            assert(!(is_id_char(cs@[i as int]) || (cs@[i as int] == '-' && 0 < i < n - 1 && cs@[i - 1] != '-')));
            return Err(ManifestError::InvalidId(id.to_owned()));
        }
        i = i + 1;
    }
    Ok(())
}

// ---------------------------------------------------------------------------
// Icons
// ---------------------------------------------------------------------------

pub open spec fn is_hex_digit(c: char) -> bool {
    ('0' <= c && c <= '9') || ('a' <= c && c <= 'f') || ('A' <= c && c <= 'F')
}

pub open spec fn hex_value(c: char) -> int {
    if '0' <= c && c <= '9' {
        c as int - '0' as int
    } else if 'a' <= c && c <= 'f' {
        c as int - 'a' as int + 10
    } else {
        c as int - 'A' as int + 10
    }
}

/// The value of a string of hexadecimal digits.
pub open spec fn hex_digits_value(s: Seq<char>) -> nat
    decreases s.len(),
{
    if s.len() == 0 {
        0
    } else {
        (hex_digits_value(s.drop_last()) * 16 + hex_value(s.last())) as nat
    }
}

/// Whether an icon string is a `U+XXXX` escape: `U+` and at least four
/// hexadecimal digits.
pub open spec fn is_unicode_escape(s: Seq<char>) -> bool {
    &&& s.len() >= 6
    &&& s[0] == 'U' && s[1] == '+'
    &&& forall|i: int| 2 <= i < s.len() ==> is_hex_digit(#[trigger] s[i])
}

/// Whether `cp` is a Unicode scalar value.
pub open spec fn is_scalar_value(cp: nat) -> bool {
    cp <= 0xD7FF || (0xE000 <= cp && cp <= 0x10FFFF)
}

/// `char::from_u32`: the character with code point `cp`, when `cp` is a
/// Unicode scalar value (at most 0x10FFFF and outside the surrogates
/// 0xD800-0xDFFF), as the standard library documents.
#[verifier::external_body]
fn char_from_code_point(cp: u32) -> (r: Option<char>)
    ensures
        r is Some <==> is_scalar_value(cp as nat),
        r matches Some(c) ==> c == cp as char,
{
    char::from_u32(cp)
}

/// What `resolve_icon_str` gives: a `U+XXXX` escape becomes the character it
/// names; anything else is kept.
pub open spec fn spec_resolve_icon(s: Seq<char>) -> Result<Seq<char>, ManifestErrorView> {
    if is_unicode_escape(s) {
        let v = hex_digits_value(s.skip(2));
        if v > u32::MAX {
            Err(ManifestErrorView::InvalidUnicodeEscape(s))
        } else if !is_scalar_value(v) {
            Err(ManifestErrorView::InvalidCodePoint(s))
        } else {
            Ok(seq![(v as u32) as char])
        }
    } else {
        Ok(s)
    }
}

/// Resolves a `U+XXXX` escape to the character it names, or keeps the string
/// as it is when it is not one.
pub fn resolve_icon_str(s: &str) -> (r: Result<String, ManifestError>)
    ensures
        match (spec_resolve_icon(s@), r) {
            (Ok(a), Ok(b)) => b@ == a,
            (Err(a), Err(b)) => b@ == a,
            _ => false,
        },
{
    let cs = chars_of(s);
    let n = cs.len();
    let is_escape = n >= 6 && cs[0] == 'U' && cs[1] == '+' && all_hex_from(cs.as_slice(), 2);
    if !is_escape {
        return Ok(s.to_owned());
    }
    // Accumulate the code point, failing once it exceeds 32 bits.
    let ghost digits = cs@.skip(2);
    let mut acc: u32 = 0;
    let mut i: usize = 2;
    while i < n
        invariant
            n == cs@.len(),
            cs@ == s@,
            is_unicode_escape(s@),
            digits == cs@.skip(2),
            2 <= i <= n,
            acc as nat == hex_digits_value(digits.take(i - 2)),
        decreases n - i,
    {
        let c = cs[i];
        assert(is_hex_digit(c));
        let d: u32 = if '0' <= c && c <= '9' {
            c as u32 - '0' as u32
        } else if 'a' <= c && c <= 'f' {
            c as u32 - 'a' as u32 + 10
        } else {
            c as u32 - 'A' as u32 + 10
        };
        proof {
            let t = digits.take(i - 1);
            assert(t.drop_last() =~= digits.take(i - 2));
            assert(t.last() == c);
            assert(d == hex_value(c));
        }
        if acc > (u32::MAX - d) / 16 {
            proof {
                assert(acc * 16 + d > u32::MAX) by (nonlinear_arith)
                    requires acc > (u32::MAX - d) / 16, d <= 15;
                lemma_hex_prefix(digits, i - 1);
            }
            return Err(ManifestError::InvalidUnicodeEscape(s.to_owned()));
        }
        proof {
            assert(acc * 16 + d <= u32::MAX) by (nonlinear_arith)
                requires acc <= (u32::MAX - d) / 16, d <= 15;
        }
        acc = acc * 16 + d;
        i = i + 1;
    }
    assert(digits.take(n - 2) =~= digits);
    match char_from_code_point(acc) {
        Some(ch) => {
            let mut out = String::new();
            out.push(ch);
            assert(out@ =~= seq![ch]);

            Ok(out)
        },
        None => Err(ManifestError::InvalidCodePoint(s.to_owned())),
    }
}

/// Whether every character of `cs[from..]` is a hexadecimal digit.
fn all_hex_from(cs: &[char], from: usize) -> (r: bool)
    requires
        from <= cs@.len(),
    ensures
        r == forall|i: int| from <= i < cs@.len() ==> is_hex_digit(#[trigger] cs@[i]),
{
    let mut i: usize = from;
    while i < cs.len()
        invariant
            from <= i <= cs@.len(),
            forall|j: int| from <= j < i ==> is_hex_digit(#[trigger] cs@[j]),
        decreases cs@.len() - i,
    {
        let c = cs[i];
        if !(('0' <= c && c <= '9') || ('a' <= c && c <= 'f') || ('A' <= c && c <= 'F')) {
            assert(!is_hex_digit(cs@[i as int]));
            return false;
        }
        i = i + 1;
    }
    true
}

proof fn lemma_hex_prefix(s: Seq<char>, k: int)
    requires
        0 <= k <= s.len(),
        forall|i: int| 0 <= i < s.len() ==> is_hex_digit(#[trigger] s[i]),
    ensures
        hex_digits_value(s.take(k)) <= hex_digits_value(s),
    decreases s.len() - k,
{
    if k < s.len() {
        lemma_hex_prefix(s, k + 1);
        let t = s.take(k + 1);
        assert(t.drop_last() =~= s.take(k));
        assert(is_hex_digit(s[k]));
        assert(t.last() == s[k]);
    } else {
        assert(s.take(k) =~= s);
    }
}

/// Whether `cp` is a Nerd Font glyph: in U+E000-U+F8FF or U+F0000-U+F1AF0.
pub open spec fn is_nerd_font_code_point(cp: nat) -> bool {
    (0xE000 <= cp && cp <= 0xF8FF) || (0xF0000 <= cp && cp <= 0xF1AF0)
}

/// What is wrong with a (resolved) icon, if anything.
pub open spec fn icon_problem(icon: Seq<char>) -> Option<ManifestErrorView> {
    if icon.len() == 0 {
        Some(ManifestErrorView::EmptyIcon)
    } else if icon.len() > 1 {
        Some(ManifestErrorView::IconNotSingleChar)
    } else if !is_nerd_font_code_point((icon[0] as u32) as nat) {
        Some(ManifestErrorView::IconNotNerdFont(icon[0] as u32))
    } else {
        None
    }
}

/// Checks that an icon is a single Nerd Font glyph.
pub fn validate_icon(icon: &str) -> (r: Result<(), ManifestError>)
    ensures
        check_agrees(r, icon_problem(icon@)),
{
    let cs = chars_of(icon);
    if cs.len() == 0 {
        return Err(ManifestError::EmptyIcon);
    }
    if cs.len() > 1 {
        return Err(ManifestError::IconNotSingleChar);
    }
    let cp = cs[0] as u32;
    if (0xE000 <= cp && cp <= 0xF8FF) || (0xF0000 <= cp && cp <= 0xF1AF0) {
        Ok(())
    } else {
        Err(ManifestError::IconNotNerdFont(cp))
    }
}

// ---------------------------------------------------------------------------
// Patterns
// ---------------------------------------------------------------------------

/// Whether `glob::Pattern::new` accepts `p`. What it accepts is the glob
/// crate's pattern grammar; this names its answer.
pub uninterp spec fn glob_accepts(p: Seq<char>) -> bool;

/// `glob::Pattern::new(p).is_ok()`: whether the glob crate accepts `p` as a
/// pattern. The contract only names the answer; nothing about the glob
/// grammar is claimed.
#[verifier::external_body]
fn glob_pattern_is_valid(p: &str) -> (r: bool)
    ensures
        r == glob_accepts(p@),
{
    glob::Pattern::new(p).is_ok()
}

/// What `validate_ignore_pattern` decides, given whether the glob crate
/// accepts the pattern.
pub open spec fn ignore_pattern_problem(p: Seq<char>, glob_ok: bool) -> Option<ManifestErrorView> {
    if p.len() == 0 {
        Some(ManifestErrorView::EmptyIgnorePattern)
    } else if p[0] == '/' {
        Some(ManifestErrorView::AbsoluteIgnorePattern(p))
    } else if seq_contains(p, seq!['.', '.']) {
        Some(ManifestErrorView::IgnoreTraversal(p))
    } else if !glob_ok {
        Some(ManifestErrorView::InvalidIgnoreGlob(p))
    } else {
        None
    }
}

/// The checks on an ignore pattern, given the glob crate's answer for it:
/// not empty, relative, no `..`, and a valid glob.
pub fn check_ignore_pattern(pattern: &str, glob_ok: bool) -> (r: Result<(), ManifestError>)
    ensures
        check_agrees(r, ignore_pattern_problem(pattern@, glob_ok)),
{
    let cs = chars_of(pattern);
    if cs.len() == 0 {
        return Err(ManifestError::EmptyIgnorePattern);
    }
    if cs[0] == '/' {
        return Err(ManifestError::AbsoluteIgnorePattern(pattern.to_owned()));
    }
    let dots = ['.', '.'];
    assert(dots@ =~= seq!['.', '.']);
    if contains_chars(cs.as_slice(), &dots) {
        return Err(ManifestError::IgnoreTraversal(pattern.to_owned()));
    }
    if !glob_ok {
        return Err(ManifestError::InvalidIgnoreGlob(pattern.to_owned()));
    }
    Ok(())
}

/// Checks that an ignore pattern is a relative glob (no `..` or absolute paths).
pub fn validate_ignore_pattern(pattern: &str) -> (r: Result<(), ManifestError>)
    ensures
        check_agrees(r, ignore_pattern_problem(pattern@, glob_accepts(pattern@))),
{
    let cs = chars_of(pattern);
    let dots = ['.', '.'];
    assert(dots@ =~= seq!['.', '.']);
    if cs.len() == 0 || cs[0] == '/' || contains_chars(cs.as_slice(), &dots) {
        return check_ignore_pattern(pattern, true);
    }
    let ok = glob_pattern_is_valid(pattern);
    check_ignore_pattern(pattern, ok)
}

// ---------------------------------------------------------------------------
// Modules
// ---------------------------------------------------------------------------

/// A target that a module scans. Each entry in `paths` is either a fixed path
/// (supports `~` and glob `*`) or `**/dirname` for recursive local search.
#[derive(Debug, Clone)]
pub struct Target {
    pub paths: Vec<String>,
    pub description: Option<String>,
    pub restore: RestoreKind,
    pub restore_steps: Option<String>,
    pub risk: RiskLevel,
    /// Glob patterns for files/directories to preserve when cleaning this target.
    pub ignore: Vec<String>,
}

/// A parsed and validated module manifest (module.toml).
#[derive(Debug, Clone)]
pub struct Module {
    pub id: String,
    pub name: String,
    pub version: String,
    pub description: String,
    pub author: String,
    pub platforms: Vec<String>,
    pub tags: Vec<String>,
    pub icon: Option<String>,
    pub icon_color: Option<String>,
    pub targets: Vec<Target>,
}

/// A target as decoded from TOML, before validation. `path` and `paths`
/// each accept a string or a list of strings; `restore` and `risk` hold the
/// names written in the manifest.
#[derive(Debug, Clone)]
pub struct RawTarget {
    pub path: Option<Vec<String>>,
    pub paths: Option<Vec<String>>,
    pub description: Option<String>,
    pub restore: Option<String>,
    pub restore_steps: Option<String>,
    pub risk: Option<String>,
    pub ignore: Vec<String>,
}

/// A module manifest as decoded from TOML, before validation.
#[derive(Debug, Clone)]
pub struct RawModule {
    pub id: String,
    pub name: String,
    pub version: String,
    pub description: String,
    pub author: String,
    pub platforms: Vec<String>,
    pub tags: Vec<String>,
    pub icon: Option<String>,
    pub icon_color: Option<String>,
    pub targets: Vec<RawTarget>,
}

pub open spec fn strs(v: Seq<String>) -> Seq<Seq<char>> {
    v.map_values(|s: String| s@)
}

pub open spec fn ostr(o: Option<String>) -> Option<Seq<char>> {
    match o {
        Some(s) => Some(s@),
        None => None,
    }
}

pub open spec fn ostrs(o: Option<Vec<String>>) -> Option<Seq<Seq<char>>> {
    match o {
        Some(v) => Some(strs(v@)),
        None => None,
    }
}

/// A target as plain values.
pub struct TargetView {
    pub paths: Seq<Seq<char>>,
    pub description: Option<Seq<char>>,
    pub restore: RestoreKind,
    pub restore_steps: Option<Seq<char>>,
    pub risk: RiskLevel,
    pub ignore: Seq<Seq<char>>,
}

impl View for Target {
    type V = TargetView;

    open spec fn view(&self) -> TargetView {
        TargetView {
            paths: strs(self.paths@),
            description: ostr(self.description),
            restore: self.restore,
            restore_steps: ostr(self.restore_steps),
            risk: self.risk,
            ignore: strs(self.ignore@),
        }
    }
}

/// A module as plain values.
pub struct ModuleView {
    pub id: Seq<char>,
    pub name: Seq<char>,
    pub version: Seq<char>,
    pub description: Seq<char>,
    pub author: Seq<char>,
    pub platforms: Seq<Seq<char>>,
    pub tags: Seq<Seq<char>>,
    pub icon: Option<Seq<char>>,
    pub icon_color: Option<Seq<char>>,
    pub targets: Seq<TargetView>,
}

impl View for Module {
    type V = ModuleView;

    open spec fn view(&self) -> ModuleView {
        ModuleView {
            id: self.id@,
            name: self.name@,
            version: self.version@,
            description: self.description@,
            author: self.author@,
            platforms: strs(self.platforms@),
            tags: strs(self.tags@),
            icon: ostr(self.icon),
            icon_color: ostr(self.icon_color),
            targets: self.targets@.map_values(|t: Target| t@),
        }
    }
}

/// A raw target as plain values.
pub struct RawTargetView {
    pub path: Option<Seq<Seq<char>>>,
    pub paths: Option<Seq<Seq<char>>>,
    pub description: Option<Seq<char>>,
    pub restore: Option<Seq<char>>,
    pub restore_steps: Option<Seq<char>>,
    pub risk: Option<Seq<char>>,
    pub ignore: Seq<Seq<char>>,
}

impl View for RawTarget {
    type V = RawTargetView;

    open spec fn view(&self) -> RawTargetView {
        RawTargetView {
            path: ostrs(self.path),
            paths: ostrs(self.paths),
            description: ostr(self.description),
            restore: ostr(self.restore),
            restore_steps: ostr(self.restore_steps),
            risk: ostr(self.risk),
            ignore: strs(self.ignore@),
        }
    }
}

/// A raw module as plain values.
pub struct RawModuleView {
    pub id: Seq<char>,
    pub name: Seq<char>,
    pub version: Seq<char>,
    pub description: Seq<char>,
    pub author: Seq<char>,
    pub platforms: Seq<Seq<char>>,
    pub tags: Seq<Seq<char>>,
    pub icon: Option<Seq<char>>,
    pub icon_color: Option<Seq<char>>,
    pub targets: Seq<RawTargetView>,
}

impl View for RawModule {
    type V = RawModuleView;

    open spec fn view(&self) -> RawModuleView {
        RawModuleView {
            id: self.id@,
            name: self.name@,
            version: self.version@,
            description: self.description@,
            author: self.author@,
            platforms: strs(self.platforms@),
            tags: strs(self.tags@),
            icon: ostr(self.icon),
            icon_color: ostr(self.icon_color),
            targets: self.targets@.map_values(|t: RawTarget| t@),
        }
    }
}

/// The restore kind of a raw target (`auto` when unset).
pub open spec fn raw_restore(t: RawTargetView) -> Option<RestoreKind> {
    match t.restore {
        Some(r) => spec_restore_kind(r),
        None => Some(RestoreKind::Auto),
    }
}

/// The risk level of a raw target (`safe` when unset).
pub open spec fn raw_risk(t: RawTargetView) -> Option<RiskLevel> {
    match t.risk {
        Some(r) => spec_risk_level(r),
        None => Some(RiskLevel::Safe),
    }
}

/// The first unknown restore kind or risk level, target by target.
pub open spec fn names_problem(ts: Seq<RawTargetView>) -> Option<ManifestErrorView>
    decreases ts.len(),
{
    if ts.len() == 0 {
        None
    } else if raw_restore(ts[0]) is None {
        Some(ManifestErrorView::UnknownRestoreKind(ts[0].restore->0))
    } else if raw_risk(ts[0]) is None {
        Some(ManifestErrorView::UnknownRiskLevel(ts[0].risk->0))
    } else {
        names_problem(ts.drop_first())
    }
}

/// The paths of a raw target: exactly one of `path` and `paths`.
pub open spec fn raw_paths(t: RawTargetView) -> Result<Seq<Seq<char>>, ManifestErrorView> {
    match (t.path, t.paths) {
        (Some(p), None) => Ok(p),
        (None, Some(ps)) => Ok(ps),
        (Some(_), Some(_)) => Err(ManifestErrorView::BothPathAndPaths),
        (None, None) => Err(ManifestErrorView::NoPath),
    }
}

/// The first path with a `..` component.
pub open spec fn first_traversal(ps: Seq<Seq<char>>) -> Option<Seq<char>>
    decreases ps.len(),
{
    if ps.len() == 0 {
        None
    } else if crate::safety::has_parent_component(ps[0]) {
        Some(ps[0])
    } else {
        first_traversal(ps.drop_first())
    }
}

/// The problem with the first bad ignore pattern.
pub open spec fn first_ignore_problem(ps: Seq<Seq<char>>) -> Option<ManifestErrorView>
    decreases ps.len(),
{
    if ps.len() == 0 {
        None
    } else if ignore_pattern_problem(ps[0], glob_accepts(ps[0])) is Some {
        ignore_pattern_problem(ps[0], glob_accepts(ps[0]))
    } else {
        first_ignore_problem(ps.drop_first())
    }
}

/// What is wrong with a raw target's paths and ignore patterns, if anything.
pub open spec fn target_problem(t: RawTargetView) -> Option<ManifestErrorView> {
    match raw_paths(t) {
        Err(e) => Some(e),
        Ok(ps) => if ps.len() == 0 {
            Some(ManifestErrorView::EmptyPaths)
        } else {
            match first_traversal(ps) {
                Some(p) => Some(ManifestErrorView::TargetTraversal(p)),
                None => first_ignore_problem(t.ignore),
            }
        },
    }
}

/// The problem with the first bad target.
pub open spec fn targets_problem(ts: Seq<RawTargetView>) -> Option<ManifestErrorView>
    decreases ts.len(),
{
    if ts.len() == 0 {
        None
    } else if target_problem(ts[0]) is Some {
        target_problem(ts[0])
    } else {
        targets_problem(ts.drop_first())
    }
}

/// What is wrong with a raw icon, if anything: a bad escape, or a resolved
/// icon that is not a single Nerd Font glyph.
pub open spec fn raw_icon_problem(icon: Option<Seq<char>>) -> Option<ManifestErrorView> {
    match icon {
        None => None,
        Some(i) => match spec_resolve_icon(i) {
            Err(e) => Some(e),
            Ok(r) => icon_problem(r),
        },
    }
}

/// What is wrong with a raw module, checked in this order: unknown restore
/// kinds and risk levels, the id, the icon, then each target.
pub open spec fn module_problem(m: RawModuleView) -> Option<ManifestErrorView> {
    if names_problem(m.targets) is Some {
        names_problem(m.targets)
    } else if id_problem(m.id) is Some {
        id_problem(m.id)
    } else if raw_icon_problem(m.icon) is Some {
        raw_icon_problem(m.icon)
    } else {
        targets_problem(m.targets)
    }
}

/// The validated form of a raw target with no problem.
pub open spec fn built_target(t: RawTargetView) -> TargetView {
    TargetView {
        paths: match raw_paths(t) {
            Ok(ps) => ps,
            Err(_) => Seq::empty(),
        },
        description: t.description,
        restore: raw_restore(t)->0,
        restore_steps: t.restore_steps,
        risk: raw_risk(t)->0,
        ignore: t.ignore,
    }
}

/// The validated form of a raw module with no problem: its fields as they
/// are, the icon resolved, each target built.
pub open spec fn built_module(m: RawModuleView) -> ModuleView {
    ModuleView {
        id: m.id,
        name: m.name,
        version: m.version,
        description: m.description,
        author: m.author,
        platforms: m.platforms,
        tags: m.tags,
        icon: match m.icon {
            Some(i) => Some(spec_resolve_icon(i)->Ok_0),
            None => None,
        },
        icon_color: m.icon_color,
        targets: m.targets.map_values(|t: RawTargetView| built_target(t)),
    }
}

fn check_names(ts: &Vec<RawTarget>) -> (r: Result<(), ManifestError>)
    ensures
        check_agrees(r, names_problem(ts@.map_values(|t: RawTarget| t@))),
{
    let ghost tv = ts@.map_values(|t: RawTarget| t@);
    let mut i: usize = 0;
    assert(tv.skip(0) =~= tv);
    while i < ts.len()
        invariant
            tv == ts@.map_values(|t: RawTarget| t@),
            i <= ts@.len(),
            names_problem(tv.skip(i as int)) == names_problem(tv),
        decreases ts@.len() - i,
    {
        let t = &ts[i];
        assert(tv.skip(i as int)[0] == t@);
        assert(tv.skip(i as int).drop_first() =~= tv.skip(i + 1));
        match &t.restore {
            Some(r) => {
                parse_restore_kind(r.as_str())?;
            },
            None => {},
        }
        match &t.risk {
            Some(r) => {
                parse_risk_level(r.as_str())?;
            },
            None => {},
        }
        i = i + 1;
    }
    Ok(())
}

fn check_traversal(ps: &Vec<String>) -> (r: Result<(), ManifestError>)
    ensures
        check_agrees(r, match first_traversal(strs(ps@)) {
            Some(p) => Some(ManifestErrorView::TargetTraversal(p)),
            None => None,
        }),
{
    let ghost pv = strs(ps@);
    let mut i: usize = 0;
    assert(pv.skip(0) =~= pv);
    while i < ps.len()
        invariant
            pv == strs(ps@),
            i <= ps@.len(),
            first_traversal(pv.skip(i as int)) == first_traversal(pv),
        decreases ps@.len() - i,
    {
        assert(pv.skip(i as int)[0] == ps@[i as int]@);
        assert(pv.skip(i as int).drop_first() =~= pv.skip(i + 1));
        if crate::safety::validate_target_pattern(ps[i].as_str()).is_err() {
            return Err(ManifestError::TargetTraversal(ps[i].clone()));
        }
        i = i + 1;
    }
    Ok(())
}

fn check_ignores(ps: &Vec<String>) -> (r: Result<(), ManifestError>)
    ensures
        check_agrees(r, first_ignore_problem(strs(ps@))),
{
    let ghost pv = strs(ps@);
    let mut i: usize = 0;
    assert(pv.skip(0) =~= pv);
    while i < ps.len()
        invariant
            pv == strs(ps@),
            i <= ps@.len(),
            first_ignore_problem(pv.skip(i as int)) == first_ignore_problem(pv),
        decreases ps@.len() - i,
    {
        assert(pv.skip(i as int)[0] == ps@[i as int]@);
        assert(pv.skip(i as int).drop_first() =~= pv.skip(i + 1));
        validate_ignore_pattern(ps[i].as_str())?;
        i = i + 1;
    }
    Ok(())
}

fn build_target(t: &RawTarget) -> (r: Result<Target, ManifestError>)
    requires
        raw_restore(t@) is Some,
        raw_risk(t@) is Some,
    ensures
        match (target_problem(t@), r) {
            (None, Ok(x)) => x@ == built_target(t@),
            (Some(e), Err(x)) => x@ == e,
            _ => false,
        },
{
    let paths = match (&t.path, &t.paths) {
        (Some(p), None) => clone_strings(p),
        (None, Some(ps)) => clone_strings(ps),
        (Some(_), Some(_)) => return Err(ManifestError::BothPathAndPaths),
        (None, None) => return Err(ManifestError::NoPath),
    };
    if paths.len() == 0 {
        return Err(ManifestError::EmptyPaths);
    }
    check_traversal(&paths)?;
    check_ignores(&t.ignore)?;
    let restore = match &t.restore {
        Some(r) => match parse_restore_kind(r.as_str()) {
            Ok(k) => k,
            Err(e) => return Err(e),
        },
        None => RestoreKind::Auto,
    };
    let risk = match &t.risk {
        Some(r) => match parse_risk_level(r.as_str()) {
            Ok(k) => k,
            Err(e) => return Err(e),
        },
        None => RiskLevel::Safe,
    };
    Ok(Target {
        paths,
        description: clone_opt_string(&t.description),
        restore,
        restore_steps: clone_opt_string(&t.restore_steps),
        risk,
        ignore: clone_strings(&t.ignore),
    })
}

proof fn lemma_names_ok(ts: Seq<RawTargetView>)
    requires
        names_problem(ts) is None,
    ensures
        forall|i: int| 0 <= i < ts.len() ==> raw_restore(#[trigger] ts[i]) is Some && raw_risk(ts[i]) is Some,
    decreases ts.len(),
{
    if ts.len() > 0 {
        lemma_names_ok(ts.drop_first());
        assert forall|i: int| 0 <= i < ts.len() implies raw_restore(#[trigger] ts[i]) is Some && raw_risk(ts[i]) is Some by {
            if i > 0 {
                assert(ts[i] == ts.drop_first()[i - 1]);
            }
        }
    }
}

impl Module {
    /// Validates a decoded manifest and builds the module: restore kinds and
    /// risk levels must be known names, the id kebab-case, the icon (after
    /// resolving a `U+XXXX` escape) a single Nerd Font glyph, and every
    /// target must name its paths through exactly one of `path` and `paths`,
    /// with no `..` in a path and only relative, `..`-free, valid globs to
    /// ignore.
    pub fn from_raw(raw: RawModule) -> (r: Result<Module, ManifestError>)
        ensures
            match (module_problem(raw@), r) {
                (Some(e), Err(x)) => x@ == e,
                (None, Ok(m)) => m@ == built_module(raw@),
                _ => false,
            },
    {
        let ghost rv = raw@;
        check_names(&raw.targets)?;
        validate_id(raw.id.as_str())?;
        let icon = match &raw.icon {
            Some(s) => {
                let resolved = resolve_icon_str(s.as_str())?;
                validate_icon(resolved.as_str())?;
                Some(resolved)
            },
            None => None,
        };
        proof {
            lemma_names_ok(rv.targets);
        }
        let ghost tv = rv.targets;
        let mut targets: Vec<Target> = Vec::new();
        let mut i: usize = 0;
        assert(tv.skip(0) =~= tv);
        while i < raw.targets.len()
            invariant
                tv == raw.targets@.map_values(|t: RawTarget| t@),
                forall|k: int| 0 <= k < tv.len() ==> raw_restore(#[trigger] tv[k]) is Some && raw_risk(tv[k]) is Some,
                i <= tv.len(),
                targets_problem(tv.skip(i as int)) == targets_problem(tv),
                module_problem(raw@) == targets_problem(tv),
                targets@.map_values(|t: Target| t@) == tv.take(i as int).map_values(|t: RawTargetView| built_target(t)),
            decreases tv.len() - i,
        {
            assert(tv[i as int] == raw.targets@[i as int]@);
            assert(tv.skip(i as int)[0] == tv[i as int]);
            assert(tv.skip(i as int).drop_first() =~= tv.skip(i + 1));
            let t = match build_target(&raw.targets[i]) {
                Ok(t) => t,
                Err(e) => {
                    assert(target_problem(tv[i as int]) is Some);
                    return Err(e);
                },
            };
            let ghost prev = targets@.map_values(|t: Target| t@);
            targets.push(t);
            assert(targets@.map_values(|t: Target| t@) =~= prev.push(t@));
            assert(tv.take(i + 1).map_values(|t: RawTargetView| built_target(t)) =~= tv.take(i as int).map_values(|t: RawTargetView| built_target(t)).push(built_target(tv[i as int])));
            i = i + 1;
        }
        assert(tv.take(tv.len() as int) =~= tv);
        assert(tv.skip(tv.len() as int) =~= Seq::<RawTargetView>::empty());
        let m = Module {
            id: raw.id,
            name: raw.name,
            version: raw.version,
            description: raw.description,
            author: raw.author,
            platforms: raw.platforms,
            tags: raw.tags,
            icon,
            icon_color: raw.icon_color,
            targets,
        };
        assert(m@.targets =~= built_module(rv).targets);
        assert(m@ == built_module(rv));
        Ok(m)
    }
}

/// The rules every accepted manifest meets: a kebab-case id; an icon, when
/// there is one, that is a single Nerd Font glyph; and in every target at
/// least one path, no path with a `..` component, and ignore patterns that
/// are non-empty, relative, free of `..` and valid globs.
pub open spec fn meets_manifest_rules(m: ModuleView) -> bool {
    &&& is_kebab_case(m.id)
    &&& match m.icon {
        Some(i) => i.len() == 1 && is_nerd_font_code_point((i[0] as u32) as nat),
        None => true,
    }
    &&& forall|k: int| 0 <= k < m.targets.len() ==> target_meets_rules(#[trigger] m.targets[k])
}

/// The rules on one target of an accepted manifest.
pub open spec fn target_meets_rules(t: TargetView) -> bool {
    &&& t.paths.len() >= 1
    &&& forall|j: int| 0 <= j < t.paths.len() ==> !crate::safety::has_parent_component(#[trigger] t.paths[j])
    &&& forall|j: int| 0 <= j < t.ignore.len() ==> ignore_pattern_problem(#[trigger] t.ignore[j], glob_accepts(t.ignore[j])) is None
}

proof fn lemma_no_traversal(ps: Seq<Seq<char>>)
    requires
        first_traversal(ps) is None,
    ensures
        forall|j: int| 0 <= j < ps.len() ==> !crate::safety::has_parent_component(#[trigger] ps[j]),
    decreases ps.len(),
{
    if ps.len() > 0 {
        lemma_no_traversal(ps.drop_first());
        assert forall|j: int| 0 <= j < ps.len() implies !crate::safety::has_parent_component(#[trigger] ps[j]) by {
            if j > 0 {
                assert(ps[j] == ps.drop_first()[j - 1]);
            }
        }
    }
}

proof fn lemma_no_ignore_problem(ps: Seq<Seq<char>>)
    requires
        first_ignore_problem(ps) is None,
    ensures
        forall|j: int| 0 <= j < ps.len() ==> ignore_pattern_problem(#[trigger] ps[j], glob_accepts(ps[j])) is None,
    decreases ps.len(),
{
    if ps.len() > 0 {
        lemma_no_ignore_problem(ps.drop_first());
        assert forall|j: int| 0 <= j < ps.len() implies ignore_pattern_problem(#[trigger] ps[j], glob_accepts(ps[j])) is None by {
            if j > 0 {
                assert(ps[j] == ps.drop_first()[j - 1]);
            }
        }
    }
}

proof fn lemma_no_target_problem(ts: Seq<RawTargetView>)
    requires
        targets_problem(ts) is None,
    ensures
        forall|j: int| 0 <= j < ts.len() ==> target_problem(#[trigger] ts[j]) is None,
    decreases ts.len(),
{
    if ts.len() > 0 {
        lemma_no_target_problem(ts.drop_first());
        assert forall|j: int| 0 <= j < ts.len() implies target_problem(#[trigger] ts[j]) is None by {
            if j > 0 {
                assert(ts[j] == ts.drop_first()[j - 1]);
            }
        }
    }
}

/// Every manifest that `Module::from_raw` accepts meets the manifest rules,
/// and each of its targets gave exactly one of `path` and `paths`.
pub proof fn lemma_accepted_manifest_meets_rules(raw: RawModuleView)
    requires
        module_problem(raw) is None,
    ensures
        meets_manifest_rules(built_module(raw)),
        forall|k: int| 0 <= k < raw.targets.len() ==> #[trigger] raw_paths(raw.targets[k]) is Ok,
{
    let m = built_module(raw);
    lemma_no_target_problem(raw.targets);
    assert forall|k: int| 0 <= k < m.targets.len() implies target_meets_rules(#[trigger] m.targets[k]) by {
        let t = raw.targets[k];
        assert(target_problem(t) is None);
        assert(m.targets[k] == built_target(t));
        let ps = raw_paths(t)->Ok_0;
        lemma_no_traversal(ps);
        lemma_no_ignore_problem(t.ignore);
    }
    assert forall|k: int| 0 <= k < raw.targets.len() implies #[trigger] raw_paths(raw.targets[k]) is Ok by {
        assert(target_problem(raw.targets[k]) is None);
    }
}

} // verus!
