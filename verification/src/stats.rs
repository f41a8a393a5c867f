//! All-time cleanup statistics: freed bytes in total and per module, kept in
//! a small hand-written JSON document.

use vstd::prelude::*;
use crate::text::{
    all_digits, chars_of, occurs_at, decimal, first_match, first_occurrence, in_class, is_digit,
    lemma_first_match, lemma_first_occurrence, lemma_first_match_is,
    lemma_first_match_none, lemma_first_occurrence_is, lemma_decimal, parse_digit_run, parse_digits, push_chars,
    push_decimal, push_str, str_eq, string_of, string_of_range, CharClass, find_char_from,
    find_chars, find_digit_from, find_non_digit_from,
};

verus! {

/// In-memory cleanup statistics.
pub struct Stats {
    pub total_freed: u64,
    /// Per-module freed bytes: (module_id, bytes).
    modules: Vec<(String, u64)>,
}

/// The per-module entries as plain values.
pub open spec fn entries_view(v: Seq<(String, u64)>) -> Seq<(Seq<char>, u64)> {
    v.map_values(|e: (String, u64)| (e.0@, e.1))
}

/// The index of the first entry recorded for `id`.
pub open spec fn first_entry(ms: Seq<(Seq<char>, u64)>, id: Seq<char>) -> Option<int>
    decreases ms.len(),
{
    if ms.len() == 0 {
        None
    } else if ms[0].0 == id {
        Some(0)
    } else {
        match first_entry(ms.drop_first(), id) {
            Some(i) => Some(i + 1),
            None => None,
        }
    }
}

pub proof fn lemma_first_entry(ms: Seq<(Seq<char>, u64)>, id: Seq<char>)
    ensures
        match first_entry(ms, id) {
            Some(i) => 0 <= i < ms.len() && ms[i].0 == id && forall|j: int| 0 <= j < i ==> #[trigger] ms[j].0 != id,
            None => forall|j: int| 0 <= j < ms.len() ==> #[trigger] ms[j].0 != id,
        },
    decreases ms.len(),
{
    if ms.len() > 0 && ms[0].0 != id {
        let t = ms.drop_first();
        lemma_first_entry(t, id);
        match first_entry(t, id) {
            Some(i) => {
                assert forall|j: int| 0 <= j < i + 1 implies #[trigger] ms[j].0 != id by {
                    if j > 0 {
                        assert(ms[j] == t[j - 1]);
                    }
                }
            },
            None => {
                assert forall|j: int| 0 <= j < ms.len() implies #[trigger] ms[j].0 != id by {
                    if j > 0 {
                        assert(ms[j] == t[j - 1]);
                    }
                }
            },
        }
    }
}

/// The bytes recorded for `id` (zero when it has no entry).
pub open spec fn total_for(ms: Seq<(Seq<char>, u64)>, id: Seq<char>) -> u64 {
    match first_entry(ms, id) {
        Some(i) => ms[i].1,
        None => 0,
    }
}

/// The entries after recording `bytes` more for `id` (`bytes > 0`).
pub open spec fn recorded(ms: Seq<(Seq<char>, u64)>, id: Seq<char>, bytes: u64) -> Seq<(Seq<char>, u64)> {
    match first_entry(ms, id) {
        Some(i) => ms.update(i, (id, (ms[i].1 + bytes) as u64)),
        None => ms.push((id, bytes)),
    }
}

/// Whether recording `bytes` more for `id` fits in 64-bit counters.
pub open spec fn record_fits(total: u64, ms: Seq<(Seq<char>, u64)>, id: Seq<char>, bytes: u64) -> bool {
    bytes == 0 || (total + bytes <= u64::MAX && total_for(ms, id) + bytes <= u64::MAX)
}

impl Stats {
    /// The per-module entries, in the order they were first recorded.
    pub closed spec fn modules_view(&self) -> Seq<(Seq<char>, u64)> {
        entries_view(self.modules@)
    }

    /// The total freed bytes.
    pub closed spec fn freed(&self) -> u64 {
        self.total_freed
    }

    /// Statistics with the given total and per-module entries.
    pub fn from_parts(total_freed: u64, modules: Vec<(String, u64)>) -> (s: Stats)
        ensures
            s.freed() == total_freed,
            s.modules_view() == entries_view(modules@),
    {
        Stats { total_freed, modules }
    }

    /// The per-module entries, in order.
    pub fn modules(&self) -> (r: &Vec<(String, u64)>)
        ensures
            entries_view(r@) == self.modules_view(),
    {
        &self.modules
    }

    /// Statistics with nothing recorded.
    pub fn empty() -> (s: Stats)
        ensures
            s.freed() == 0,
            s.modules_view() == Seq::<(Seq<char>, u64)>::empty(),
    {
        let s = Stats { total_freed: 0, modules: Vec::new() };
        assert(s.modules_view() =~= Seq::<(Seq<char>, u64)>::empty());
        s
    }

    /// The statistics held by a stats file's content: what it parses to, or
    /// empty statistics when there is no file or it does not parse.
    pub fn load(content: Option<String>) -> (s: Stats)
        ensures
            match content {
                Some(c) => match spec_parse_stats(c@) {
                    Some(p) => s.freed() == p.0 && s.modules_view() == p.1,
                    None => s.freed() == 0 && s.modules_view().len() == 0,
                },
                None => s.freed() == 0 && s.modules_view().len() == 0,
            },
    {
        match content {
            Some(c) => match parse_stats(c.as_str()) {
                Some(s) => s,
                None => Stats::empty(),
            },
            None => Stats::empty(),
        }
    }

    /// Adds `bytes` freed for `module_id` to both the module's entry and the
    /// global total. Recording zero bytes changes nothing; persisting the
    /// result is the caller's job.
    pub fn record(&mut self, module_id: &str, bytes: u64)
        requires
            record_fits(old(self).freed(), old(self).modules_view(), module_id@, bytes),
        ensures
            bytes == 0 ==> final(self).freed() == old(self).freed()
                && final(self).modules_view() == old(self).modules_view(),
            bytes > 0 ==> final(self).freed() == old(self).freed() + bytes
                && final(self).modules_view() == recorded(old(self).modules_view(), module_id@, bytes),
    {
        if bytes == 0 {
            return;
        }
        let ghost ms = self.modules_view();
        proof {
            lemma_first_entry(ms, module_id@);
        }
        self.total_freed = self.total_freed + bytes;
        let mut i: usize = 0;
        while i < self.modules.len()
            invariant
                bytes > 0,
                self.total_freed == old(self).total_freed + bytes,
                ms == old(self).modules_view(),
                total_for(ms, module_id@) + bytes <= u64::MAX,
                i <= self.modules@.len(),
                entries_view(self.modules@) == ms,
                forall|j: int| 0 <= j < i ==> #[trigger] ms[j].0 != module_id@,
            decreases self.modules@.len() - i,
        {
            if str_eq(self.modules[i].0.as_str(), module_id) {
                proof {
                    lemma_first_entry(ms, module_id@);
                    assert(ms[i as int].0 == module_id@);
                    match first_entry(ms, module_id@) {
                        Some(k) => {
                            if k < i {
                                assert(ms[k].0 != module_id@);
                            } else if k > i {
                                assert(ms[i as int].0 != module_id@);
                            }
                        },
                        None => {
                            assert(ms[i as int].0 != module_id@);
                        },
                    }
                }
                let id = self.modules[i].0.clone();
                let v = self.modules[i].1;
                self.modules.set(i, (id, v + bytes));
                proof {
                    assert(entries_view(self.modules@) =~= recorded(ms, module_id@, bytes));
                }
                return;
            }
            i = i + 1;
        }
        proof {
            lemma_first_entry(ms, module_id@);
            match first_entry(ms, module_id@) {
                Some(k) => {
                    assert(ms[k].0 != module_id@);
                },
                None => {},
            }
        }
        self.modules.push((module_id.to_owned(), bytes));
        assert(entries_view(self.modules@) =~= recorded(ms, module_id@, bytes));
    }

    /// The all-time freed bytes recorded for `module_id` (zero if none).
    pub fn module_total(&self, module_id: &str) -> (r: u64)
        ensures
            r == total_for(self.modules_view(), module_id@),
    {
        let ghost ms = self.modules_view();
        proof {
            lemma_first_entry(ms, module_id@);
        }
        let mut i: usize = 0;
        while i < self.modules.len()
            invariant
                i <= self.modules@.len(),
                entries_view(self.modules@) == ms,
                forall|j: int| 0 <= j < i ==> #[trigger] ms[j].0 != module_id@,
            decreases self.modules@.len() - i,
        {
            if str_eq(self.modules[i].0.as_str(), module_id) {
                proof {
                    lemma_first_entry(ms, module_id@);
                    assert(ms[i as int].0 == module_id@);
                    match first_entry(ms, module_id@) {
                        Some(k) => {
                            if k < i {
                                assert(ms[k].0 != module_id@);
                            } else if k > i {
                                assert(ms[i as int].0 != module_id@);
                            }
                        },
                        None => {
                            assert(ms[i as int].0 != module_id@);
                        },
                    }
                }
                return self.modules[i].1;
            }
            i = i + 1;
        }
        proof {
            lemma_first_entry(ms, module_id@);
            match first_entry(ms, module_id@) {
                Some(k) => {
                    assert(ms[k].0 != module_id@);
                },
                None => {},
            }
        }
        0
    }
}

/// Recording adds to the module's own total and leaves every other module's
/// total as it was.
pub proof fn lemma_record_accumulates(ms: Seq<(Seq<char>, u64)>, id: Seq<char>, bytes: u64, other: Seq<char>)
    requires
        bytes > 0,
        total_for(ms, id) + bytes <= u64::MAX,
    ensures
        total_for(recorded(ms, id, bytes), id) == total_for(ms, id) + bytes,
        other != id ==> total_for(recorded(ms, id, bytes), other) == total_for(ms, other),
{
    let r = recorded(ms, id, bytes);
    lemma_first_entry(ms, id);
    lemma_first_entry(ms, other);
    lemma_first_entry(r, id);
    lemma_first_entry(r, other);
    match first_entry(ms, id) {
        Some(k) => {
            assert(r[k].0 == id);
            match first_entry(r, id) {
                Some(k2) => {
                    if k2 < k {
                        assert(r[k2] == ms[k2]);
                    } else if k2 > k {
                        assert(r[k].0 == id);
                    }
                },
                None => {
                    assert(r[k].0 == id);
                },
            }
            if other != id {
                match first_entry(ms, other) {
                    Some(m) => {
                        assert(r[m] == ms[m]);
                        match first_entry(r, other) {
                            Some(m2) => {
                                if m2 < m {
                                    if m2 != k {
                                        assert(r[m2] == ms[m2]);
                                    }
                                } else if m2 > m {
                                    assert(r[m].0 == other);
                                }
                            },
                            None => {
                                assert(r[m].0 == other);
                            },
                        }
                    },
                    None => {
                        match first_entry(r, other) {
                            Some(m2) => {
                                if m2 != k {
                                    assert(r[m2] == ms[m2]);
                                }
                            },
                            None => {},
                        }
                    },
                }
            }
        },
        None => {
            assert(r[ms.len() as int].0 == id);
            match first_entry(r, id) {
                Some(k2) => {
                    if k2 < ms.len() {
                        assert(r[k2] == ms[k2]);
                    }
                },
                None => {},
            }
            if other != id {
                match first_entry(ms, other) {
                    Some(m) => {
                        assert(r[m] == ms[m]);
                        match first_entry(r, other) {
                            Some(m2) => {
                                if m2 < m {
                                    assert(r[m2] == ms[m2]);
                                } else if m2 > m {
                                    assert(r[m].0 == other);
                                }
                            },
                            None => {
                                assert(r[m].0 == other);
                            },
                        }
                    },
                    None => {
                        match first_entry(r, other) {
                            Some(m2) => {
                                if m2 < ms.len() {
                                    assert(r[m2] == ms[m2]);
                                }
                            },
                            None => {},
                        }
                    },
                }
            }
        },
    }
}

// ---------------------------------------------------------------------------
// The stats file
// ---------------------------------------------------------------------------

/// A JSON string body for `s`: `"` and `\` are escaped with a backslash,
/// everything else is kept.
pub open spec fn escape_json_spec(s: Seq<char>) -> Seq<char>
    decreases s.len(),
{
    if s.len() == 0 {
        Seq::empty()
    } else {
        let pre = escape_json_spec(s.drop_last());
        let c = s.last();
        if c == '"' {
            pre + seq!['\\', '"']
        } else if c == '\\' {
            pre + seq!['\\', '\\']
        } else {
            pre.push(c)
        }
    }
}

/// Whether a module id is written to the stats file unchanged.
pub open spec fn plain_id(id: Seq<char>) -> bool {
    forall|i: int| 0 <= i < id.len() ==> #[trigger] id[i] != '"' && id[i] != '\\'
}

/// `"id":bytes`.
pub open spec fn entry_text(id: Seq<char>, n: u64) -> Seq<char> {
    seq!['"'] + escape_json_spec(id) + seq!['"', ':'] + decimal(n as nat)
}

/// The entries, separated by commas.
pub open spec fn entries_text(ms: Seq<(Seq<char>, u64)>) -> Seq<char>
    decreases ms.len(),
{
    if ms.len() == 0 {
        Seq::empty()
    } else if ms.len() == 1 {
        entry_text(ms[0].0, ms[0].1)
    } else {
        entries_text(ms.drop_last()) + seq![','] + entry_text(ms.last().0, ms.last().1)
    }
}

pub open spec fn total_key_text() -> Seq<char> {
    seq!['{', '"', 't', 'o', 't', 'a', 'l', '_', 'f', 'r', 'e', 'e', 'd', '"', ':']
}

pub open spec fn modules_key_text() -> Seq<char> {
    seq![',', '"', 'm', 'o', 'd', 'u', 'l', 'e', 's', '"', ':', '{']
}

pub open spec fn closing_text() -> Seq<char> {
    seq!['}', '}', '\n']
}

/// The stats file for `total` and the entries `ms`:
/// `{"total_freed":N,"modules":{"id":n,...}}` and a newline.
pub open spec fn stats_json(total: u64, ms: Seq<(Seq<char>, u64)>) -> Seq<char> {
    total_key_text() + decimal(total as nat) + modules_key_text() + entries_text(ms) + closing_text()
}

/// Escapes `"` and `\` for use inside a JSON string.
pub fn escape_json(s: &str) -> (r: String)
    ensures
        r@ == escape_json_spec(s@),
{
    let cs = chars_of(s);
    let mut out = String::new();
    let mut i: usize = 0;
    while i < cs.len()
        invariant
            cs@ == s@,
            i <= cs@.len(),
            out@ == escape_json_spec(cs@.subrange(0, i as int)),
        decreases cs@.len() - i,
    {
        let c = cs[i];
        proof {
            let t = cs@.subrange(0, i + 1);
            assert(t.drop_last() =~= cs@.subrange(0, i as int));
            assert(t.last() == c);
        }
        if c == '"' {
            out.push('\\');
            out.push('"');
        } else if c == '\\' {
            out.push('\\');
            out.push('\\');
        } else {
            out.push(c);
        }
        i = i + 1;
    }
    assert(cs@.subrange(0, cs@.len() as int) =~= cs@);
    out
}

fn push_entry(out: &mut String, id: &str, n: u64)
    ensures
        final(out)@ == old(out)@ + entry_text(id@, n),
{
    out.push('"');
    let e = escape_json(id);
    push_str(out, e.as_str());
    out.push('"');
    out.push(':');
    push_decimal(out, n);
    assert(final(out)@ =~= old(out)@ + entry_text(id@, n));
}

/// The stats file's content for `stats`.
pub fn format_stats(stats: &Stats) -> (r: String)
    ensures
        r@ == stats_json(stats.freed(), stats.modules_view()),
{
    let ghost ms = stats.modules_view();
    let mut out = String::new();
    let key = ['{', '"', 't', 'o', 't', 'a', 'l', '_', 'f', 'r', 'e', 'e', 'd', '"', ':'];
    push_chars(&mut out, &key);
    assert(key@ =~= total_key_text());
    push_decimal(&mut out, stats.total_freed);
    let mkey = [',', '"', 'm', 'o', 'd', 'u', 'l', 'e', 's', '"', ':', '{'];
    push_chars(&mut out, &mkey);
    assert(mkey@ =~= modules_key_text());
    let ghost head = out@;
    let mut i: usize = 0;
    while i < stats.modules.len()
        invariant
            ms == entries_view(stats.modules@),
            i <= ms.len(),
            out@ == head + entries_text(ms.subrange(0, i as int)),
        decreases ms.len() - i,
    {
        proof {
            let t = ms.subrange(0, i + 1);
            assert(t.drop_last() =~= ms.subrange(0, i as int));
            assert(t.last() == ms[i as int]);
            assert(ms[i as int] == (stats.modules@[i as int].0@, stats.modules@[i as int].1));
            if i == 0 {
                assert(t.len() == 1);
                assert(ms.subrange(0, 0) =~= Seq::<(Seq<char>, u64)>::empty());
            }
        }
        if i > 0 {
            out.push(',');
        }
        push_entry(&mut out, stats.modules[i].0.as_str(), stats.modules[i].1);
        proof {
            let t = ms.subrange(0, i + 1);
            if i == 0 {
                assert(out@ =~= head + entries_text(t));
            } else {
                assert(out@ =~= head + entries_text(t));
            }
        }
        i = i + 1;
    }
    assert(ms.subrange(0, ms.len() as int) =~= ms);
    out.push('}');
    out.push('}');
    out.push('\n');
    assert(out@ =~= stats_json(stats.freed(), ms));
    out
}

/// What the stats parser takes from `t`, the text after the `{` that opens
/// the modules object: for each `"key"` followed by a `:` and a run of
/// digits, the key and the number (when it fits in 64 bits), stopping at the
/// first `}` directly after a number or when no further entry is found.
pub open spec fn parse_module_entries(t: Seq<char>) -> Seq<(Seq<char>, u64)>
    decreases t.len(),
{
    if t.len() == 0 {
        Seq::empty()
    } else {
        match first_match(t, CharClass::Is('"')) {
            None => Seq::empty(),
            Some(a) => {
                let ks = a + 1;
                match first_match(t.skip(ks), CharClass::Is('"')) {
                    None => Seq::empty(),
                    Some(b) => {
                        let ke = ks + b;
                        match first_match(t.skip(ke + 1), CharClass::Is(':')) {
                            None => Seq::empty(),
                            Some(c) => {
                                let colon = ke + 1 + c + 1;
                                match first_match(t.skip(colon), CharClass::Digit) {
                                    None => Seq::empty(),
                                    Some(d) => {
                                        let ns = colon + d;
                                        let ne = match first_match(t.skip(ns), CharClass::NonDigit) {
                                            Some(e) => ns + e,
                                            None => t.len() as int,
                                        };
                                        let head = match parse_digits(t.subrange(ns, ne)) {
                                            Some(v) => seq![(t.subrange(ks, ke), v)],
                                            None => Seq::empty(),
                                        };
                                        proof {
                                            lemma_first_match(t, CharClass::Is('"'));
                                            lemma_first_match(t.skip(ks), CharClass::Is('"'));
                                            lemma_first_match(t.skip(ke + 1), CharClass::Is(':'));
                                            lemma_first_match(t.skip(colon), CharClass::Digit);
                                            lemma_first_match(t.skip(ns), CharClass::NonDigit);
                                        }
                                        if ne < t.len() && t[ne] == '}' {
                                            head
                                        } else {
                                            head + parse_module_entries(t.skip(ne))
                                        }
                                    },
                                }
                            },
                        }
                    },
                }
            },
        }
    }
}

/// What the number lookup finds for `key`: the first run of digits after the
/// first `"key":` in `json`, if it fits in 64 bits.
pub open spec fn spec_extract_number(json: Seq<char>, key: Seq<char>) -> Option<u64> {
    let needle = seq!['"'] + key + seq!['"', ':'];
    match first_occurrence(json, needle) {
        None => None,
        Some(p) => {
            let rest = json.skip(p + needle.len());
            match first_match(rest, CharClass::Digit) {
                None => None,
                Some(s) => {
                    let e = match first_match(rest.skip(s), CharClass::NonDigit) {
                        Some(k) => s + k,
                        None => rest.len() as int,
                    };
                    parse_digits(rest.subrange(s, e))
                },
            }
        },
    }
}

pub open spec fn modules_needle() -> Seq<char> {
    seq!['"', 'm', 'o', 'd', 'u', 'l', 'e', 's', '"']
}

/// What the stats parser gives for `json`: the total freed and the
/// per-module entries, or `None` when there is no total or no modules object.
pub open spec fn spec_parse_stats(json: Seq<char>) -> Option<(u64, Seq<(Seq<char>, u64)>)> {
    match spec_extract_number(json, seq!['t', 'o', 't', 'a', 'l', '_', 'f', 'r', 'e', 'e', 'd']) {
        None => None,
        Some(total) => match first_occurrence(json, modules_needle()) {
            None => None,
            Some(m) => {
                let rest = json.skip(m);
                match first_match(rest, CharClass::Is('{')) {
                    None => None,
                    Some(b) => Some((total, parse_module_entries(rest.skip(b + 1)))),
                }
            },
        },
    }
}

/// The number that follows the first `"key":` in `json`.
pub fn extract_number(json: &str, key: &str) -> (r: Option<u64>)
    ensures
        r == spec_extract_number(json@, key@),
{
    let cs = chars_of(json);
    extract_number_in(cs.as_slice(), key)
}

fn extract_number_in(cs: &[char], key: &str) -> (r: Option<u64>)
    ensures
        r == spec_extract_number(cs@, key@),
{
    let mut needle: Vec<char> = Vec::new();
    needle.push('"');
    let kc = chars_of(key);
    let mut i: usize = 0;
    while i < kc.len()
        invariant
            i <= kc@.len(),
            needle@ == seq!['"'] + kc@.subrange(0, i as int),
        decreases kc@.len() - i,
    {
        needle.push(kc[i]);
        proof {
            assert(needle@ =~= seq!['"'] + kc@.subrange(0, i + 1));
        }
        i = i + 1;
    }
    needle.push('"');
    needle.push(':');
    assert(needle@ =~= seq!['"'] + key@ + seq!['"', ':']);
    let n = cs.len();
    let p = match find_chars(cs, needle.as_slice()) {
        Some(p) => p,
        None => return None,
    };
    proof {
        lemma_first_occurrence(cs@, needle@);
        assert(occurs_at(cs@, needle@, p as int));
        assert(p + needle@.len() <= cs@.len());
    }
    let start = p + needle.len();
    let ghost rest = cs@.skip(start as int);
    let s = match find_digit_from(cs, start) {
        Some(s) => s,
        None => return None,
    };
    proof {
        lemma_first_match(rest, CharClass::Digit);
        assert(rest.skip(s - start) =~= cs@.skip(s as int));
    }
    let e = match find_non_digit_from(cs, s) {
        Some(e) => e,
        None => cs.len(),
    };
    proof {
        lemma_first_match(cs@.skip(s as int), CharClass::NonDigit);
        assert(rest.subrange(s - start, e - start) =~= cs@.subrange(s as int, e as int));
        assert forall|j: int| 0 <= j < e - s implies is_digit(#[trigger] cs@.subrange(s as int, e as int)[j]) by {
            assert(cs@.subrange(s as int, e as int)[j] == cs@.skip(s as int)[j]);
            if j > 0 {
                assert(!in_class(cs@.skip(s as int)[j], CharClass::NonDigit));
            } else {
                assert(in_class(rest[s - start], CharClass::Digit));
            }
        }
    }
    parse_digit_run(cs, s, e)
}

#[verifier::spinoff_prover]
#[verifier::rlimit(80)]
fn parse_entries_from(cs: &[char], start: usize) -> (r: Vec<(String, u64)>)
    requires
        start <= cs@.len(),
    ensures
        entries_view(r@) == parse_module_entries(cs@.skip(start as int)),
{
    let mut out: Vec<(String, u64)> = Vec::new();
    let mut pos: usize = start;
    while pos < cs.len()
        invariant
            start <= pos <= cs@.len(),
            entries_view(out@) + parse_module_entries(cs@.skip(pos as int))
                == parse_module_entries(cs@.skip(start as int)),
        decreases cs@.len() - pos,
    {
        let ghost t = cs@.skip(pos as int);
        let ghost before = entries_view(out@);
        proof {
            lemma_first_match(t, CharClass::Is('"'));
        }
        let a = match find_char_from(cs, pos, '"') {
            Some(a) => a,
            None => {
                assert(entries_view(out@) =~= entries_view(out@) + parse_module_entries(t));
                return out;
            },
        };
        let ks = a + 1;
        proof {
            assert(t.skip(ks - pos) =~= cs@.skip(ks as int));
            lemma_first_match(cs@.skip(ks as int), CharClass::Is('"'));
        }
        let ke = match find_char_from(cs, ks, '"') {
            Some(k) => k,
            None => {
                assert(entries_view(out@) =~= entries_view(out@) + parse_module_entries(t));
                return out;
            },
        };
        proof {
            assert(t.skip(ke + 1 - pos) =~= cs@.skip(ke + 1));
            lemma_first_match(cs@.skip(ke + 1), CharClass::Is(':'));
        }
        let c = match find_char_from(cs, ke + 1, ':') {
            Some(c) => c,
            None => {
                assert(entries_view(out@) =~= entries_view(out@) + parse_module_entries(t));
                return out;
            },
        };
        let colon = c + 1;
        proof {
            assert(t.skip(colon - pos) =~= cs@.skip(colon as int));
            lemma_first_match(cs@.skip(colon as int), CharClass::Digit);
        }
        let ns = match find_digit_from(cs, colon) {
            Some(d) => d,
            None => {
                assert(entries_view(out@) =~= entries_view(out@) + parse_module_entries(t));
                return out;
            },
        };
        proof {
            assert(t.skip(ns - pos) =~= cs@.skip(ns as int));
            lemma_first_match(cs@.skip(ns as int), CharClass::NonDigit);
        }
        let ne = match find_non_digit_from(cs, ns) {
            Some(e) => e,
            None => cs.len(),
        };
        proof {
            assert(t.subrange(ns - pos, ne - pos) =~= cs@.subrange(ns as int, ne as int));
            assert(t.subrange(ks - pos, ke - pos) =~= cs@.subrange(ks as int, ke as int));
            assert(t.skip(ne - pos) =~= cs@.skip(ne as int));
            assert forall|j: int| 0 <= j < ne - ns implies is_digit(#[trigger] cs@.subrange(ns as int, ne as int)[j]) by {
                assert(cs@.subrange(ns as int, ne as int)[j] == cs@.skip(ns as int)[j]);
                if j > 0 {
                    assert(!in_class(cs@.skip(ns as int)[j], CharClass::NonDigit));
                } else {
                    assert(in_class(cs@.skip(colon as int)[ns - colon], CharClass::Digit));
                }
            }
        }
        let parsed = parse_digit_run(cs, ns, ne);
        let ghost head: Seq<(Seq<char>, u64)> = match parsed {
            Some(v) => seq![(cs@.subrange(ks as int, ke as int), v)],
            None => Seq::empty(),
        };
        match parsed {
            Some(v) => {
                let key = string_of_range(cs, ks, ke);
                out.push((key, v));
            },
            None => {},
        }
        proof {
            assert(entries_view(out@) =~= before + head);
        }
        if ne < cs.len() && cs[ne] == '}' {
            proof {
                assert(t[ne - pos] == cs@[ne as int]);
                assert(parse_module_entries(t) == head);
            }
            return out;
        }
        proof {
            assert(parse_module_entries(t) == head + parse_module_entries(cs@.skip(ne as int)));
            assert(entries_view(out@) + parse_module_entries(cs@.skip(ne as int))
                =~= before + parse_module_entries(t));
        }
        pos = ne;
    }
    proof {
        assert(cs@.skip(pos as int) =~= Seq::<char>::empty());
        assert(entries_view(out@) + parse_module_entries(cs@.skip(pos as int)) =~= entries_view(out@));
    }
    out
}

/// Parses the stats file's content; `None` when it has no total or no
/// modules object.
pub fn parse_stats(json: &str) -> (r: Option<Stats>)
    ensures
        match spec_parse_stats(json@) {
            Some(p) => r is Some && r->0.freed() == p.0 && r->0.modules_view() == p.1,
            None => r is None,
        },
{
    let cs = chars_of(json);
    let key = ['t', 'o', 't', 'a', 'l', '_', 'f', 'r', 'e', 'e', 'd'];
    let key_s = string_of(&key);
    assert(key_s@ =~= seq!['t', 'o', 't', 'a', 'l', '_', 'f', 'r', 'e', 'e', 'd']);
    let total = match extract_number_in(cs.as_slice(), key_s.as_str()) {
        Some(t) => t,
        None => return None,
    };
    let mk = ['"', 'm', 'o', 'd', 'u', 'l', 'e', 's', '"'];
    assert(mk@ =~= modules_needle());
    let m = match find_chars(cs.as_slice(), &mk) {
        Some(m) => m,
        None => return None,
    };
    proof {
        lemma_first_occurrence(cs@, modules_needle());
    }
    let b = match find_char_from(cs.as_slice(), m, '{') {
        Some(b) => b,
        None => return None,
    };
    proof {
        lemma_first_match(cs@.skip(m as int), CharClass::Is('{'));
        assert(cs@.skip(m as int).skip(b - m + 1) =~= cs@.skip(b + 1));
    }
    let n = cs.len();
    assert(b < n);
    let modules = parse_entries_from(cs.as_slice(), b + 1);
    Some(Stats { total_freed: total, modules })
}


// ---------------------------------------------------------------------------
// Reading back what was written
// ---------------------------------------------------------------------------

proof fn lemma_escape_plain(id: Seq<char>)
    requires
        plain_id(id),
    ensures
        escape_json_spec(id) == id,
    decreases id.len(),
{
    if id.len() > 0 {
        let d = id.drop_last();
        assert forall|i: int| 0 <= i < d.len() implies #[trigger] d[i] != '"' && d[i] != '\\' by {
            assert(d[i] == id[i]);
        }
        lemma_escape_plain(d);
        assert(id.last() == id[id.len() - 1]);
        assert(d.push(id.last()) =~= id);
    }
}

/// The entries text, read from the front: the first entry, then a comma and
/// the text of the rest.
proof fn lemma_entries_text_front(ms: Seq<(Seq<char>, u64)>)
    requires
        ms.len() >= 1,
    ensures
        entries_text(ms) == entry_text(ms[0].0, ms[0].1) + (if ms.len() > 1 {
            seq![','] + entries_text(ms.drop_first())
        } else {
            Seq::empty()
        }),
    decreases ms.len(),
{
    if ms.len() == 1 {
        assert(entry_text(ms[0].0, ms[0].1) + Seq::<char>::empty() =~= entry_text(ms[0].0, ms[0].1));
    } else if ms.len() == 2 {
        let t = ms.drop_first();
        assert(ms.drop_last().len() == 1);
        assert(ms.drop_last()[0] == ms[0]);
        assert(t.len() == 1);
        assert(t[0] == ms.last());
        assert(entries_text(t) == entry_text(t[0].0, t[0].1));
        assert(entries_text(ms.drop_last()) == entry_text(ms[0].0, ms[0].1));
        assert(entries_text(ms) == entries_text(ms.drop_last()) + seq![','] + entry_text(ms.last().0, ms.last().1));
        assert(entries_text(ms) =~= entry_text(ms[0].0, ms[0].1) + (seq![','] + entries_text(t)));
    } else {
        let init = ms.drop_last();
        lemma_entries_text_front(init);
        let t = ms.drop_first();
        assert(init.drop_first() =~= t.drop_last());
        assert(t.last() == ms.last());
        assert(init[0] == ms[0]);
        assert(entries_text(t) == entries_text(t.drop_last()) + seq![','] + entry_text(t.last().0, t.last().1));
        assert(entries_text(ms) =~= entry_text(ms[0].0, ms[0].1) + (seq![','] + entries_text(t)));
    }
}

/// One entry, after an optional comma, reads back as itself.
#[verifier::spinoff_prover]
#[verifier::rlimit(60)]
proof fn lemma_parse_one_entry(pre: Seq<char>, id: Seq<char>, n: u64, rest: Seq<char>)
    requires
        pre.len() <= 1,
        pre.len() == 1 ==> pre[0] == ',',
        plain_id(id),
        rest.len() >= 1,
        rest[0] == ',' || rest[0] == '}',
    ensures
        parse_module_entries(pre + entry_text(id, n) + rest) == seq![(id, n)] + (if rest[0] == '}' {
            Seq::<(Seq<char>, u64)>::empty()
        } else {
            parse_module_entries(rest)
        }),
{
    lemma_escape_plain(id);
    let d = decimal(n as nat);
    lemma_decimal(n as nat);
    let t = pre + entry_text(id, n) + rest;
    assert(t =~= pre + seq!['"'] + id + seq!['"', ':'] + d + rest);
    let a = pre.len() as int;
    assert(t[a] == '"');
    assert forall|j: int| 0 <= j < a implies !in_class(#[trigger] t[j], CharClass::Is('"')) by {
        assert(t[j] == pre[j]);
    }
    lemma_first_match_is(t, CharClass::Is('"'), a);
    let ks = a + 1;
    let t1 = t.skip(ks);
    assert(t1 =~= id + seq!['"', ':'] + d + rest);
    assert(t1[id.len() as int] == '"');
    assert forall|j: int| 0 <= j < id.len() implies !in_class(#[trigger] t1[j], CharClass::Is('"')) by {
        assert(t1[j] == id[j]);
    }
    lemma_first_match_is(t1, CharClass::Is('"'), id.len() as int);
    let ke = ks + id.len();
    let t2 = t.skip(ke + 1);
    assert(t2 =~= seq![':'] + d + rest);
    assert(t2[0] == ':');
    lemma_first_match_is(t2, CharClass::Is(':'), 0);
    let colon = ke + 2;
    let t3 = t.skip(colon);
    assert(t3 =~= d + rest);
    assert(t3[0] == d[0]);
    assert(is_digit(d[0]));
    lemma_first_match_is(t3, CharClass::Digit, 0);
    let ns = colon;
    assert(t3[d.len() as int] == rest[0]);
    assert forall|j: int| 0 <= j < d.len() implies !in_class(#[trigger] t3[j], CharClass::NonDigit) by {
        assert(t3[j] == d[j]);
        assert(is_digit(d[j]));
    }
    lemma_first_match_is(t3, CharClass::NonDigit, d.len() as int);
    let ne = ns + d.len();
    assert(t.subrange(ns, ne) =~= d);
    assert(t.subrange(ks, ke) =~= id);
    assert(parse_digits(d) == Some(n));
    assert(ne < t.len());
    assert(t[ne] == rest[0]);
    assert(t.skip(ne) =~= rest);
}

/// The entries text, with or without a leading comma and followed by the
/// closing braces, reads back as the entries.
proof fn lemma_parse_entries_text(pre: Seq<char>, ms: Seq<(Seq<char>, u64)>)
    requires
        pre.len() <= 1,
        pre.len() == 1 ==> pre[0] == ',',
        ms.len() >= 1,
        forall|i: int| 0 <= i < ms.len() ==> plain_id(#[trigger] ms[i].0),
    ensures
        parse_module_entries(pre + entries_text(ms) + closing_text()) == ms,
    decreases ms.len(),
{
    lemma_entries_text_front(ms);
    let m0 = ms[0];
    assert(plain_id(m0.0));
    if ms.len() == 1 {
        let rest = closing_text();
        assert(pre + entries_text(ms) + closing_text() =~= pre + entry_text(m0.0, m0.1) + rest);
        lemma_parse_one_entry(pre, m0.0, m0.1, rest);
        assert(seq![(m0.0, m0.1)] + Seq::<(Seq<char>, u64)>::empty() =~= ms);
    } else {
        let tail = ms.drop_first();
        let rest = seq![','] + entries_text(tail) + closing_text();
        assert(pre + entries_text(ms) + closing_text() =~= pre + entry_text(m0.0, m0.1) + rest);
        lemma_parse_one_entry(pre, m0.0, m0.1, rest);
        assert forall|i: int| 0 <= i < tail.len() implies plain_id(#[trigger] tail[i].0) by {
            assert(tail[i] == ms[i + 1]);
        }
        lemma_parse_entries_text(seq![','], tail);
        assert(seq![','] + entries_text(tail) + closing_text() =~= rest);
        assert(seq![(m0.0, m0.1)] + tail =~= ms);
    }
}

/// Round trip: the stats file written for a total and entries whose module
/// ids hold no `"` and no `\` parses back to that total and those entries.
pub proof fn lemma_stats_round_trip(total: u64, ms: Seq<(Seq<char>, u64)>)
    requires
        forall|i: int| 0 <= i < ms.len() ==> plain_id(#[trigger] ms[i].0),
    ensures
        spec_parse_stats(stats_json(total, ms)) == Some((total, ms)),
{
    let j = stats_json(total, ms);
    let d = decimal(total as nat);
    lemma_decimal(total as nat);
    let body = entries_text(ms) + closing_text();
    assert(j =~= total_key_text() + d + modules_key_text() + body);
    // The total.
    let key = seq!['t', 'o', 't', 'a', 'l', '_', 'f', 'r', 'e', 'e', 'd'];
    let needle = seq!['"'] + key + seq!['"', ':'];
    assert(needle.len() == 14);
    assert(j.subrange(1, 15) =~= needle);
    assert(occurs_at(j, needle, 1));
    assert(!occurs_at(j, needle, 0)) by {
        assert(j[0] == '{');
        if occurs_at(j, needle, 0) {
            assert(j.subrange(0, 14)[0] == needle[0]);
        }
    }
    lemma_first_occurrence_is(j, needle, 1);
    let rest = j.skip(15);
    assert(rest =~= d + modules_key_text() + body);
    assert(is_digit(d[0]));
    lemma_first_match_is(rest, CharClass::Digit, 0);
    assert(rest[d.len() as int] == ',');
    assert forall|k: int| 0 <= k < d.len() implies !in_class(#[trigger] rest[k], CharClass::NonDigit) by {
        assert(rest[k] == d[k]);
        assert(is_digit(d[k]));
    }
    lemma_first_match_is(rest, CharClass::NonDigit, d.len() as int);
    assert(rest.skip(0) =~= rest);
    assert(rest.subrange(0, d.len() as int) =~= d);
    assert(spec_extract_number(j, key) == Some(total));
    // The modules object.
    let m: int = (15 + d.len() + 1) as int;
    let mn = modules_needle();
    assert(j.subrange(m, m + 9) =~= mn);
    assert(occurs_at(j, mn, m));
    assert forall|k: int| 0 <= k < m implies !#[trigger] occurs_at(j, mn, k) by {
        if occurs_at(j, mn, k) {
            assert(j.subrange(k, k + 9)[0] == mn[0]);
            assert(j[k] == '"');
            assert(j.subrange(k, k + 9)[1] == mn[1]);
            assert(j[k + 1] == 'm');
            if k < 15 {
                assert(j[k] == total_key_text()[k]);
            } else if k < 15 + d.len() {
                assert(j[k] == d[k - 15]);
                assert(is_digit(d[k - 15]));
            } else {
                assert(k == 15 + d.len());
                assert(j[k] == ',');
            }
        }
    }
    lemma_first_occurrence_is(j, mn, m);
    let r2 = j.skip(m);
    assert(r2 =~= seq!['"', 'm', 'o', 'd', 'u', 'l', 'e', 's', '"', ':', '{'] + body);
    assert(r2[10] == '{');
    assert forall|k: int| 0 <= k < 10 implies !in_class(#[trigger] r2[k], CharClass::Is('{')) by {}
    lemma_first_match_is(r2, CharClass::Is('{'), 10);
    assert(r2.skip(11) =~= body);
    if ms.len() == 0 {
        assert(body =~= closing_text());
        lemma_first_match_none(body, CharClass::Is('"'));
        assert(parse_module_entries(body) =~= Seq::<(Seq<char>, u64)>::empty());
    } else {
        lemma_parse_entries_text(Seq::empty(), ms);
        assert(Seq::<char>::empty() + entries_text(ms) + closing_text() =~= body);
    }
}

} // verus!
