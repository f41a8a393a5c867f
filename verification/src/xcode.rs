//! Xcode simulator handlers. Simulator devices and runtimes are registered
//! with CoreSimulator, so they are removed through `simctl`, one itemised
//! identifier at a time, never by deleting their directories. What `simctl`
//! prints is decoded by the caller into the plain records below; this module
//! chooses the candidates, describes them and orders them.

use vstd::prelude::*;
use crate::exec::{trim, trim_bounds, lines_of, strip_cr};
use crate::handlers::{Handler, HandlerItem, HandlerItemView, HandlerKind, kind_id, kind_removal_argv, opt_view};
use crate::path::{parent_path, parent_of};
use crate::text::{
    after_last, after_last_index, after_last_occurrence, after_last_occurrence_index, chars_of, first_match,
    find_char_from, find_chars, first_occurrence, join_parts, joined, lex_less, lex_lt, push_chars, push_str,
    split_first, split_first_vec, str_eq, string_of, CharClass,
};

verus! {

/// A simulator device as `simctl list --json devices` describes it.
pub struct Device {
    pub udid: String,
    pub name: String,
    pub is_available: bool,
    pub state: String,
    pub data_path: Option<String>,
    pub data_path_size: Option<u64>,
    pub last_booted_at: Option<String>,
}

/// A simulator runtime as `simctl runtime list -j` describes it.
pub struct Runtime {
    pub identifier: String,
    pub version: String,
    pub build: String,
    pub deletable: bool,
    pub size_bytes: Option<u64>,
    pub last_used_at: Option<String>,
    pub runtime_bundle_path: Option<String>,
    pub platform_identifier: Option<String>,
}

/// Simulator devices whose runtime is no longer installed.
pub struct SimulatorDevices;

/// Installed simulator runtimes.
pub struct SimulatorRuntimes;

// ---------------------------------------------------------------------------
// Labels
// ---------------------------------------------------------------------------

/// `v` with each `-` turned into `.`.
pub open spec fn dashes_to_dots(v: Seq<char>) -> Seq<char> {
    v.map_values(|c: char| if c == '-' { '.' } else { c })
}

/// `com.apple.CoreSimulator.SimRuntime.iOS-26-2` as `iOS 26.2`: the last
/// dotted part, split at its first `-` into platform and version, with the
/// version's dashes as dots.
pub open spec fn spec_runtime_label(identifier: Seq<char>) -> Seq<char> {
    let t = after_last(identifier, '.');
    match split_first(t, '-') {
        Some(pv) => pv.0 + seq![' '] + dashes_to_dots(pv.1),
        None => t,
    }
}

/// The readable name of a runtime identifier.
pub fn runtime_label(identifier: &str) -> (r: String)
    ensures
        r@ == spec_runtime_label(identifier@),
{
    let cs = chars_of(identifier);
    let k = after_last_index(cs.as_slice(), '.');
    let mut tail: Vec<char> = Vec::new();
    crate::text::push_vec(&mut tail, &cs.as_slice()[k..cs.len()]);
    assert(tail@ =~= after_last(identifier@, '.'));
    match split_first_vec(tail.as_slice(), '-') {
        Some((p, v)) => {
            let mut out = String::new();
            push_chars(&mut out, p.as_slice());
            out.push(' ');
            let mut i: usize = 0;
            let ghost base = out@;
            while i < v.len()
                invariant
                    i <= v@.len(),
                    out@ == base + dashes_to_dots(v@).take(i as int),
                decreases v@.len() - i,
            {
                let c = v[i];
                if c == '-' {
                    out.push('.');
                } else {
                    out.push(c);
                }
                assert(dashes_to_dots(v@).take(i + 1) =~= dashes_to_dots(v@).take(i as int).push(dashes_to_dots(v@)[i as int]));
                i = i + 1;
            }
            assert(dashes_to_dots(v@).take(v@.len() as int) =~= dashes_to_dots(v@));
            out
        },
        None => string_of(tail.as_slice()),
    }
}

/// The platform named by the last dotted part of a platform identifier.
pub open spec fn spec_platform_label(identifier: Seq<char>) -> Seq<char> {
    let t = after_last(identifier, '.');
    if t == "iphonesimulator"@ {
        "iOS"@
    } else if t == "watchsimulator"@ {
        "watchOS"@
    } else if t == "appletvsimulator"@ {
        "tvOS"@
    } else if t == "xrsimulator"@ {
        "visionOS"@
    } else {
        "Simulator"@
    }
}

/// `com.apple.platform.iphonesimulator` as `iOS`.
pub fn platform_label(identifier: &str) -> (r: &'static str)
    ensures
        r@ == spec_platform_label(identifier@),
{
    let cs = chars_of(identifier);
    let k = after_last_index(cs.as_slice(), '.');
    let tail = string_of(&cs.as_slice()[k..cs.len()]);
    assert(tail@ =~= after_last(identifier@, '.'));
    if str_eq(tail.as_str(), "iphonesimulator") {
        "iOS"
    } else if str_eq(tail.as_str(), "watchsimulator") {
        "watchOS"
    } else if str_eq(tail.as_str(), "appletvsimulator") {
        "tvOS"
    } else if str_eq(tail.as_str(), "xrsimulator") {
        "visionOS"
    } else {
        "Simulator"
    }
}

/// The date part of an ISO 8601 timestamp: what comes before the first `T`.
pub open spec fn spec_short_date(ts: Seq<char>) -> Seq<char> {
    match first_match(ts, CharClass::Is('T')) {
        Some(i) => ts.take(i),
        None => ts,
    }
}

/// An ISO 8601 timestamp trimmed to its date.
pub fn short_date(timestamp: &str) -> (r: &str)
    ensures
        r@ == spec_short_date(timestamp@),
{
    let cs = chars_of(timestamp);
    proof {
        crate::text::lemma_first_match(cs@, CharClass::Is('T'));
        assert(cs@.skip(0) =~= cs@);
    }
    match find_char_from(cs.as_slice(), 0, 'T') {
        Some(i) => timestamp.substring_char(0, i),
        None => timestamp,
    }
}

/// The build named on a `Chosen Runtime:` line of `simctl runtime match
/// list`: after the marker, trimmed; inside the first parentheses the part
/// after the last ` - ` when they close; none when that is empty.
pub open spec fn spec_chosen_runtime(line: Seq<char>) -> Option<Seq<char>> {
    let marker = "Chosen Runtime:"@;
    match first_occurrence(line, marker) {
        Some(k) => {
            let rest = trim(line.skip(k + marker.len()));
            let build = match first_match(rest, CharClass::Is('(')) {
                Some(open) => {
                    let after = rest.skip(open + 1);
                    match first_match(after, CharClass::Is(')')) {
                        Some(close) => trim(after_last_occurrence(after.take(close), " - "@)),
                        None => rest,
                    }
                },
                None => rest,
            };
            if build.len() == 0 {
                None
            } else {
                Some(build)
            }
        },
        None => None,
    }
}

fn trimmed(cs: &[char]) -> (r: Vec<char>)
    ensures
        r@ == trim(cs@),
{
    let (a, b) = trim_bounds(cs, 0, cs.len());
    assert(cs@.subrange(0, cs@.len() as int) =~= cs@);
    crate::text::slice_vec(cs, a, b)
}

/// The build of one `Chosen Runtime:` line.
pub fn parse_chosen_runtime(line: &str) -> (r: Option<String>)
    ensures
        match (spec_chosen_runtime(line@), r) {
            (Some(a), Some(b)) => b@ == a,
            (None, None) => true,
            _ => false,
        },
{
    let cs = chars_of(line);
    let marker = chars_of("Chosen Runtime:");
    proof {
        crate::text::lemma_first_occurrence(cs@, marker@);
    }
    let k = match find_chars(cs.as_slice(), marker.as_slice()) {
        Some(k) => k,
        None => return None,
    };
    assert(crate::text::occurs_at(cs@, marker@, k as int));
    let cl = cs.len();
    let ml = marker.len();
    assert(k + ml <= cl);
    let start = k + ml;
    let rest = trimmed(&cs.as_slice()[start..cs.len()]);
    assert(cs@.subrange(start as int, cs@.len() as int) =~= line@.skip(start as int));
    proof {
        crate::text::lemma_first_match(rest@, CharClass::Is('('));
        assert(rest@.skip(0) =~= rest@);
    }
    let rl = rest.len();
    let build: Vec<char> = match find_char_from(rest.as_slice(), 0, '(') {
        Some(open) => {
            assert(open < rl);
            let after = crate::text::slice_vec(rest.as_slice(), open + 1, rl);
            assert(after@ =~= rest@.skip(open + 1));
            proof {
                crate::text::lemma_first_match(after@, CharClass::Is(')'));
                assert(after@.skip(0) =~= after@);
            }
            match find_char_from(after.as_slice(), 0, ')') {
                Some(close) => {
                    let inner = crate::text::slice_vec(after.as_slice(), 0, close);
                    assert(inner@ =~= after@.take(close as int));
                    let sep = chars_of(" - ");
                    proof {
                        reveal_strlit(" - ");
                    }
                    let j = after_last_occurrence_index(inner.as_slice(), sep.as_slice());
                    trimmed(&inner.as_slice()[j..inner.len()])
                },
                None => rest,
            }
        },
        None => rest,
    };
    if build.len() == 0 {
        None
    } else {
        Some(string_of(build.as_slice()))
    }
}

/// The builds named by the `Chosen Runtime:` lines of an output, in order.
pub open spec fn chosen_builds(lines: Seq<Seq<char>>) -> Seq<Seq<char>>
    decreases lines.len(),
{
    if lines.len() == 0 {
        Seq::empty()
    } else {
        chosen_builds(lines.drop_last()) + match spec_chosen_runtime(lines.last()) {
            Some(b) => seq![b],
            None => Seq::empty(),
        }
    }
}

/// The builds that installed Xcode SDKs resolve to, from the output of
/// `simctl runtime match list`.
pub fn chosen_runtime_builds(stdout: &str) -> (r: Vec<String>)
    ensures
        r@.map_values(|s: String| s@) == chosen_builds(lines_of(stdout@)),
{
    let cs = chars_of(stdout);
    let n = cs.len();
    let mut r: Vec<String> = Vec::new();
    let mut start: usize = 0;
    let ghost all = lines_of(stdout@);
    assert(cs@.skip(0) =~= cs@);
    let ghost mut done: Seq<Seq<char>> = Seq::empty();
    assert(done + lines_of(cs@.skip(0)) =~= all);
    while start < n
        invariant
            n == cs@.len(),
            cs@ == stdout@,
            start <= n,
            all == lines_of(stdout@),
            done + lines_of(cs@.skip(start as int)) == all,
            r@.map_values(|s: String| s@) == chosen_builds(done),
        decreases n - start,
    {
        let ghost rest = cs@.skip(start as int);
        let found = find_char_from(cs.as_slice(), start, '\n');
        proof {
            crate::text::lemma_first_match(rest, CharClass::Is('\n'));
        }
        let (end, next) = match found {
            Some(p) => (p, p + 1),
            None => (n, n),
        };
        let mut line_end = end;
        if found.is_some() && end > start && cs[end - 1] == '\r' {
            line_end = end - 1;
        }
        let line = string_of(&cs.as_slice()[start..line_end]);
        proof {
            let lv = cs@.subrange(start as int, line_end as int);
            assert(line@ == lv);
            match found {
                Some(p) => {
                    assert(rest.take(p - start) =~= cs@.subrange(start as int, p as int));
                    assert(rest.skip(p - start + 1) =~= cs@.skip(p + 1));
                    if end > start && cs@[end - 1] == '\r' {
                        assert(cs@.subrange(start as int, p as int).drop_last() =~= lv);
                    }
                    assert(strip_cr(rest.take(p - start)) == lv);
                    assert(lines_of(rest) == seq![lv] + lines_of(cs@.skip(next as int)));
                },
                None => {
                    assert(rest =~= lv);
                    assert(cs@.skip(next as int).len() == 0);
                    assert(lines_of(cs@.skip(next as int)) =~= Seq::<Seq<char>>::empty());
                    assert(lines_of(rest) =~= seq![lv] + lines_of(cs@.skip(next as int)));
                },
            }
        }
        let b = parse_chosen_runtime(line.as_str());
        let ghost prev = r@.map_values(|s: String| s@);
        match b {
            Some(x) => {
                r.push(x);
                assert(r@.map_values(|s: String| s@) =~= prev.push(x@));
            },
            None => {},
        }
        proof {
            let d2 = done.push(line@);
            assert(d2.drop_last() =~= done);
            assert(chosen_builds(d2) =~= chosen_builds(done) + match spec_chosen_runtime(line@) {
                Some(x) => seq![x],
                None => Seq::<Seq<char>>::empty(),
            });
            assert(d2 + lines_of(cs@.skip(next as int)) =~= done + lines_of(rest));
            done = d2;
        }
        start = next;
    }
    proof {
        assert(cs@.skip(start as int).len() == 0);
        assert(lines_of(cs@.skip(start as int)) =~= Seq::<Seq<char>>::empty());
        assert(done =~= all);
    }
    r
}

// ---------------------------------------------------------------------------
// Candidates
// ---------------------------------------------------------------------------

/// Whether a device is offered for removal: it is unavailable (its runtime
/// is gone) and not running.
pub open spec fn offered(d: Device) -> bool {
    !d.is_available && (d.state@.len() == 0 || d.state@ == "Shutdown"@)
}

/// The detail line of a device: its runtime, and when it was last booted.
pub open spec fn device_detail(runtime: Seq<char>, d: Device) -> Seq<char> {
    spec_runtime_label(runtime) + " · "@ + match d.last_booted_at {
        Some(b) => "last booted "@ + spec_short_date(b@),
        None => "never booted"@,
    }
}

/// The item offered for a device of runtime `runtime`. Its path is the
/// device directory, the parent of the data directory.
pub open spec fn device_view(runtime: Seq<char>, d: Device) -> HandlerItemView {
    HandlerItemView {
        id: d.udid@,
        name: d.name@,
        size: d.data_path_size,
        display_path: match d.data_path {
            Some(p) => parent_path(p@),
            None => None,
        },
        detail: Some(device_detail(runtime, d)),
        in_use: false,
    }
}

/// The items offered for the devices of one runtime, in order.
pub open spec fn group_views(runtime: Seq<char>, ds: Seq<Device>) -> Seq<HandlerItemView>
    decreases ds.len(),
{
    if ds.len() == 0 {
        Seq::empty()
    } else {
        group_views(runtime, ds.drop_last()) + if offered(ds.last()) {
            seq![device_view(runtime, ds.last())]
        } else {
            Seq::empty()
        }
    }
}

/// The items offered for all devices, runtime by runtime.
pub open spec fn device_views(groups: Seq<(String, Vec<Device>)>) -> Seq<HandlerItemView>
    decreases groups.len(),
{
    if groups.len() == 0 {
        Seq::empty()
    } else {
        device_views(groups.drop_last()) + group_views(groups.last().0@, groups.last().1@)
    }
}

/// Whether build `b` is among the builds still chosen by an SDK.
pub open spec fn build_in_use(b: Seq<char>, in_use_builds: Seq<String>) -> bool {
    exists|i: int| 0 <= i < in_use_builds.len() && #[trigger] in_use_builds[i]@ == b
}

/// The detail parts of a runtime: its build when known, when it was last
/// used, and whether an installed SDK still selects it.
pub open spec fn runtime_detail_parts(r: Runtime, in_use: bool) -> Seq<Seq<char>> {
    (if r.build@.len() > 0 { seq!["build "@ + r.build@] } else { Seq::empty() })
        + seq![match r.last_used_at {
            Some(u) => "last used "@ + spec_short_date(u@),
            None => "never used"@,
        }]
        + (if in_use { seq!["still selected by an installed Xcode SDK"@] } else { Seq::empty() })
}

/// The item offered for a deletable runtime.
pub open spec fn runtime_view(r: Runtime, in_use_builds: Seq<String>) -> HandlerItemView {
    let in_use = build_in_use(r.build@, in_use_builds);
    let platform = match r.platform_identifier {
        Some(p) => spec_platform_label(p@),
        None => "Simulator"@,
    };
    HandlerItemView {
        id: r.identifier@,
        name: platform + " "@ + r.version@ + " runtime"@,
        size: r.size_bytes,
        display_path: opt_view(r.runtime_bundle_path),
        detail: Some(joined(runtime_detail_parts(r, in_use), " · "@)),
        in_use,
    }
}

/// The items offered for the deletable runtimes, in order.
pub open spec fn runtime_views(rs: Seq<Runtime>, in_use_builds: Seq<String>) -> Seq<HandlerItemView>
    decreases rs.len(),
{
    if rs.len() == 0 {
        Seq::empty()
    } else {
        runtime_views(rs.drop_last(), in_use_builds) + if rs.last().deletable {
            seq![runtime_view(rs.last(), in_use_builds)]
        } else {
            Seq::empty()
        }
    }
}

// ---------------------------------------------------------------------------
// Ordering
// ---------------------------------------------------------------------------

/// Whether size `a` orders before size `b`: larger first, unknown last.
pub open spec fn size_before(a: Option<u64>, b: Option<u64>) -> bool {
    match (a, b) {
        (Some(x), Some(y)) => x > y,
        (Some(_), None) => true,
        _ => false,
    }
}

/// Whether item `a` is listed before item `b`: by size, largest first,
/// then by name.
pub open spec fn item_before(a: HandlerItemView, b: HandlerItemView) -> bool {
    size_before(a.size, b.size) || (a.size == b.size && lex_lt(a.name, b.name))
}

/// Whether no item is listed before one that comes ahead of it.
pub open spec fn items_sorted(s: Seq<HandlerItemView>) -> bool {
    forall|i: int, j: int| 0 <= i < j < s.len() ==> !item_before(#[trigger] s[j], #[trigger] s[i])
}

proof fn lemma_item_before_trans(a: HandlerItemView, b: HandlerItemView, c: HandlerItemView)
    requires
        item_before(a, b),
        item_before(b, c),
    ensures
        item_before(a, c),
{
    if a.size == b.size && b.size == c.size {
        crate::text::lemma_lex_trans(a.name, b.name, c.name);
    }
}

proof fn lemma_item_before_asym(a: HandlerItemView, b: HandlerItemView)
    ensures
        !(item_before(a, b) && item_before(b, a)),
{
    crate::text::lemma_lex_asym(a.name, b.name);
}

fn size_before_exec(a: Option<u64>, b: Option<u64>) -> (r: bool)
    ensures
        r == size_before(a, b),
{
    match (a, b) {
        (Some(x), Some(y)) => x > y,
        (Some(_), None) => true,
        _ => false,
    }
}

fn item_before_exec(a: &HandlerItem, b: &HandlerItem) -> (r: bool)
    ensures
        r == item_before(a@, b@),
{
    if size_before_exec(a.size, b.size) {
        return true;
    }
    let same = match (a.size, b.size) {
        (Some(x), Some(y)) => x == y,
        (None, None) => true,
        _ => false,
    };
    if !same {
        return false;
    }
    let an = chars_of(a.name.as_str());
    let bn = chars_of(b.name.as_str());
    lex_less(an.as_slice(), bn.as_slice())
}

pub open spec fn views(s: Seq<HandlerItem>) -> Seq<HandlerItemView> {
    s.map_values(|h: HandlerItem| h@)
}

/// The items ordered by size, largest first and unknown sizes last, then by
/// name; items that tie keep their order.
pub fn sort_items(items: Vec<HandlerItem>) -> (r: Vec<HandlerItem>)
    ensures
        items_sorted(views(r@)),
        views(r@).to_multiset() == views(items@).to_multiset(),
{
    let mut r: Vec<HandlerItem> = Vec::new();
    let mut rest = items;
    let ghost all = views(rest@);
    let mut i: usize = 0;
    let n = rest.len();
    proof {
        assert(views(r@) =~= all.take(0));
    }
    while i < n
        invariant
            n == all.len(),
            rest@.len() == n - i,
            forall|k: int| 0 <= k < rest@.len() ==> #[trigger] rest@[k]@ == all[i + k],
            items_sorted(views(r@)),
            views(r@).to_multiset() == all.take(i as int).to_multiset(),
            i <= n,
        decreases n - i,
    {
        let x = rest.remove(0);
        assert(x@ == all[i as int]);
        let mut k: usize = 0;
        while k < r.len() && !item_before_exec(&x, &r[k])
            invariant
                k <= r@.len(),
                forall|j: int| 0 <= j < k ==> !item_before(x@, #[trigger] views(r@)[j]),
            decreases r@.len() - k,
        {
            k = k + 1;
        }
        let ghost before = views(r@);
        r.insert(k, x);
        proof {
            let after = views(r@);
            assert(after =~= before.insert(k as int, x@));
            vstd::seq_lib::to_multiset_insert(before, k as int, x@);
            assert(all.take(i + 1) =~= all.take(i as int).push(all[i as int]));
            vstd::seq_lib::to_multiset_build(all.take(i as int), all[i as int]);
            assert forall|a: int, b: int| 0 <= a < b < after.len() implies !item_before(#[trigger] after[b], #[trigger] after[a]) by {
                if a < k && b == k {
                } else if a == k && b > k {
                    if item_before(after[b], x@) {
                        if b - 1 > k {
                            lemma_item_before_trans(before[b - 1], x@, before[k as int]);
                        } else {
                            lemma_item_before_asym(x@, before[k as int]);
                        }
                    }
                } else {
                    let a0 = if a < k { a } else { a - 1 };
                    let b0 = if b < k { b } else { b - 1 };
                    assert(after[a] == before[a0]);
                    assert(after[b] == before[b0]);
                }
            }
        }
        i = i + 1;
    }
    proof {
        assert(all.take(n as int) =~= all);
    }
    r
}

// ---------------------------------------------------------------------------
// The two handlers
// ---------------------------------------------------------------------------

fn opt_clone(o: &Option<String>) -> (r: Option<String>)
    ensures
        opt_view(r) == opt_view(*o),
{
    match o {
        Some(s) => Some(s.clone()),
        None => None,
    }
}

fn device_item(runtime: &str, d: &Device) -> (r: HandlerItem)
    ensures
        r@ == device_view(runtime@, *d),
{
    let mut detail = runtime_label(runtime);
    push_str(&mut detail, " · ");
    match &d.last_booted_at {
        Some(b) => {
            push_str(&mut detail, "last booted ");
            push_str(&mut detail, short_date(b.as_str()));
        },
        None => push_str(&mut detail, "never booted"),
    }
    let display_path = match &d.data_path {
        Some(p) => {
            let pc = chars_of(p.as_str());
            match parent_of(pc.as_slice()) {
                Some(q) => Some(string_of(q.as_slice())),
                None => None,
            }
        },
        None => None,
    };
    let r = HandlerItem {
        id: d.udid.clone(),
        name: d.name.clone(),
        size: d.data_path_size,
        display_path,
        detail: Some(detail),
        in_use: false,
    };
    assert(r@.detail == Some(device_detail(runtime@, *d)));
    r
}

fn is_offered(d: &Device) -> (r: bool)
    ensures
        r == offered(*d),
{
    !d.is_available && (d.state.as_str().unicode_len() == 0 || str_eq(d.state.as_str(), "Shutdown"))
}

impl SimulatorDevices {
    /// The removal candidates among the devices of `simctl list --json
    /// devices`, given as runtime identifier and its devices: the
    /// unavailable devices that are shut down, largest first, then by name.
    pub fn build_items(groups: &[(String, Vec<Device>)]) -> (r: Vec<HandlerItem>)
        ensures
            items_sorted(views(r@)),
            views(r@).to_multiset() == device_views(groups@).to_multiset(),
    {
        let mut out: Vec<HandlerItem> = Vec::new();
        let mut g: usize = 0;
        while g < groups.len()
            invariant
                g <= groups@.len(),
                views(out@) == device_views(groups@.take(g as int)),
            decreases groups@.len() - g,
        {
            let rt = &groups[g].0;
            let ds = &groups[g].1;
            let ghost base = views(out@);
            let mut j: usize = 0;
            while j < ds.len()
                invariant
                    j <= ds@.len(),
                    views(out@) == base + group_views(rt@, ds@.take(j as int)),
                decreases ds@.len() - j,
            {
                let ghost t = ds@.take(j + 1);
                proof {
                    assert(t.drop_last() =~= ds@.take(j as int));
                    assert(t.last() == ds@[j as int]);
                }
                let ghost prev = views(out@);
                if is_offered(&ds[j]) {
                    let it = device_item(rt.as_str(), &ds[j]);
                    out.push(it);
                    assert(views(out@) =~= prev.push(it@));
                }
                assert(views(out@) =~= base + group_views(rt@, ds@.take(j + 1)));
                j = j + 1;
            }
            proof {
                let t = groups@.take(g + 1);
                assert(t.drop_last() =~= groups@.take(g as int));
                assert(t.last() == groups@[g as int]);
                assert(ds@.take(ds@.len() as int) =~= ds@);
            }
            g = g + 1;
        }
        assert(groups@.take(groups@.len() as int) =~= groups@);
        sort_items(out)
    }
}

impl Handler for SimulatorDevices {
    open spec fn handler_id(&self) -> Seq<char> {
        kind_id(HandlerKind::SimulatorDevices)
    }

    open spec fn removal_argv(&self, item_id: Seq<char>) -> Seq<Seq<char>> {
        kind_removal_argv(HandlerKind::SimulatorDevices, item_id)
    }

    fn id(&self) -> (r: &'static str) {
        HandlerKind::SimulatorDevices.id()
    }

    fn describe_removal(&self, item_id: &str) -> (r: String) {
        HandlerKind::SimulatorDevices.describe_removal(item_id)
    }
}

fn any_build_equal(b: &str, in_use_builds: &[String]) -> (r: bool)
    ensures
        r == build_in_use(b@, in_use_builds@),
{
    let mut i: usize = 0;
    while i < in_use_builds.len()
        invariant
            i <= in_use_builds@.len(),
            forall|k: int| 0 <= k < i ==> #[trigger] in_use_builds@[k]@ != b@,
        decreases in_use_builds@.len() - i,
    {
        if str_eq(in_use_builds[i].as_str(), b) {
            return true;
        }
        i = i + 1;
    }
    false
}

fn runtime_item(rt: &Runtime, in_use_builds: &[String]) -> (r: HandlerItem)
    ensures
        r@ == runtime_view(*rt, in_use_builds@),
{
    let in_use = any_build_equal(rt.build.as_str(), in_use_builds);
    let mut parts: Vec<String> = Vec::new();
    if rt.build.as_str().unicode_len() > 0 {
        let mut b = String::new();
        push_str(&mut b, "build ");
        push_str(&mut b, rt.build.as_str());
        parts.push(b);
    }
    let mut used = String::new();
    match &rt.last_used_at {
        Some(u) => {
            push_str(&mut used, "last used ");
            push_str(&mut used, short_date(u.as_str()));
        },
        None => push_str(&mut used, "never used"),
    }
    parts.push(used);
    if in_use {
        let mut s = String::new();
        push_str(&mut s, "still selected by an installed Xcode SDK");
        parts.push(s);
    }
    assert(parts@.map_values(|s: String| s@) =~= runtime_detail_parts(*rt, in_use));
    let detail = join_parts(&parts, " · ");
    let platform: &str = match &rt.platform_identifier {
        Some(p) => platform_label(p.as_str()),
        None => "Simulator",
    };
    let mut name = String::new();
    push_str(&mut name, platform);
    push_str(&mut name, " ");
    push_str(&mut name, rt.version.as_str());
    push_str(&mut name, " runtime");
    let r = HandlerItem {
        id: rt.identifier.clone(),
        name,
        size: rt.size_bytes,
        display_path: opt_clone(&rt.runtime_bundle_path),
        detail: Some(detail),
        in_use,
    };
    r
}

impl SimulatorRuntimes {
    /// The removal candidates among the runtimes of `simctl runtime list
    /// -j`: the deletable ones, marked in use when an installed SDK still
    /// selects their build, largest first, then by name.
    pub fn build_items(runtimes: &[Runtime], in_use_builds: &[String]) -> (r: Vec<HandlerItem>)
        ensures
            items_sorted(views(r@)),
            views(r@).to_multiset() == runtime_views(runtimes@, in_use_builds@).to_multiset(),
    {
        let mut out: Vec<HandlerItem> = Vec::new();
        let mut i: usize = 0;
        while i < runtimes.len()
            invariant
                i <= runtimes@.len(),
                views(out@) == runtime_views(runtimes@.take(i as int), in_use_builds@),
            decreases runtimes@.len() - i,
        {
            let ghost t = runtimes@.take(i + 1);
            proof {
                assert(t.drop_last() =~= runtimes@.take(i as int));
                assert(t.last() == runtimes@[i as int]);
            }
            let ghost prev = views(out@);
            if runtimes[i].deletable {
                let it = runtime_item(&runtimes[i], in_use_builds);
                out.push(it);
                assert(views(out@) =~= prev.push(it@));
            }
            assert(views(out@) =~= runtime_views(runtimes@.take(i + 1), in_use_builds@));
            i = i + 1;
        }
        assert(runtimes@.take(runtimes@.len() as int) =~= runtimes@);
        sort_items(out)
    }
}

impl Handler for SimulatorRuntimes {
    open spec fn handler_id(&self) -> Seq<char> {
        kind_id(HandlerKind::SimulatorRuntimes)
    }

    open spec fn removal_argv(&self, item_id: Seq<char>) -> Seq<Seq<char>> {
        kind_removal_argv(HandlerKind::SimulatorRuntimes, item_id)
    }

    fn id(&self) -> (r: &'static str) {
        HandlerKind::SimulatorRuntimes.id()
    }

    fn describe_removal(&self, item_id: &str) -> (r: String) {
        HandlerKind::SimulatorRuntimes.describe_removal(item_id)
    }
}

} // verus!
