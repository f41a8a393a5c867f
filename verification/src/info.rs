//! The rows of the module information overlay: the manifest's fields, the
//! targets that need care, where an installed module came from and whether
//! it has an update, the manifest's path, and the actions.

use vstd::prelude::*;
use crate::manifest::{risk_level_name, RestoreKind, RiskLevel, Target, TargetView};
use crate::session::utf8_len;
use crate::source::SourceInfo;
use crate::text::{decimal, decimal_string, join_parts, joined};
use crate::types::{ModuleState, ModuleUpdateStatus};
use crate::widgets::{elapsed_since, elapsed_text, is_char_boundary, spec_elapsed_text};

verus! {

/// How a row is drawn.
#[derive(Debug, Clone, Copy, PartialEq, Eq, Structural)]
pub enum RowStyle {
    /// A label and its value.
    Normal,
    /// Something that needs attention.
    Warning,
    /// A dimmed remark.
    Note,
    /// The keys of the available actions.
    Action,
    /// A value wrapped to the width of the value column.
    Wrapped,
    /// A dimmed remark wrapped to the width of the value column.
    NoteWrapped,
}

/// One row of the overlay: a label and a value.
pub struct InfoRow {
    pub style: RowStyle,
    pub label: String,
    pub value: String,
}

/// A row as plain values.
pub open spec fn row_view(r: InfoRow) -> (RowStyle, Seq<char>, Seq<char>) {
    (r.style, r.label@, r.value@)
}

/// The rows as plain values.
pub open spec fn rows_view(v: Seq<InfoRow>) -> Seq<(RowStyle, Seq<char>, Seq<char>)> {
    v.map_values(|r: InfoRow| row_view(r))
}

pub open spec fn blank() -> (RowStyle, Seq<char>, Seq<char>) {
    (RowStyle::Normal, Seq::empty(), Seq::empty())
}

// ---------------------------------------------------------------------------
// What the rows say
// ---------------------------------------------------------------------------

/// The width in UTF-8 bytes of a character.
pub open spec fn char_width(c: char) -> nat {
    let n = c as u32;
    if n < 0x80 { 1 } else if n < 0x800 { 2 } else if n < 0x10000 { 3 } else { 4 }
}

/// How many characters of `c`, from position `i` on with `used` bytes
/// already taken, fit in `n` bytes.
pub open spec fn fit_count(c: Seq<char>, n: nat, i: int, used: nat) -> int
    decreases c.len() - i,
{
    if i < 0 || i >= c.len() || used + char_width(c[i]) > n {
        i
    } else {
        fit_count(c, n, i + 1, used + char_width(c[i]))
    }
}

/// The first `n` bytes of `c` (the longest prefix whose encoding fits).
pub open spec fn byte_prefix(c: Seq<char>, n: nat) -> Seq<char> {
    c.take(fit_count(c, n, 0, 0))
}

/// A commit as shown: its first `n` bytes when it is longer.
pub open spec fn short_commit(c: Seq<char>, n: nat) -> Seq<char> {
    if utf8_len(c) > n {
        byte_prefix(c, n)
    } else {
        c
    }
}

/// The manifest's fields, and the bytes cleaned so far when there are any.
pub open spec fn field_rows(ms: ModuleState, cleaned: u64, cleaned_text: Seq<char>) -> Seq<(RowStyle, Seq<char>, Seq<char>)> {
    let m = ms.module@;
    seq![
        (RowStyle::Normal, "Name"@, m.name),
        (RowStyle::Normal, "Id"@, m.id),
        (RowStyle::Normal, "Version"@, m.version),
        (RowStyle::Normal, "Author"@, m.author),
        (RowStyle::Wrapped, "Description"@, m.description),
        (RowStyle::Normal, "Platforms"@, joined(m.platforms, ", "@)),
        (RowStyle::Normal, "Targets"@, decimal(m.targets.len())),
    ] + if cleaned > 0 {
        seq![(RowStyle::Normal, "Cleaned"@, cleaned_text)]
    } else {
        Seq::empty()
    }
}

/// Whether a target needs a line: manual restore, restore steps, or a risk.
pub open spec fn needs_care(t: TargetView) -> bool {
    t.restore != RestoreKind::Auto || t.restore_steps is Some || t.risk != RiskLevel::Safe
}

/// What a target is called: its description, else its first path.
pub open spec fn target_label(t: TargetView) -> Seq<char> {
    match t.description {
        Some(d) => d,
        None => if t.paths.len() > 0 {
            t.paths[0]
        } else {
            "?"@
        },
    }
}

/// The badge of a target: `manual restore` and `<risk> risk`, as apply.
pub open spec fn target_badge(t: TargetView) -> Seq<char> {
    let manual = t.restore == RestoreKind::Manual;
    let risky = t.risk != RiskLevel::Safe;
    let r = risk_level_name(t.risk) + " risk"@;
    if manual && risky {
        "manual restore, "@ + r
    } else if manual {
        "manual restore"@
    } else if risky {
        r
    } else {
        Seq::empty()
    }
}

/// The lines of one target that needs care: its label and badge, then its
/// restore steps.
pub open spec fn target_lines(t: TargetView) -> Seq<(RowStyle, Seq<char>, Seq<char>)> {
    let style = if t.risk == RiskLevel::Medium || t.risk == RiskLevel::High {
        RowStyle::Warning
    } else {
        RowStyle::Normal
    };
    seq![(style, target_label(t), target_badge(t))] + (match t.restore_steps {
        Some(s) => seq![(RowStyle::Note, Seq::<char>::empty(), "\u{21b3} "@ + s)],
        None => Seq::empty(),
    })
}

/// The lines of the targets that need care, in order.
pub open spec fn care_lines(ts: Seq<TargetView>) -> Seq<(RowStyle, Seq<char>, Seq<char>)>
    decreases ts.len(),
{
    if ts.len() == 0 {
        Seq::empty()
    } else {
        care_lines(ts.drop_last()) + if needs_care(ts.last()) {
            target_lines(ts.last())
        } else {
            Seq::empty()
        }
    }
}

/// The targets section: a blank line and the care lines, when some target
/// needs care.
pub open spec fn target_rows(ts: Seq<TargetView>) -> Seq<(RowStyle, Seq<char>, Seq<char>)> {
    if exists|k: int| 0 <= k < ts.len() && needs_care(#[trigger] ts[k]) {
        seq![blank()] + care_lines(ts)
    } else {
        Seq::empty()
    }
}

/// The update line for a module's update status, if it has one.
pub open spec fn update_rows(st: Option<ModuleUpdateStatus>) -> Seq<(RowStyle, Seq<char>, Seq<char>)> {
    match st {
        None => seq![(RowStyle::Note, "Update"@, "checking..."@)],
        Some(ModuleUpdateStatus::Checking) => seq![(RowStyle::Note, "Update"@, "checking..."@)],
        Some(ModuleUpdateStatus::UpdateAvailable { new_commit }) => seq![(
            RowStyle::Warning,
            "Update"@,
            "available ("@ + short_commit(new_commit@, 7) + "), press [u] to update"@,
        )],
        Some(ModuleUpdateStatus::NewerTagAvailable { current_tag, latest_tag }) => seq![(
            RowStyle::Warning,
            "Update"@,
            current_tag@ + " -> "@ + latest_tag@ + " available, press [u] to update"@,
        )],
        Some(ModuleUpdateStatus::UpToDate) => seq![(RowStyle::Note, "Update"@, "up to date"@)],
        Some(ModuleUpdateStatus::Skipped) => Seq::empty(),
        Some(ModuleUpdateStatus::Failed(_)) => Seq::empty(),
    }
}

/// Where an installed module came from: a blank line, the repository, the
/// ref when there is one, the short commit, how long ago it was installed
/// (against `now`), and the update line.
pub open spec fn source_rows(source: Option<SourceInfo>, st: Option<ModuleUpdateStatus>, now: u64) -> Seq<(RowStyle, Seq<char>, Seq<char>)> {
    match source {
        None => Seq::empty(),
        Some(s) => seq![blank(), (RowStyle::Wrapped, "Repository"@, s.repository@)] + (match s.git_ref {
            Some(r) => seq![(RowStyle::Normal, "Ref"@, r@)],
            None => Seq::empty(),
        }) + seq![
            (RowStyle::Normal, "Commit"@, short_commit(s.commit@, 8)),
            (RowStyle::Normal, "Installed"@, spec_elapsed_text(elapsed_since(now, s.installed_at))),
        ] + update_rows(st),
    }
}

/// Whether an update can be applied.
pub open spec fn has_update(st: Option<ModuleUpdateStatus>) -> bool {
    match st {
        Some(ModuleUpdateStatus::UpdateAvailable { .. }) => true,
        Some(ModuleUpdateStatus::NewerTagAvailable { .. }) => true,
        _ => false,
    }
}

/// The end of the overlay: the manifest's path when known, a blank line,
/// then the removal question or the action keys.
pub open spec fn tail_rows(ms: ModuleState, confirm_remove: bool) -> Seq<(RowStyle, Seq<char>, Seq<char>)> {
    (match ms.manifest_path {
        Some(p) => seq![blank(), (RowStyle::NoteWrapped, "Path"@, p@)],
        None => Seq::empty(),
    }) + seq![blank()] + if confirm_remove {
        seq![(RowStyle::Warning, "Remove module?"@, "[y]es  [n]o"@)]
    } else {
        seq![(RowStyle::Action, "[e]dit"@, if has_update(ms.update_status) {
            "[o]pen  [u]pdate  [r]emove"@
        } else {
            "[o]pen  [r]emove"@
        })]
    }
}

/// Every row of the overlay for module `ms`.
pub open spec fn spec_info_rows(
    ms: ModuleState,
    cleaned: u64,
    cleaned_text: Seq<char>,
    source: Option<SourceInfo>,
    now: u64,
    confirm_remove: bool,
) -> Seq<(RowStyle, Seq<char>, Seq<char>)> {
    field_rows(ms, cleaned, cleaned_text) + target_rows(ms.module@.targets) + source_rows(source, ms.update_status, now)
        + tail_rows(ms, confirm_remove)
}

/// Where shortening a commit to `n` bytes would cut a character.
pub open spec fn cuts_char(c: Seq<char>, n: nat) -> bool {
    utf8_len(c) > n && !is_char_boundary(c, n)
}

// ---------------------------------------------------------------------------
// Building the rows
// ---------------------------------------------------------------------------

fn push_row(rows: &mut Vec<InfoRow>, style: RowStyle, label: &str, value: String)
    ensures
        rows_view(final(rows)@) == rows_view(old(rows)@).push((style, label@, value@)),
{
    let ghost before = rows_view(rows@);
    rows.push(InfoRow { style, label: label.to_owned(), value });
    assert(rows_view(rows@) =~= before.push((style, label@, value@)));
}

fn width_of(c: char) -> (r: usize)
    ensures
        r == char_width(c),
{
    let n = c as u32;
    if n < 0x80 {
        1
    } else if n < 0x800 {
        2
    } else if n < 0x10000 {
        3
    } else {
        4
    }
}

proof fn lemma_utf8_prefix(c: Seq<char>, k: int)
    requires
        0 <= k <= c.len(),
    ensures
        utf8_len(c.take(k)) <= utf8_len(c),
    decreases c.len() - k,
{
    if k < c.len() {
        assert(c.take(k + 1).drop_last() =~= c.take(k));
        lemma_utf8_prefix(c, k + 1);
    } else {
        assert(c.take(k) =~= c);
    }
}

fn short_commit_of(c: &String, n: usize) -> (r: String)
    requires
        n <= 64,
    ensures
        r@ == short_commit(c@, n as nat),
{
    let cs = crate::text::chars_of(c.as_str());
    let mut total: usize = 0;
    let mut k: usize = 0;
    while k < cs.len() && total <= n
        invariant
            k <= cs@.len(),
            cs@ == c@,
            n <= 64,
            total <= n + 4,
            total == utf8_len(cs@.take(k as int)),
        decreases cs@.len() - k,
    {
        proof {
            assert(cs@.take(k + 1).drop_last() =~= cs@.take(k as int));
        }
        total = total + width_of(cs[k]);
        k = k + 1;
    }
    proof {
        lemma_utf8_prefix(cs@, k as int);
        if k == cs.len() {
            assert(cs@.take(k as int) =~= cs@);
        }
    }
    if total <= n {
        return c.clone();
    }
    let mut i: usize = 0;
    let mut used: usize = 0;
    while i < cs.len() && used + width_of(cs[i]) <= n
        invariant
            i <= cs@.len(),
            cs@ == c@,
            n <= 64,
            used <= n,
            fit_count(cs@, n as nat, i as int, used as nat) == fit_count(cs@, n as nat, 0, 0),
        decreases cs@.len() - i,
    {
        used = used + width_of(cs[i]);
        i = i + 1;
    }
    crate::text::string_of(&cs.as_slice()[0..i])
}

fn field_rows_of(ms: &ModuleState, cleaned: u64, cleaned_text: &str) -> (r: Vec<InfoRow>)
    ensures
        rows_view(r@) == field_rows(*ms, cleaned, cleaned_text@),
{
    let m = &ms.module;
    let mut rows: Vec<InfoRow> = Vec::new();
    push_row(&mut rows, RowStyle::Normal, "Name", m.name.clone());
    push_row(&mut rows, RowStyle::Normal, "Id", m.id.clone());
    push_row(&mut rows, RowStyle::Normal, "Version", m.version.clone());
    push_row(&mut rows, RowStyle::Normal, "Author", m.author.clone());
    push_row(&mut rows, RowStyle::Wrapped, "Description", m.description.clone());
    let platforms = join_parts(&m.platforms, ", ");
    push_row(&mut rows, RowStyle::Normal, "Platforms", platforms);
    let count = decimal_string(m.targets.len() as u64);
    push_row(&mut rows, RowStyle::Normal, "Targets", count);
    proof {
        assert(m@.platforms == m.platforms@.map_values(|s: String| s@));
        assert(m@.targets.len() == m.targets@.len());
    }
    if cleaned > 0 {
        push_row(&mut rows, RowStyle::Normal, "Cleaned", cleaned_text.to_owned());
    }
    assert(rows_view(rows@) =~= field_rows(*ms, cleaned, cleaned_text@));
    rows
}

fn badge_of(t: &Target) -> (r: String)
    ensures
        r@ == target_badge(t@),
{
    let manual = t.restore == RestoreKind::Manual;
    let risky = t.risk != RiskLevel::Safe;
    let mut r = String::new();
    if manual {
        crate::text::push_str(&mut r, "manual restore");
        if risky {
            crate::text::push_str(&mut r, ", ");
        }
    }
    if risky {
        crate::text::push_str(&mut r, t.risk.as_str());
        crate::text::push_str(&mut r, " risk");
    }
    proof {
        reveal_strlit("manual restore");
        reveal_strlit(", ");
        reveal_strlit("manual restore, ");
    }
    assert(r@ =~= target_badge(t@));
    r
}

fn target_rows_of(ts: &Vec<Target>) -> (r: Vec<InfoRow>)
    ensures
        rows_view(r@) == target_rows(ts@.map_values(|t: Target| t@)),
{
    let ghost tv = ts@.map_values(|t: Target| t@);
    let mut lines: Vec<InfoRow> = Vec::new();
    let mut any = false;
    let mut i: usize = 0;
    while i < ts.len()
        invariant
            i <= ts@.len(),
            tv == ts@.map_values(|t: Target| t@),
            rows_view(lines@) == care_lines(tv.take(i as int)),
            any == exists|k: int| 0 <= k < i && needs_care(#[trigger] tv[k]),
        decreases ts@.len() - i,
    {
        let t = &ts[i];
        proof {
            assert(tv.take(i + 1).drop_last() =~= tv.take(i as int));
            assert(tv.take(i + 1).last() == t@);
            assert(tv[i as int] == t@);
        }
        let care = t.restore != RestoreKind::Auto || t.restore_steps.is_some() || t.risk != RiskLevel::Safe;
        if care {
            any = true;
            let style = if t.risk == RiskLevel::Medium || t.risk == RiskLevel::High {
                RowStyle::Warning
            } else {
                RowStyle::Normal
            };
            let label = match &t.description {
                Some(d) => d.clone(),
                None => if t.paths.len() > 0 {
                    t.paths[0].clone()
                } else {
                    "?".to_owned()
                },
            };
            let ghost before = rows_view(lines@);
            lines.push(InfoRow { style, label, value: badge_of(t) });
            match &t.restore_steps {
                Some(s) => {
                    let mut v = String::new();
                    crate::text::push_str(&mut v, "\u{21b3} ");
                    crate::text::push_str(&mut v, s.as_str());
                    lines.push(InfoRow { style: RowStyle::Note, label: String::new(), value: v });
                },
                None => {},
            }
            assert(rows_view(lines@) =~= before + target_lines(t@));
        }
        assert(rows_view(lines@) =~= care_lines(tv.take(i + 1)));
        i = i + 1;
    }
    assert(tv.take(ts@.len() as int) =~= tv);
    if any {
        let mut rows: Vec<InfoRow> = Vec::new();
        rows.push(InfoRow { style: RowStyle::Normal, label: String::new(), value: String::new() });
        let ghost head = rows_view(rows@);
        assert(head =~= seq![blank()]);
        let ghost body = rows_view(lines@);
        rows.append(&mut lines);
        assert(rows_view(rows@) =~= head + body);
        rows
    } else {
        assert(rows_view(Seq::<InfoRow>::empty()) =~= Seq::<(RowStyle, Seq<char>, Seq<char>)>::empty());
        Vec::new()
    }
}

fn update_rows_of(st: &Option<ModuleUpdateStatus>) -> (r: Vec<InfoRow>)
    ensures
        rows_view(r@) == update_rows(*st),
{
    let mut rows: Vec<InfoRow> = Vec::new();
    match st {
        None => push_row(&mut rows, RowStyle::Note, "Update", "checking...".to_owned()),
        Some(ModuleUpdateStatus::Checking) => push_row(&mut rows, RowStyle::Note, "Update", "checking...".to_owned()),
        Some(ModuleUpdateStatus::UpdateAvailable { new_commit }) => {
            let mut v = String::new();
            crate::text::push_str(&mut v, "available (");
            let short = short_commit_of(new_commit, 7);
            crate::text::push_str(&mut v, short.as_str());
            crate::text::push_str(&mut v, "), press [u] to update");
            push_row(&mut rows, RowStyle::Warning, "Update", v);
        },
        Some(ModuleUpdateStatus::NewerTagAvailable { current_tag, latest_tag }) => {
            let mut v = String::new();
            crate::text::push_str(&mut v, current_tag.as_str());
            crate::text::push_str(&mut v, " -> ");
            crate::text::push_str(&mut v, latest_tag.as_str());
            crate::text::push_str(&mut v, " available, press [u] to update");
            push_row(&mut rows, RowStyle::Warning, "Update", v);
        },
        Some(ModuleUpdateStatus::UpToDate) => push_row(&mut rows, RowStyle::Note, "Update", "up to date".to_owned()),
        Some(ModuleUpdateStatus::Skipped) => {},
        Some(ModuleUpdateStatus::Failed(_)) => {},
    }
    assert(rows_view(rows@) =~= update_rows(*st));
    rows
}

fn source_rows_of(source: &Option<SourceInfo>, st: &Option<ModuleUpdateStatus>, now: u64) -> (r: Vec<InfoRow>)
    ensures
        rows_view(r@) == source_rows(*source, *st, now),
{
    match source {
        None => {
            let r: Vec<InfoRow> = Vec::new();
            assert(rows_view(r@) =~= source_rows(*source, *st, now));
            r
        },
        Some(s) => {
            let mut rows: Vec<InfoRow> = Vec::new();
            push_row(&mut rows, RowStyle::Normal, "", String::new());
            push_row(&mut rows, RowStyle::Wrapped, "Repository", s.repository.clone());
            match &s.git_ref {
                Some(g) => push_row(&mut rows, RowStyle::Normal, "Ref", g.clone()),
                None => {},
            }
            push_row(&mut rows, RowStyle::Normal, "Commit", short_commit_of(&s.commit, 8));
            let secs = if now >= s.installed_at { now - s.installed_at } else { 0 };
            push_row(&mut rows, RowStyle::Normal, "Installed", elapsed_text(secs));
            let ghost head = rows_view(rows@);
            let mut upd = update_rows_of(st);
            let ghost tail = rows_view(upd@);
            rows.append(&mut upd);
            proof {
                reveal_strlit("");
                assert(""@ =~= Seq::<char>::empty());
            }
            assert(rows_view(rows@) =~= head + tail);
            assert(rows_view(rows@) =~= source_rows(*source, *st, now));
            rows
        },
    }
}

fn tail_rows_of(ms: &ModuleState, confirm_remove: bool) -> (r: Vec<InfoRow>)
    ensures
        rows_view(r@) == tail_rows(*ms, confirm_remove),
{
    let mut rows: Vec<InfoRow> = Vec::new();
    match &ms.manifest_path {
        Some(p) => {
            push_row(&mut rows, RowStyle::Normal, "", String::new());
            push_row(&mut rows, RowStyle::NoteWrapped, "Path", p.clone());
        },
        None => {},
    }
    push_row(&mut rows, RowStyle::Normal, "", String::new());
    if confirm_remove {
        push_row(&mut rows, RowStyle::Warning, "Remove module?", "[y]es  [n]o".to_owned());
    } else {
        let update = match &ms.update_status {
            Some(ModuleUpdateStatus::UpdateAvailable { .. }) => true,
            Some(ModuleUpdateStatus::NewerTagAvailable { .. }) => true,
            _ => false,
        };
        let keys = if update {
            "[o]pen  [u]pdate  [r]emove".to_owned()
        } else {
            "[o]pen  [r]emove".to_owned()
        };
        push_row(&mut rows, RowStyle::Action, "[e]dit", keys);
    }
    proof {
        reveal_strlit("");
        assert(""@ =~= Seq::<char>::empty());
    }
    assert(rows_view(rows@) =~= tail_rows(*ms, confirm_remove));
    rows
}

/// The rows of the information overlay of module `ms`: `cleaned` bytes were
/// freed from it so far (shown as `cleaned_text`), `source` is the record of
/// where it was installed from, `now` the current Unix time, and
/// `confirm_remove` whether its removal awaits an answer.
pub fn info_rows(
    ms: &ModuleState,
    cleaned: u64,
    cleaned_text: &str,
    source: &Option<SourceInfo>,
    now: u64,
    confirm_remove: bool,
) -> (r: Vec<InfoRow>)
    requires
        match source {
            Some(s) => !cuts_char(s.commit@, 8) && match ms.update_status {
                Some(ModuleUpdateStatus::UpdateAvailable { new_commit }) => !cuts_char(new_commit@, 7),
                _ => true,
            },
            None => true,
        },
    ensures
        rows_view(r@) == spec_info_rows(*ms, cleaned, cleaned_text@, *source, now, confirm_remove),
{
    let mut rows = field_rows_of(ms, cleaned, cleaned_text);
    let ghost a = rows_view(rows@);
    let mut t = target_rows_of(&ms.module.targets);
    let ghost b = rows_view(t@);
    proof {
        assert(ms.module.targets@.map_values(|t: Target| t@) == ms.module@.targets);
    }
    rows.append(&mut t);
    let mut s = source_rows_of(source, &ms.update_status, now);
    let ghost c = rows_view(s@);
    rows.append(&mut s);
    let mut e = tail_rows_of(ms, confirm_remove);
    let ghost d = rows_view(e@);
    rows.append(&mut e);
    assert(rows_view(rows@) =~= a + b + c + d);
    rows
}

// ---------------------------------------------------------------------------
// Wrapping a value
// ---------------------------------------------------------------------------

/// `s` cut into consecutive pieces of `w` characters (the last may be
/// shorter).
pub open spec fn chunks(s: Seq<char>, w: nat) -> Seq<Seq<char>>
    decreases s.len(),
{
    if s.len() == 0 || w == 0 {
        Seq::empty()
    } else if s.len() <= w {
        seq![s]
    } else {
        seq![s.take(w as int)] + chunks(s.skip(w as int), w)
    }
}

/// The lines a value takes in a column `width` wide: one line when the
/// width is zero or the value's UTF-8 length fits, else consecutive pieces
/// of `width` characters.
pub open spec fn spec_wrap_value(value: Seq<char>, width: nat) -> Seq<Seq<char>> {
    if width == 0 || utf8_len(value) <= width {
        seq![value]
    } else {
        chunks(value, width)
    }
}

/// Wraps a value to a column `width` wide.
pub fn wrap_value(value: &str, width: usize) -> (r: Vec<String>)
    requires
        utf8_len(value@) <= usize::MAX,
    ensures
        r@.map_values(|x: String| x@) == spec_wrap_value(value@, width as nat),
{
    let n = crate::session::utf8_length(value);
    if width == 0 || n <= width {
        let mut one: Vec<String> = Vec::new();
        one.push(value.to_owned());
        assert(one@.map_values(|x: String| x@) =~= seq![value@]);
        return one;
    }
    let cs = crate::text::chars_of(value);
    let mut out: Vec<String> = Vec::new();
    let mut start: usize = 0;
    assert(cs@.skip(0) =~= cs@);
    while start < cs.len()
        invariant
            start <= cs@.len(),
            cs@ == value@,
            width > 0,
            out@.map_values(|x: String| x@) + chunks(cs@.skip(start as int), width as nat) == chunks(cs@, width as nat),
        decreases cs@.len() - start,
    {
        let ghost rest = cs@.skip(start as int);
        let ghost prev = out@.map_values(|x: String| x@);
        if cs.len() - start <= width {
            let piece = crate::text::string_of(&cs.as_slice()[start..cs.len()]);
            out.push(piece);
            assert(cs@.subrange(start as int, cs@.len() as int) =~= rest);
            assert(out@.map_values(|x: String| x@) =~= prev.push(rest));
            assert(cs@.skip(cs@.len() as int) =~= Seq::<char>::empty());
            assert(chunks(rest, width as nat) == seq![rest]);
            assert(prev.push(rest) + chunks(cs@.skip(cs@.len() as int), width as nat) =~= prev + seq![rest]);
            start = cs.len();
        } else {
            let end = start + width;
            let piece = crate::text::string_of(&cs.as_slice()[start..end]);
            out.push(piece);
            assert(cs@.subrange(start as int, end as int) =~= rest.take(width as int));
            assert(rest.skip(width as int) =~= cs@.skip(end as int));
            assert(out@.map_values(|x: String| x@) =~= prev.push(rest.take(width as int)));
            assert(prev.push(rest.take(width as int)) + chunks(cs@.skip(end as int), width as nat)
                =~= prev + (seq![rest.take(width as int)] + chunks(rest.skip(width as int), width as nat)));
            start = end;
        }
    }
    assert(cs@.skip(start as int) =~= Seq::<char>::empty());
    assert(out@.map_values(|x: String| x@) + Seq::<Seq<char>>::empty() =~= out@.map_values(|x: String| x@));
    out
}

} // verus!
