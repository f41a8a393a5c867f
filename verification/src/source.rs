//! Source identifiers for installable modules: parsing of the accepted
//! spellings of git repositories and local paths, and the strings derived
//! from a parsed source.

use vstd::prelude::*;
use crate::path::{file_name, file_name_of};
use crate::text::{
    chars_eq, chars_of, contains_chars, count_char, count_char_vec, find_either_from, first_match,
    lemma_first_match, push_vec, seq_contains, seq_starts_with, slice_vec, split_first,
    split_first_vec, string_of, strip_prefix, strip_prefix_vec, strip_suffix, strip_suffix_vec,
    trim_end_char, trim_end_char_vec, CharClass,
};

verus! {

/// Errors that can occur when parsing a source identifier.
#[derive(Debug)]
pub enum SourceError {
    InvalidFormat,
}

impl SourceError {
    /// The message shown for this error.
    pub fn message(&self) -> (r: String)
        ensures
            r@ == source_error_message(),
    {
        let m = "invalid source format: expected owner/repo, a git URL, or a local path";
        proof {
            reveal_strlit("invalid source format: expected owner/repo, a git URL, or a local path");
        }
        m.to_owned()
    }
}

pub open spec fn source_error_message() -> Seq<char> {
    "invalid source format: expected owner/repo, a git URL, or a local path"@
}

/// A parsed source identifier — either a git repo or a local directory path.
#[derive(Debug, Clone)]
pub enum SourceIdentifier {
    Git {
        host: String,
        owner: String,
        repo: String,
        git_ref: Option<String>,
        module_subdir: Option<String>,
    },
    Local { path: String },
}

/// A source identifier as plain values.
pub enum SourceView {
    Git {
        host: Seq<char>,
        owner: Seq<char>,
        repo: Seq<char>,
        git_ref: Option<Seq<char>>,
        module_subdir: Option<Seq<char>>,
    },
    Local { path: Seq<char> },
}

pub open spec fn opt_view(o: Option<String>) -> Option<Seq<char>> {
    match o {
        Some(s) => Some(s@),
        None => None,
    }
}

impl View for SourceIdentifier {
    type V = SourceView;

    open spec fn view(&self) -> SourceView {
        match self {
            SourceIdentifier::Git { host, owner, repo, git_ref, module_subdir } => SourceView::Git {
                host: host@,
                owner: owner@,
                repo: repo@,
                git_ref: opt_view(*git_ref),
                module_subdir: opt_view(*module_subdir),
            },
            SourceIdentifier::Local { path } => SourceView::Local { path: path@ },
        }
    }
}

pub open spec fn github_host() -> Seq<char> {
    seq!['g', 'i', 't', 'h', 'u', 'b', '.', 'c', 'o', 'm']
}

pub open spec fn github_prefix() -> Seq<char> {
    seq!['g', 'i', 't', 'h', 'u', 'b', ':']
}

pub open spec fn git_prefix() -> Seq<char> {
    seq!['g', 'i', 't', ':']
}

pub open spec fn https_prefix() -> Seq<char> {
    seq!['h', 't', 't', 'p', 's', ':', '/', '/']
}

pub open spec fn http_prefix() -> Seq<char> {
    seq!['h', 't', 't', 'p', ':', '/', '/']
}

pub open spec fn ssh_prefix() -> Seq<char> {
    seq!['g', 'i', 't', '@']
}

pub open spec fn git_suffix() -> Seq<char> {
    seq!['.', 'g', 'i', 't']
}

pub open spec fn local_prefix() -> Seq<char> {
    seq!['l', 'o', 'c', 'a', 'l', ':']
}

/// `rest` split at its first `c` into the part before and the non-empty
/// part after; `Some((rest, None))` without a `c`, `None` when the part
/// after is empty.
pub open spec fn split_optional(rest: Seq<char>, c: char) -> Option<(Seq<char>, Option<Seq<char>>)> {
    match split_first(rest, c) {
        Some((a, b)) => if b.len() == 0 {
            None
        } else {
            Some((a, Some(b)))
        },
        None => Some((rest, None)),
    }
}

/// `owner/repo[@ref][#module]` with a known host.
pub open spec fn spec_parse_owner_repo(host: Seq<char>, rest: Seq<char>) -> Result<SourceView, SourceError> {
    match split_optional(rest, '#') {
        None => Err(SourceError::InvalidFormat),
        Some((repo_part, module_subdir)) => match split_optional(repo_part, '@') {
            None => Err(SourceError::InvalidFormat),
            Some((owner_repo, git_ref)) => match split_first(owner_repo, '/') {
                None => Err(SourceError::InvalidFormat),
                Some((owner, repo)) => if owner.len() == 0 || repo.len() == 0 {
                    Err(SourceError::InvalidFormat)
                } else {
                    Ok(SourceView::Git { host, owner, repo, git_ref, module_subdir })
                },
            },
        },
    }
}

/// `host/owner/repo[@ref][#module]`; the repo part is everything after the
/// second `/`.
pub open spec fn spec_parse_host_owner_repo(rest: Seq<char>) -> Result<SourceView, SourceError> {
    match split_optional(rest, '#') {
        None => Err(SourceError::InvalidFormat),
        Some((main_part, module_subdir)) => match split_optional(main_part, '@') {
            None => Err(SourceError::InvalidFormat),
            Some((path_part, git_ref)) => match split_first(path_part, '/') {
                None => Err(SourceError::InvalidFormat),
                Some((host, r1)) => match split_first(r1, '/') {
                    None => Err(SourceError::InvalidFormat),
                    Some((owner, repo)) => if host.len() == 0 || owner.len() == 0 || repo.len() == 0 {
                        Err(SourceError::InvalidFormat)
                    } else {
                        Ok(SourceView::Git { host, owner, repo, git_ref, module_subdir })
                    },
                },
            },
        },
    }
}

/// `s` without trailing `/` and then without a `.git` suffix.
pub open spec fn trim_repo_path(s: Seq<char>) -> Seq<char> {
    let t = trim_end_char(s, '/');
    match strip_suffix(t, git_suffix()) {
        Some(u) => u,
        None => t,
    }
}

/// The part of `rest` before its first `@` or `#`.
pub open spec fn repo_head(rest: Seq<char>) -> Seq<char> {
    match first_match(rest, CharClass::Either('@', '#')) {
        Some(i) => rest.take(i),
        None => rest,
    }
}

/// Whether `s` reads as the `owner/repo` shorthand: exactly one `/`, no
/// leading `/`, `.` or `~`, no `://` and no `..`, and a non-empty owner and
/// repo.
pub open spec fn spec_looks_like_shorthand(s: Seq<char>) -> bool {
    &&& count_char(s, '/') == 1
    &&& !(s.len() > 0 && (s[0] == '/' || s[0] == '.' || s[0] == '~'))
    &&& !seq_contains(s, seq![':', '/', '/'])
    &&& !seq_contains(s, seq!['.', '.'])
    &&& match split_first(s, '/') {
        Some((owner, rest)) => owner.len() > 0 && repo_head(rest).len() > 0,
        None => false,
    }
}

/// What `SourceIdentifier::parse` gives for `s`.
pub open spec fn spec_parse_source(s: Seq<char>) -> Result<SourceView, SourceError> {
    match strip_prefix(s, github_prefix()) {
        Some(rest) => spec_parse_owner_repo(github_host(), rest),
        None => match strip_prefix(s, git_prefix()) {
            Some(rest) => spec_parse_host_owner_repo(rest),
            None => match (match strip_prefix(s, https_prefix()) {
                Some(r) => Some(r),
                None => strip_prefix(s, http_prefix()),
            }) {
                Some(rest) => spec_parse_host_owner_repo(trim_repo_path(rest)),
                None => match strip_prefix(s, ssh_prefix()) {
                    Some(rest) => match split_first(rest, ':') {
                        Some((host, path)) => if host.len() > 0 {
                            spec_parse_owner_repo(host, trim_repo_path(path))
                        } else {
                            Err(SourceError::InvalidFormat)
                        },
                        None => Err(SourceError::InvalidFormat),
                    },
                    None => if spec_looks_like_shorthand(s) {
                        spec_parse_owner_repo(github_host(), s)
                    } else {
                        Ok(SourceView::Local { path: s })
                    },
                },
            },
        },
    }
}

/// Whether an exec result agrees with a spec result.
pub open spec fn parse_agrees(r: Result<SourceIdentifier, SourceError>, v: Result<SourceView, SourceError>) -> bool {
    match (r, v) {
        (Ok(x), Ok(y)) => x@ == y,
        (Err(_), Err(_)) => true,
        _ => false,
    }
}

/// The provenance string: `github:owner/repo` for github.com,
/// `git:host/owner/repo` for other hosts, `local:path` for local paths.
pub open spec fn spec_repository_string(v: SourceView) -> Seq<char> {
    match v {
        SourceView::Git { host, owner, repo, .. } => if host == github_host() {
            github_prefix() + owner + seq!['/'] + repo
        } else {
            git_prefix() + host + seq!['/'] + owner + seq!['/'] + repo
        },
        SourceView::Local { path } => local_prefix() + path,
    }
}

/// The display form: the repository string of a git source (without the
/// `local:` marker for paths), followed by `@ref` and `#module` when present.
pub open spec fn spec_display(v: SourceView) -> Seq<char> {
    match v {
        SourceView::Git { host, owner, repo, git_ref, module_subdir } => {
            let base = if host == github_host() {
                github_prefix() + owner + seq!['/'] + repo
            } else {
                git_prefix() + host + seq!['/'] + owner + seq!['/'] + repo
            };
            let with_ref = match git_ref {
                Some(r) => base + seq!['@'] + r,
                None => base,
            };
            match module_subdir {
                Some(m) => with_ref + seq!['#'] + m,
                None => with_ref,
            }
        },
        SourceView::Local { path } => path,
    }
}

/// The clone URLs of a git source, HTTPS first, then SSH.
pub open spec fn spec_clone_urls(v: SourceView) -> Seq<Seq<char>> {
    match v {
        SourceView::Git { host, owner, repo, .. } => seq![
            https_prefix() + host + seq!['/'] + owner + seq!['/'] + repo + git_suffix(),
            ssh_prefix() + host + seq![':'] + owner + seq!['/'] + repo + git_suffix(),
        ],
        SourceView::Local { .. } => Seq::empty(),
    }
}

/// The directory name an install uses: the repo name, or a local path's file
/// name (`unknown` when it has none).
pub open spec fn spec_default_dir_name(v: SourceView) -> Seq<char> {
    match v {
        SourceView::Git { repo, .. } => repo,
        SourceView::Local { path } => match file_name(path) {
            Some(f) => f,
            None => seq!['u', 'n', 'k', 'n', 'o', 'w', 'n'],
        },
    }
}

fn lit_vec(cs: &[char]) -> (v: Vec<char>)
    ensures
        v@ == cs@,
{
    let v = slice_vec(cs, 0, cs.len());
    assert(cs@.subrange(0, cs@.len() as int) =~= cs@);
    v
}

fn github_host_vec() -> (v: Vec<char>)
    ensures
        v@ == github_host(),
{
    let v = lit_vec(&['g', 'i', 't', 'h', 'u', 'b', '.', 'c', 'o', 'm']);
    assert(v@ =~= github_host());
    v
}

fn split_optional_vec(rest: &[char], c: char) -> (r: Option<(Vec<char>, Option<Vec<char>>)>)
    ensures
        match (split_optional(rest@, c), r) {
            (Some(x), Some(y)) => y.0@ == x.0 && match (x.1, y.1) {
                (Some(a), Some(b)) => b@ == a,
                (None, None) => true,
                _ => false,
            },
            (None, None) => true,
            _ => false,
        },
{
    match split_first_vec(rest, c) {
        Some((a, b)) => {
            if b.len() == 0 {
                None
            } else {
                Some((a, Some(b)))
            }
        },
        None => Some((lit_vec(rest), None)),
    }
}

fn string_opt(o: Option<Vec<char>>) -> (r: Option<String>)
    ensures
        match (o, r) {
            (Some(a), Some(b)) => b@ == a@,
            (None, None) => true,
            _ => false,
        },
{
    match o {
        Some(v) => Some(string_of(v.as_slice())),
        None => None,
    }
}

fn parse_owner_repo(host: &[char], rest: &[char]) -> (r: Result<SourceIdentifier, SourceError>)
    ensures
        parse_agrees(r, spec_parse_owner_repo(host@, rest@)),
{
    let (repo_part, module_subdir) = match split_optional_vec(rest, '#') {
        Some(x) => x,
        None => return Err(SourceError::InvalidFormat),
    };
    let (owner_repo, git_ref) = match split_optional_vec(repo_part.as_slice(), '@') {
        Some(x) => x,
        None => return Err(SourceError::InvalidFormat),
    };
    let (owner, repo) = match split_first_vec(owner_repo.as_slice(), '/') {
        Some(x) => x,
        None => return Err(SourceError::InvalidFormat),
    };
    if owner.len() == 0 || repo.len() == 0 {
        return Err(SourceError::InvalidFormat);
    }
    Ok(SourceIdentifier::Git {
        host: string_of(host),
        owner: string_of(owner.as_slice()),
        repo: string_of(repo.as_slice()),
        git_ref: string_opt(git_ref),
        module_subdir: string_opt(module_subdir),
    })
}

fn parse_host_owner_repo(rest: &[char]) -> (r: Result<SourceIdentifier, SourceError>)
    ensures
        parse_agrees(r, spec_parse_host_owner_repo(rest@)),
{
    let (main_part, module_subdir) = match split_optional_vec(rest, '#') {
        Some(x) => x,
        None => return Err(SourceError::InvalidFormat),
    };
    let (path_part, git_ref) = match split_optional_vec(main_part.as_slice(), '@') {
        Some(x) => x,
        None => return Err(SourceError::InvalidFormat),
    };
    let (host, r1) = match split_first_vec(path_part.as_slice(), '/') {
        Some(x) => x,
        None => return Err(SourceError::InvalidFormat),
    };
    let (owner, repo) = match split_first_vec(r1.as_slice(), '/') {
        Some(x) => x,
        None => return Err(SourceError::InvalidFormat),
    };
    if host.len() == 0 || owner.len() == 0 || repo.len() == 0 {
        return Err(SourceError::InvalidFormat);
    }
    Ok(SourceIdentifier::Git {
        host: string_of(host.as_slice()),
        owner: string_of(owner.as_slice()),
        repo: string_of(repo.as_slice()),
        git_ref: string_opt(git_ref),
        module_subdir: string_opt(module_subdir),
    })
}

fn trim_repo_path_vec(s: &[char]) -> (r: Vec<char>)
    ensures
        r@ == trim_repo_path(s@),
{
    let t = trim_end_char_vec(s, '/');
    let suffix = ['.', 'g', 'i', 't'];
    assert(suffix@ =~= git_suffix());
    match strip_suffix_vec(t.as_slice(), &suffix) {
        Some(u) => u,
        None => t,
    }
}

/// Whether `s` reads as the `owner/repo` shorthand.
pub fn looks_like_shorthand(s: &[char]) -> (r: bool)
    ensures
        r == spec_looks_like_shorthand(s@),
{
    if count_char_vec(s, '/') != 1 {
        return false;
    }
    if s.len() > 0 && (s[0] == '/' || s[0] == '.' || s[0] == '~') {
        return false;
    }
    let scheme = [':', '/', '/'];
    assert(scheme@ =~= seq![':', '/', '/']);
    if contains_chars(s, &scheme) {
        return false;
    }
    let dots = ['.', '.'];
    assert(dots@ =~= seq!['.', '.']);
    if contains_chars(s, &dots) {
        return false;
    }
    match split_first_vec(s, '/') {
        Some((owner, rest)) => {
            proof {
                lemma_first_match(rest@, CharClass::Either('@', '#'));
                assert(rest@.skip(0) =~= rest@);
            }
            let head_len = match find_either_from(rest.as_slice(), 0, '@', '#') {
                Some(i) => i,
                None => rest.len(),
            };
            owner.len() > 0 && head_len > 0
        },
        None => false,
    }
}

impl SourceIdentifier {
    /// Parses a source string.
    ///
    /// Recognized formats:
    /// - `github:owner/repo[@ref][#module]` -> Git (github.com)
    /// - `git:host/owner/repo[@ref][#module]` -> Git
    /// - `https://host/owner/repo[.git][@ref][#module]` (or `http://`) -> Git
    /// - `git@host:owner/repo[.git][@ref][#module]` -> Git
    /// - `owner/repo[@ref][#module]` (shorthand, defaults to github.com) -> Git
    /// - Anything else -> Local (filesystem path)
    pub fn parse(s: &str) -> (r: Result<SourceIdentifier, SourceError>)
        ensures
            parse_agrees(r, spec_parse_source(s@)),
    {
        let cs = chars_of(s);
        let gh = ['g', 'i', 't', 'h', 'u', 'b', ':'];
        assert(gh@ =~= github_prefix());
        if let Some(rest) = strip_prefix_vec(cs.as_slice(), &gh) {
            let host = github_host_vec();
            return parse_owner_repo(host.as_slice(), rest.as_slice());
        }
        let git = ['g', 'i', 't', ':'];
        assert(git@ =~= git_prefix());
        if let Some(rest) = strip_prefix_vec(cs.as_slice(), &git) {
            return parse_host_owner_repo(rest.as_slice());
        }
        let https = ['h', 't', 't', 'p', 's', ':', '/', '/'];
        assert(https@ =~= https_prefix());
        let http = ['h', 't', 't', 'p', ':', '/', '/'];
        assert(http@ =~= http_prefix());
        let web = match strip_prefix_vec(cs.as_slice(), &https) {
            Some(r) => Some(r),
            None => strip_prefix_vec(cs.as_slice(), &http),
        };
        if let Some(rest) = web {
            let trimmed = trim_repo_path_vec(rest.as_slice());
            return parse_host_owner_repo(trimmed.as_slice());
        }
        let ssh = ['g', 'i', 't', '@'];
        assert(ssh@ =~= ssh_prefix());
        if let Some(rest) = strip_prefix_vec(cs.as_slice(), &ssh) {
            if let Some((host, path)) = split_first_vec(rest.as_slice(), ':') {
                let trimmed = trim_repo_path_vec(path.as_slice());
                if host.len() > 0 {
                    return parse_owner_repo(host.as_slice(), trimmed.as_slice());
                }
            }
            return Err(SourceError::InvalidFormat);
        }
        if looks_like_shorthand(cs.as_slice()) {
            let host = github_host_vec();
            return parse_owner_repo(host.as_slice(), cs.as_slice());
        }
        Ok(SourceIdentifier::Local { path: s.to_owned() })
    }

    /// Clone URLs in order of preference (HTTPS first, SSH fallback); none
    /// for a local path.
    pub fn clone_urls(&self) -> (r: Vec<String>)
        ensures
            r@.map_values(|u: String| u@) == spec_clone_urls(self@),
    {
        match self {
            SourceIdentifier::Git { host, owner, repo, .. } => {
                let h = chars_of(host.as_str());
                let o = chars_of(owner.as_str());
                let rp = chars_of(repo.as_str());
                let mut a = lit_vec(&['h', 't', 't', 'p', 's', ':', '/', '/']);
                push_vec(&mut a, h.as_slice());
                a.push('/');
                push_vec(&mut a, o.as_slice());
                a.push('/');
                push_vec(&mut a, rp.as_slice());
                push_vec(&mut a, &['.', 'g', 'i', 't']);
                let mut b = lit_vec(&['g', 'i', 't', '@']);
                push_vec(&mut b, h.as_slice());
                b.push(':');
                push_vec(&mut b, o.as_slice());
                b.push('/');
                push_vec(&mut b, rp.as_slice());
                push_vec(&mut b, &['.', 'g', 'i', 't']);
                let mut r: Vec<String> = Vec::new();
                r.push(string_of(a.as_slice()));
                r.push(string_of(b.as_slice()));
                proof {
                    let u = spec_clone_urls(self@);
                    assert(a@ =~= u[0]);
                    assert(b@ =~= u[1]);
                    assert(r@.map_values(|u: String| u@) =~= u);
                }
                r
            },
            SourceIdentifier::Local { .. } => {
                let r: Vec<String> = Vec::new();
                assert(r@.map_values(|u: String| u@) =~= spec_clone_urls(self@));
                r
            },
        }
    }

    /// The repository string for provenance tracking (stored in source.toml):
    /// `github:owner/repo` for github.com, `git:host/owner/repo` otherwise,
    /// `local:path` for a local path.
    pub fn repository_string(&self) -> (r: String)
        ensures
            r@ == spec_repository_string(self@),
    {
        match self {
            SourceIdentifier::Git { host, owner, repo, .. } => {
                let h = chars_of(host.as_str());
                let o = chars_of(owner.as_str());
                let rp = chars_of(repo.as_str());
                let gh = github_host_vec();
                let mut a: Vec<char>;
                if chars_eq(h.as_slice(), gh.as_slice()) {
                    a = lit_vec(&['g', 'i', 't', 'h', 'u', 'b', ':']);
                } else {
                    a = lit_vec(&['g', 'i', 't', ':']);
                    push_vec(&mut a, h.as_slice());
                    a.push('/');
                }
                push_vec(&mut a, o.as_slice());
                a.push('/');
                push_vec(&mut a, rp.as_slice());
                assert(a@ =~= spec_repository_string(self@));
                string_of(a.as_slice())
            },
            SourceIdentifier::Local { path } => {
                let mut a = lit_vec(&['l', 'o', 'c', 'a', 'l', ':']);
                let p = chars_of(path.as_str());
                push_vec(&mut a, p.as_slice());
                assert(a@ =~= spec_repository_string(self@));
                string_of(a.as_slice())
            },
        }
    }

    /// The display form: `github:owner/repo[@ref][#module]`,
    /// `git:host/owner/repo[@ref][#module]`, or the local path.
    pub fn to_display_string(&self) -> (r: String)
        ensures
            r@ == spec_display(self@),
    {
        match self {
            SourceIdentifier::Git { host, owner, repo, git_ref, module_subdir } => {
                let h = chars_of(host.as_str());
                let o = chars_of(owner.as_str());
                let rp = chars_of(repo.as_str());
                let gh = github_host_vec();
                let mut a: Vec<char>;
                if chars_eq(h.as_slice(), gh.as_slice()) {
                    a = lit_vec(&['g', 'i', 't', 'h', 'u', 'b', ':']);
                } else {
                    a = lit_vec(&['g', 'i', 't', ':']);
                    push_vec(&mut a, h.as_slice());
                    a.push('/');
                }
                push_vec(&mut a, o.as_slice());
                a.push('/');
                push_vec(&mut a, rp.as_slice());
                let ghost base = a@;
                match git_ref {
                    Some(r) => {
                        a.push('@');
                        let rc = chars_of(r.as_str());
                        push_vec(&mut a, rc.as_slice());
                    },
                    None => {},
                }
                let ghost with_ref = a@;
                match module_subdir {
                    Some(m) => {
                        a.push('#');
                        let mc = chars_of(m.as_str());
                        push_vec(&mut a, mc.as_slice());
                    },
                    None => {},
                }
                assert(a@ =~= spec_display(self@));
                string_of(a.as_slice())
            },
            SourceIdentifier::Local { path } => path.clone(),
        }
    }

    /// The directory basename to use when installing.
    pub fn default_dir_name(&self) -> (r: String)
        ensures
            r@ == spec_default_dir_name(self@),
    {
        match self {
            SourceIdentifier::Git { repo, .. } => repo.clone(),
            SourceIdentifier::Local { path } => {
                let p = chars_of(path.as_str());
                match file_name_of(p.as_slice()) {
                    Some(f) => string_of(f.as_slice()),
                    None => {
                        let u = ['u', 'n', 'k', 'n', 'o', 'w', 'n'];
                        assert(u@ =~= seq!['u', 'n', 'k', 'n', 'o', 'w', 'n']);
                        string_of(&u)
                    },
                }
            },
        }
    }

    /// The git ref, if any (Git only).
    pub fn git_ref(&self) -> (r: Option<&String>)
        ensures
            match self@ {
                SourceView::Git { git_ref, .. } => match (git_ref, r) {
                    (Some(a), Some(b)) => b@ == a,
                    (None, None) => true,
                    _ => false,
                },
                SourceView::Local { .. } => r is None,
            },
    {
        match self {
            SourceIdentifier::Git { git_ref, .. } => git_ref.as_ref(),
            SourceIdentifier::Local { .. } => None,
        }
    }

    /// The module path filter, if any (Git only).
    pub fn module_subdir(&self) -> (r: Option<&String>)
        ensures
            match self@ {
                SourceView::Git { module_subdir, .. } => match (module_subdir, r) {
                    (Some(a), Some(b)) => b@ == a,
                    (None, None) => true,
                    _ => false,
                },
                SourceView::Local { .. } => r is None,
            },
    {
        match self {
            SourceIdentifier::Git { module_subdir, .. } => module_subdir.as_ref(),
            SourceIdentifier::Local { .. } => None,
        }
    }
}

/// Whether `s` does not contain `c`.
pub open spec fn lacks(s: Seq<char>, c: char) -> bool {
    forall|i: int| 0 <= i < s.len() ==> #[trigger] s[i] != c
}

proof fn lemma_split_at_sep(a: Seq<char>, c: char, b: Seq<char>)
    requires
        lacks(a, c),
    ensures
        split_first(a + seq![c] + b, c) == Some((a, b)),
{
    let s = a + seq![c] + b;
    assert forall|j: int| 0 <= j < a.len() implies !crate::text::in_class(#[trigger] s[j], CharClass::Is(c)) by {
        assert(s[j] == a[j]);
    }
    assert(s[a.len() as int] == c);
    crate::text::lemma_first_match_is(s, CharClass::Is(c), a.len() as int);
    assert(s.take(a.len() as int) =~= a);
    assert(s.skip(a.len() as int + 1) =~= b);
}

proof fn lemma_split_absent(s: Seq<char>, c: char)
    requires
        lacks(s, c),
    ensures
        split_first(s, c) is None,
{
    assert forall|j: int| 0 <= j < s.len() implies !crate::text::in_class(#[trigger] s[j], CharClass::Is(c)) by {}
    crate::text::lemma_first_match_none(s, CharClass::Is(c));
}

/// A git source whose parts can be written into a repository string and
/// read back: non-empty host, owner and repo; no `/`, `@` or `#` in the host
/// or the owner; no `@` or `#` in the repo.
pub open spec fn round_trippable(host: Seq<char>, owner: Seq<char>, repo: Seq<char>) -> bool {
    &&& host.len() > 0 && owner.len() > 0 && repo.len() > 0
    &&& lacks(host, '/') && lacks(host, '@') && lacks(host, '#')
    &&& lacks(owner, '/') && lacks(owner, '@') && lacks(owner, '#')
    &&& lacks(repo, '@') && lacks(repo, '#')
}

/// Round trip: the repository string of a git source parses back to a
/// source with the same host, owner and repo (and no ref or module).
pub proof fn lemma_repository_string_round_trip(host: Seq<char>, owner: Seq<char>, repo: Seq<char>, git_ref: Option<Seq<char>>, module_subdir: Option<Seq<char>>)
    requires
        round_trippable(host, owner, repo),
    ensures
        spec_parse_source(spec_repository_string(SourceView::Git { host, owner, repo, git_ref, module_subdir }))
            == Ok::<SourceView, SourceError>(SourceView::Git { host, owner, repo, git_ref: None, module_subdir: None }),
{
    let v = SourceView::Git { host, owner, repo, git_ref, module_subdir };
    let s = spec_repository_string(v);
    let or = owner + seq!['/'] + repo;
    assert forall|i: int| 0 <= i < or.len() implies #[trigger] or[i] != '#' && or[i] != '@' by {
        if i < owner.len() {
            assert(or[i] == owner[i]);
        } else if i > owner.len() {
            assert(or[i] == repo[i - owner.len() - 1]);
        }
    }
    if host == github_host() {
        assert(s =~= github_prefix() + or);
        assert(s.subrange(0, 7) =~= github_prefix());
        assert(s.skip(7) =~= or);
        lemma_split_absent(or, '#');
        lemma_split_absent(or, '@');
        lemma_split_at_sep(owner, '/', repo);
    } else {
        let hor = host + seq!['/'] + or;
        assert(s =~= git_prefix() + hor);
        assert(s[3] == ':');
        assert(s.subrange(0, 7) != github_prefix()) by {
            assert(s.subrange(0, 7)[3] != github_prefix()[3]);
        }
        assert(s.subrange(0, 4) =~= git_prefix());
        assert(s.skip(4) =~= hor);
        assert forall|i: int| 0 <= i < hor.len() implies #[trigger] hor[i] != '#' && hor[i] != '@' by {
            if i < host.len() {
                assert(hor[i] == host[i]);
            } else if i > host.len() {
                assert(hor[i] == or[i - host.len() - 1]);
            }
        }
        lemma_split_absent(hor, '#');
        lemma_split_absent(hor, '@');
        lemma_split_at_sep(host, '/', or);
        lemma_split_at_sep(owner, '/', repo);
    }
}

/// What a split at the first `c` keeps: the part before holds no `c`, and
/// neither part holds a character that `s` lacks; without a split, `s` holds
/// no `c`.
proof fn lemma_split_parts(s: Seq<char>, c: char, x: char)
    ensures
        match split_first(s, c) {
            Some((a, b)) => lacks(a, c) && (lacks(s, x) ==> lacks(a, x) && lacks(b, x)),
            None => lacks(s, c),
        },
{
    crate::text::lemma_first_match(s, CharClass::Is(c));
    match first_match(s, CharClass::Is(c)) {
        Some(i) => {
            let a = s.take(i);
            let b = s.skip(i + 1);
            assert forall|k: int| 0 <= k < a.len() implies #[trigger] a[k] != c by {
                assert(a[k] == s[k]);
                assert(!crate::text::in_class(s[k], CharClass::Is(c)));
            }
            if lacks(s, x) {
                assert forall|k: int| 0 <= k < a.len() implies #[trigger] a[k] != x by {
                    assert(a[k] == s[k]);
                }
                assert forall|k: int| 0 <= k < b.len() implies #[trigger] b[k] != x by {
                    assert(b[k] == s[k + i + 1]);
                }
            }
        },
        None => {
            assert forall|k: int| 0 <= k < s.len() implies #[trigger] s[k] != c by {
                assert(!crate::text::in_class(s[k], CharClass::Is(c)));
            }
        },
    }
}

proof fn lemma_split_optional_parts(rest: Seq<char>, c: char, x: char)
    ensures
        match split_optional(rest, c) {
            Some((a, _)) => lacks(a, c) && (lacks(rest, x) ==> lacks(a, x)),
            None => true,
        },
{
    lemma_split_parts(rest, c, x);
}

/// The owner and repo of a parsed `owner/repo[@ref][#module]` hold no `@`
/// or `#`, and the owner no `/`.
proof fn lemma_owner_repo_clean(host: Seq<char>, rest: Seq<char>)
    ensures
        match spec_parse_owner_repo(host, rest) {
            Ok(SourceView::Git { owner, repo, .. }) => owner.len() > 0 && repo.len() > 0
                && lacks(owner, '/') && lacks(owner, '@') && lacks(owner, '#') && lacks(repo, '@') && lacks(repo, '#'),
            _ => true,
        },
{
    lemma_split_optional_parts(rest, '#', '#');
    if let Some((repo_part, _)) = split_optional(rest, '#') {
        lemma_split_optional_parts(repo_part, '@', '#');
        if let Some((owner_repo, _)) = split_optional(repo_part, '@') {
            lemma_split_parts(owner_repo, '/', '@');
            lemma_split_parts(owner_repo, '/', '#');
        }
    }
}

/// The host, owner and repo of a parsed `host/owner/repo[@ref][#module]`:
/// the host and owner hold no `/`, `@` or `#`, the repo no `@` or `#`.
proof fn lemma_host_owner_repo_clean(rest: Seq<char>)
    ensures
        match spec_parse_host_owner_repo(rest) {
            Ok(SourceView::Git { host, owner, repo, .. }) => round_trippable(host, owner, repo),
            _ => true,
        },
{
    lemma_split_optional_parts(rest, '#', '#');
    if let Some((main_part, _)) = split_optional(rest, '#') {
        lemma_split_optional_parts(main_part, '@', '#');
        if let Some((path_part, _)) = split_optional(main_part, '@') {
            lemma_split_parts(path_part, '/', '@');
            lemma_split_parts(path_part, '/', '#');
            if let Some((host, r1)) = split_first(path_part, '/') {
                lemma_split_parts(r1, '/', '@');
                lemma_split_parts(r1, '/', '#');
            }
        }
    }
}

/// Every git source that parsing gives, with a host free of `/`, `@` and
/// `#` (always so, but for the host of an `git@host:` address), writes a
/// repository string that parses back to the same host, owner and repo.
pub proof fn lemma_parsed_source_round_trips(s: Seq<char>)
    ensures
        match spec_parse_source(s) {
            Ok(SourceView::Git { host, owner, repo, git_ref, module_subdir }) =>
                lacks(host, '/') && lacks(host, '@') && lacks(host, '#') ==>
                spec_parse_source(spec_repository_string(SourceView::Git { host, owner, repo, git_ref, module_subdir }))
                    == Ok::<SourceView, SourceError>(SourceView::Git { host, owner, repo, git_ref: None, module_subdir: None }),
            _ => true,
        },
{
    let gh = github_host();
    assert(lacks(gh, '/') && lacks(gh, '@') && lacks(gh, '#')) by {
        assert forall|i: int| 0 <= i < gh.len() implies #[trigger] gh[i] != '/' && gh[i] != '@' && gh[i] != '#' by {}
    }
    match strip_prefix(s, github_prefix()) {
        Some(rest) => lemma_owner_repo_clean(gh, rest),
        None => match strip_prefix(s, git_prefix()) {
            Some(rest) => lemma_host_owner_repo_clean(rest),
            None => match (match strip_prefix(s, https_prefix()) {
                Some(r) => Some(r),
                None => strip_prefix(s, http_prefix()),
            }) {
                Some(rest) => lemma_host_owner_repo_clean(trim_repo_path(rest)),
                None => match strip_prefix(s, ssh_prefix()) {
                    Some(rest) => match split_first(rest, ':') {
                        Some((host, path)) => lemma_owner_repo_clean(host, trim_repo_path(path)),
                        None => {},
                    },
                    None => lemma_owner_repo_clean(gh, s),
                },
            },
        },
    }
    match spec_parse_source(s) {
        Ok(SourceView::Git { host, owner, repo, git_ref, module_subdir }) => {
            if lacks(host, '/') && lacks(host, '@') && lacks(host, '#') {
                assert(host.len() > 0);
                lemma_repository_string_round_trip(host, owner, repo, git_ref, module_subdir);
            }
        },
        _ => {},
    }
}

/// Provenance information written to `source.toml` alongside an installed module.
#[derive(Debug, Clone)]
pub struct SourceInfo {
    pub repository: String,
    pub git_ref: Option<String>,
    pub commit: String,
    pub path: Option<String>,
    pub installed_at: u64,
}

/// The `[source]` table of `source.toml`.
#[derive(Debug)]
pub struct SourceFile {
    pub source: SourceInfo,
}


/// The ref a source asks for (none for a local source).
pub open spec fn source_git_ref(v: SourceView) -> Option<Seq<char>> {
    match v {
        SourceView::Git { git_ref, .. } => git_ref,
        SourceView::Local { .. } => None,
    }
}

impl SourceIdentifier {
    /// The record written beside a module installed from this source: the
    /// repository string, the requested ref, the commit (empty when
    /// unknown), the module's directory within the source, and the time.
    pub fn make_source_info(&self, commit_sha: &Option<String>, path: Option<&str>, now: u64) -> (r: SourceInfo)
        ensures
            r.repository@ == spec_repository_string(self@),
            match (source_git_ref(self@), r.git_ref) {
                (Some(a), Some(b)) => b@ == a,
                (None, None) => true,
                _ => false,
            },
            r.commit@ == match commit_sha {
                Some(c) => c@,
                None => Seq::<char>::empty(),
            },
            match (path, r.path) {
                (Some(a), Some(b)) => b@ == a@,
                (None, None) => true,
                _ => false,
            },
            r.installed_at == now,
    {
        let commit = match commit_sha {
            Some(c) => c.clone(),
            None => String::new(),
        };
        let git_ref = match self.git_ref() {
            Some(g) => Some(g.clone()),
            None => None,
        };
        let p = match path {
            Some(x) => Some(x.to_owned()),
            None => None,
        };
        SourceInfo { repository: self.repository_string(), git_ref, commit, path: p, installed_at: now }
    }
}
} // verus!
