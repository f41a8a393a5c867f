//! Unix path semantics on plain strings: components, file names, parents,
//! prefixes and joining, as `std::path::Path` defines them for `/`-separated
//! paths.

use vstd::prelude::*;
use crate::text::{chars_eq, push_vec, slice_vec};

verus! {

/// The `/` separator.
pub open spec fn is_sep(c: char) -> bool {
    c == '/'
}

/// The normal and parent-directory components of `s`, which has no root and
/// no leading current-directory marker: the pieces between separators,
/// without empty pieces and without `.` pieces.
pub open spec fn body_components(s: Seq<char>) -> Seq<Seq<char>>
    decreases s.len(),
{
    if s.len() == 0 {
        Seq::empty()
    } else {
        let piece_end = match crate::text::first_match(s, crate::text::CharClass::Is('/')) {
            Some(i) => i,
            None => s.len() as int,
        };
        let piece = s.take(piece_end);
        let rest = if piece_end < s.len() { s.skip(piece_end + 1) } else { Seq::empty() };
        proof {
            crate::text::lemma_first_match(s, crate::text::CharClass::Is('/'));
        }
        let tail = body_components(rest);
        if piece.len() == 0 || piece == seq!['.'] {
            tail
        } else {
            seq![piece] + tail
        }
    }
}

/// The components of path `s`: `/` for the root, `.` for a leading
/// current-directory marker, then the pieces between separators without
/// empty and `.` pieces (`..` is kept).
pub open spec fn components(s: Seq<char>) -> Seq<Seq<char>> {
    if s.len() > 0 && s[0] == '/' {
        seq![seq!['/']] + body_components(s.skip(1))
    } else if s.len() > 0 && s[0] == '.' && (s.len() == 1 || s[1] == '/') {
        seq![seq!['.']] + body_components(s.skip(1))
    } else {
        body_components(s)
    }
}

/// Whether a component names an entry (not the root, `.` or `..`).
pub open spec fn is_normal_component(c: Seq<char>) -> bool {
    c != seq!['/'] && c != seq!['.'] && c != seq!['.', '.']
}

/// Two paths are equal when their components are.
pub open spec fn path_eq(a: Seq<char>, b: Seq<char>) -> bool {
    components(a) == components(b)
}

/// `Path::starts_with`: the components of `base` are a prefix of those of `p`.
pub open spec fn path_starts_with(p: Seq<char>, base: Seq<char>) -> bool {
    let cp = components(p);
    let cb = components(base);
    cb.len() <= cp.len() && cp.take(cb.len() as int) == cb
}

/// `Path::file_name`: the last component, when it names an entry.
pub open spec fn file_name(s: Seq<char>) -> Option<Seq<char>> {
    let cs = components(s);
    if cs.len() > 0 && is_normal_component(cs.last()) {
        Some(cs.last())
    } else {
        None
    }
}

/// Whether `a` is one of the paths `Path::ancestors` yields for `p` after
/// `p` itself: the components of `a` are a proper prefix of those of `p`,
/// and `a` is not the empty path above a rooted `p`.
pub open spec fn is_proper_ancestor(a: Seq<char>, p: Seq<char>) -> bool {
    let ca = components(a);
    let cp = components(p);
    ca.len() < cp.len() && cp.take(ca.len() as int) == ca && (ca.len() > 0 || cp[0] != seq!['/'])
}

/// The name of the parent directory of `p`: the file name of `p` without
/// its last component.
pub open spec fn parent_file_name(p: Seq<char>) -> Option<Seq<char>> {
    let cs = components(p);
    if cs.len() >= 2 && is_normal_component(cs[cs.len() - 2]) && cs.last() != seq!['/'] {
        Some(cs[cs.len() - 2])
    } else {
        None
    }
}

/// `PathBuf::join` for a relative or absolute `x`: an absolute `x` replaces
/// `base`; otherwise `x` is appended after a separator, unless `base` is
/// empty or already ends with one.
pub open spec fn join(base: Seq<char>, x: Seq<char>) -> Seq<char> {
    if x.len() > 0 && x[0] == '/' {
        x
    } else if base.len() == 0 || base.last() == '/' {
        base + x
    } else {
        base + seq!['/'] + x
    }
}

fn body_components_exec(s: &[char], start: usize) -> (r: Vec<Vec<char>>)
    requires
        start <= s@.len(),
    ensures
        r@.map_values(|v: Vec<char>| v@) == body_components(s@.skip(start as int)),
    decreases s@.len() - start,
{
    let n = s.len();
    if start == n {
        assert(s@.skip(start as int).len() == 0);
        let r: Vec<Vec<char>> = Vec::new();
        assert(r@.map_values(|v: Vec<char>| v@) =~= Seq::<Seq<char>>::empty());
        return r;
    }
    let ghost t = s@.skip(start as int);
    proof {
        crate::text::lemma_first_match(t, crate::text::CharClass::Is('/'));
    }
    let found = crate::text::find_char_from(s, start, '/');
    let piece_end = match found {
        Some(i) => i,
        None => n,
    };
    let piece = slice_vec(s, start, piece_end);
    let next = if piece_end < n { piece_end + 1 } else { n };
    proof {
        assert(piece@ =~= t.take(piece_end - start));
        if piece_end < n {
            assert(t.skip(piece_end - start + 1) =~= s@.skip(next as int));
        } else {
            assert(s@.skip(next as int) =~= Seq::<char>::empty());
        }
    }
    let tail = body_components_exec(s, next);
    let dot = ['.'];
    if piece.len() == 0 || chars_eq(piece.as_slice(), &dot) {
        assert(dot@ =~= seq!['.']);
        tail
    } else {
        assert(dot@ =~= seq!['.']);
        let mut r: Vec<Vec<char>> = Vec::new();
        r.push(piece);
        let mut tl = tail;
        let ghost tv = tl@.map_values(|v: Vec<char>| v@);
        r.append(&mut tl);
        assert(r@.map_values(|v: Vec<char>| v@) =~= seq![piece@] + tv);
        r
    }
}

/// The components of `s`.
pub fn components_of(s: &[char]) -> (r: Vec<Vec<char>>)
    ensures
        r@.map_values(|v: Vec<char>| v@) == components(s@),
{
    if s.len() > 0 && s[0] == '/' {
        let mut r: Vec<Vec<char>> = Vec::new();
        let mut root: Vec<char> = Vec::new();
        root.push('/');
        r.push(root);
        let mut tail = body_components_exec(s, 1);
        let ghost tv = tail@.map_values(|v: Vec<char>| v@);
        r.append(&mut tail);
        assert(r@.map_values(|v: Vec<char>| v@) =~= seq![seq!['/']] + tv);
        r
    } else if s.len() > 0 && s[0] == '.' && (s.len() == 1 || s[1] == '/') {
        let mut r: Vec<Vec<char>> = Vec::new();
        let mut dot: Vec<char> = Vec::new();
        dot.push('.');
        r.push(dot);
        let mut tail = body_components_exec(s, 1);
        let ghost tv = tail@.map_values(|v: Vec<char>| v@);
        r.append(&mut tail);
        assert(r@.map_values(|v: Vec<char>| v@) =~= seq![seq!['.']] + tv);
        r
    } else {
        assert(s@.skip(0) =~= s@);
        body_components_exec(s, 0)
    }
}

fn is_normal_exec(c: &[char]) -> (r: bool)
    ensures
        r == is_normal_component(c@),
{
    let root = ['/'];
    let dot = ['.'];
    let dotdot = ['.', '.'];
    assert(root@ =~= seq!['/']);
    assert(dot@ =~= seq!['.']);
    assert(dotdot@ =~= seq!['.', '.']);
    !chars_eq(c, &root) && !chars_eq(c, &dot) && !chars_eq(c, &dotdot)
}

/// `Path::file_name` of `s`.
pub fn file_name_of(s: &[char]) -> (r: Option<Vec<char>>)
    ensures
        match file_name(s@) {
            Some(f) => r is Some && r->0@ == f,
            None => r is None,
        },
{
    let cs = components_of(s);
    let ghost cv = cs@.map_values(|v: Vec<char>| v@);
    if cs.len() > 0 {
        let last = cs.len() - 1;
        assert(cv[last as int] == cs@[last as int]@);
        if is_normal_exec(cs[last].as_slice()) {
            return Some(cs[last].clone());
        }
    }
    None
}

/// The file name of the parent directory of `s`.
pub fn parent_file_name_of(s: &[char]) -> (r: Option<Vec<char>>)
    ensures
        match parent_file_name(s@) {
            Some(f) => r is Some && r->0@ == f,
            None => r is None,
        },
{
    let cs = components_of(s);
    let ghost cv = cs@.map_values(|v: Vec<char>| v@);
    if cs.len() >= 2 {
        let k = cs.len() - 2;
        let last = cs.len() - 1;
        assert(cv[k as int] == cs@[k as int]@);
        assert(cv[last as int] == cs@[last as int]@);
        let root = ['/'];
        assert(root@ =~= seq!['/']);
        if is_normal_exec(cs[k].as_slice()) && !chars_eq(cs[last].as_slice(), &root) {
            return Some(cs[k].clone());
        }
    }
    None
}

/// Whether two component lists are equal.
fn components_eq(a: &Vec<Vec<char>>, b: &Vec<Vec<char>>, n: usize) -> (r: bool)
    requires
        n <= a@.len(),
        n <= b@.len(),
    ensures
        r == (a@.map_values(|v: Vec<char>| v@).take(n as int) == b@.map_values(|v: Vec<char>| v@).take(n as int)),
{
    let ghost av = a@.map_values(|v: Vec<char>| v@);
    let ghost bv = b@.map_values(|v: Vec<char>| v@);
    let mut i: usize = 0;
    while i < n
        invariant
            n <= a@.len(),
            n <= b@.len(),
            av == a@.map_values(|v: Vec<char>| v@),
            bv == b@.map_values(|v: Vec<char>| v@),
            i <= n,
            forall|j: int| 0 <= j < i ==> av[j] == bv[j],
        decreases n - i,
    {
        if !chars_eq(a[i].as_slice(), b[i].as_slice()) {
            assert(av.take(n as int)[i as int] != bv.take(n as int)[i as int]);
            return false;
        }
        i = i + 1;
    }
    assert(av.take(n as int) =~= bv.take(n as int));
    true
}

/// Whether two paths are equal component by component.
pub fn path_eq_exec(a: &[char], b: &[char]) -> (r: bool)
    ensures
        r == path_eq(a@, b@),
{
    let ca = components_of(a);
    let cb = components_of(b);
    if ca.len() != cb.len() {
        return false;
    }
    let r = components_eq(&ca, &cb, ca.len());
    proof {
        let av = ca@.map_values(|v: Vec<char>| v@);
        let bv = cb@.map_values(|v: Vec<char>| v@);
        assert(av.take(av.len() as int) =~= av);
        assert(bv.take(bv.len() as int) =~= bv);
    }
    r
}

/// `Path::starts_with`.
pub fn path_starts_with_exec(p: &[char], base: &[char]) -> (r: bool)
    ensures
        r == path_starts_with(p@, base@),
{
    let cp = components_of(p);
    let cb = components_of(base);
    if cb.len() > cp.len() {
        return false;
    }
    let r = components_eq(&cp, &cb, cb.len());
    proof {
        let bv = cb@.map_values(|v: Vec<char>| v@);
        assert(bv.take(bv.len() as int) =~= bv);
    }
    r
}

/// Whether `a` is a proper ancestor of `p`.
pub fn is_proper_ancestor_exec(a: &[char], p: &[char]) -> (r: bool)
    ensures
        r == is_proper_ancestor(a@, p@),
{
    let ca = components_of(a);
    let cp = components_of(p);
    if ca.len() >= cp.len() {
        return false;
    }
    let same = components_eq(&cp, &ca, ca.len());
    proof {
        let av = ca@.map_values(|v: Vec<char>| v@);
        assert(av.take(av.len() as int) =~= av);
    }
    if !same {
        return false;
    }
    if ca.len() > 0 {
        return true;
    }
    let root = ['/'];
    assert(root@ =~= seq!['/']);
    proof {
        let pv = cp@.map_values(|v: Vec<char>| v@);
        assert(pv[0] == cp@[0]@);
    }
    !chars_eq(cp[0].as_slice(), &root)
}

/// `PathBuf::join`.
pub fn join_exec(base: &[char], x: &[char]) -> (r: Vec<char>)
    ensures
        r@ == join(base@, x@),
{
    if x.len() > 0 && x[0] == '/' {
        return slice_vec(x, 0, x.len());
    }
    let mut r = slice_vec(base, 0, base.len());
    if !(base.len() == 0 || base[base.len() - 1] == '/') {
        r.push('/');
    }
    push_vec(&mut r, x);
    proof {
        assert(base@.subrange(0, base@.len() as int) =~= base@);
        if base@.len() > 0 {
            assert(base@.last() == base@[base@.len() - 1]);
        }
    }
    r
}

/// Components written out with `/` between them.
pub open spec fn sep_joined(cs: Seq<Seq<char>>) -> Seq<char>
    decreases cs.len(),
{
    if cs.len() == 0 {
        Seq::empty()
    } else if cs.len() == 1 {
        cs[0]
    } else {
        sep_joined(cs.drop_last()) + seq!['/'] + cs.last()
    }
}

/// The path made of the components `cs`.
pub open spec fn path_of(cs: Seq<Seq<char>>) -> Seq<char> {
    if cs.len() > 0 && cs[0] == seq!['/'] {
        seq!['/'] + sep_joined(cs.skip(1))
    } else {
        sep_joined(cs)
    }
}

/// `Path::parent`, as a path of the same components: the path without its
/// last component, unless that is the root or there is none.
pub open spec fn parent_path(p: Seq<char>) -> Option<Seq<char>> {
    let cs = components(p);
    if cs.len() > 0 && cs.last() != seq!['/'] {
        Some(path_of(cs.drop_last()))
    } else {
        None
    }
}

fn sep_joined_exec(cs: &Vec<Vec<char>>, from: usize, to: usize) -> (r: Vec<char>)
    requires
        from <= to <= cs@.len(),
    ensures
        r@ == sep_joined(cs@.map_values(|v: Vec<char>| v@).subrange(from as int, to as int)),
{
    let ghost cv = cs@.map_values(|v: Vec<char>| v@);
    let mut r: Vec<char> = Vec::new();
    let mut i: usize = from;
    while i < to
        invariant
            from <= i <= to <= cs@.len(),
            cv == cs@.map_values(|v: Vec<char>| v@),
            r@ == sep_joined(cv.subrange(from as int, i as int)),
        decreases to - i,
    {
        let ghost t = cv.subrange(from as int, i + 1);
        proof {
            assert(t.drop_last() =~= cv.subrange(from as int, i as int));
            assert(t.last() == cs@[i as int]@);
        }
        if i > from {
            r.push('/');
        }
        push_vec(&mut r, cs[i].as_slice());
        i = i + 1;
    }
    r
}

/// The parent of `s`, as `Path::parent` gives it (up to equal components).
pub fn parent_of(s: &[char]) -> (r: Option<Vec<char>>)
    ensures
        match (parent_path(s@), r) {
            (Some(a), Some(b)) => b@ == a,
            (None, None) => true,
            _ => false,
        },
{
    let cs = components_of(s);
    let ghost cv = cs@.map_values(|v: Vec<char>| v@);
    let n = cs.len();
    if n == 0 {
        return None;
    }
    let root = ['/'];
    assert(root@ =~= seq!['/']);
    assert(cv[n - 1] == cs@[n - 1]@);
    if chars_eq(cs[n - 1].as_slice(), &root) {
        return None;
    }
    let ghost d = cv.drop_last();
    if n - 1 > 0 && chars_eq(cs[0].as_slice(), &root) {
        assert(cv[0] == cs@[0]@);
        let rest = sep_joined_exec(&cs, 1, n - 1);
        let mut r: Vec<char> = Vec::new();
        r.push('/');
        push_vec(&mut r, rest.as_slice());
        assert(cv.subrange(1, n - 1) =~= d.skip(1));
        assert(r@ =~= path_of(d));
        Some(r)
    } else {
        let r = sep_joined_exec(&cs, 0, n - 1);
        assert(cv.subrange(0, n - 1) =~= d);
        proof {
            if d.len() > 0 {
                assert(cv[0] == cs@[0]@);
            }
        }
        Some(r)
    }
}

} // verus!
