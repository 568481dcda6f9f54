//! Paths as sequences of components, and the one case-insensitive,
//! component-wise comparison every bar in the removal boundary uses.
//!
//! A path is read the way `std::path::Path::components` reads it: a leading
//! `/` is the root, repeated separators and interior `.` vanish, a trailing
//! separator changes nothing, and `..` is kept literally — never collapsed.
//! Comparisons are whole components, never raw strings, so `/tmp/keep` never
//! matches `/tmp/keepsake.txt`.

use crate::text::{
    chars_of, eq_ignore_ascii_case, eq_ignore_case, lower_chars, lowercase, seq_eq, split_char,
    split_on, string_of,
};
use vstd::prelude::*;

verus! {

/// A path, component by component. The root is the one-character component
/// `/`, which no other component can be.
pub type Parts = Seq<Seq<char>>;

pub open spec fn root_token() -> Seq<char> {
    seq!['/']
}

pub open spec fn cur_token() -> Seq<char> {
    seq!['.']
}

pub open spec fn parent_token() -> Seq<char> {
    seq!['.', '.']
}

pub open spec fn is_absolute(s: Seq<char>) -> bool {
    s.len() > 0 && s[0] == '/'
}

pub open spec fn pieces(s: Seq<char>) -> Parts {
    split_on(s, |c: char| c == '/')
}

pub open spec fn is_normal_piece(p: Seq<char>) -> bool {
    p.len() > 0 && p != cur_token()
}

pub open spec fn normal_pieces(ps: Parts) -> Parts
    decreases ps.len(),
{
    if ps.len() == 0 {
        Seq::empty()
    } else if is_normal_piece(ps.last()) {
        normal_pieces(ps.drop_last()).push(ps.last())
    } else {
        normal_pieces(ps.drop_last())
    }
}

/// `Path::components`, with the root spelled `/` and a leading `.` kept.
pub open spec fn components(s: Seq<char>) -> Parts {
    let ps = pieces(s);
    let lead = if is_absolute(s) {
        seq![root_token()]
    } else if ps.len() > 0 && ps[0] == cur_token() {
        seq![cur_token()]
    } else {
        Seq::empty()
    };
    lead + normal_pieces(ps)
}

/// Two components name the same directory on a case-insensitive volume.
pub open spec fn same_component(a: Seq<char>, b: Seq<char>) -> bool {
    lowercase(a) == lowercase(b)
}

/// `b` is a whole-component prefix of `a`, ignoring case.
pub open spec fn prefix_ci(a: Parts, b: Parts) -> bool {
    b.len() <= a.len() && forall|i: int| 0 <= i < b.len() ==> same_component(#[trigger] a[i], b[i])
}

/// `a` starts with `b`, component by component, ignoring case: what
/// `starts_with_case_insensitive` computes.
pub open spec fn starts_with_ci(a: Seq<char>, b: Seq<char>) -> bool {
    prefix_ci(components(a), components(b))
}

/// Mutual prefix: the same path, component for component, ignoring case.
pub open spec fn same_path(a: Parts, b: Parts) -> bool {
    prefix_ci(a, b) && prefix_ci(b, a)
}

pub open spec fn firmlink_prefixed(c: Parts) -> bool {
    &&& c.len() >= 4
    &&& c[0] == root_token()
    &&& same_component(c[1], "System"@)
    &&& same_component(c[2], "Volumes"@)
    &&& same_component(c[3], "Data"@)
}

/// Strip every leading `/System/Volumes/Data` (in any case): macOS firmlinks
/// the data volume there, and `realpath` does not collapse it.
pub open spec fn strip_firmlink(c: Parts) -> Parts
    decreases c.len(),
{
    if firmlink_prefixed(c) {
        strip_firmlink(seq![root_token()] + c.subrange(4, c.len() as int))
    } else {
        c
    }
}

pub open spec fn has_parent_dir(c: Parts) -> bool {
    exists|i: int| 0 <= i < c.len() && c[i] == parent_token()
}

/// `Path::parent`: nothing above the root or above an empty path.
pub open spec fn parent(c: Parts) -> Option<Parts> {
    if c.len() == 0 || c == seq![root_token()] {
        None
    } else {
        Some(c.drop_last())
    }
}

/// `Path::file_name`: the last component when it is an ordinary name.
pub open spec fn file_name(c: Parts) -> Option<Seq<char>> {
    if c.len() > 0 && c.last() != root_token() && c.last() != cur_token() && c.last()
        != parent_token() {
        Some(c.last())
    } else {
        None
    }
}

pub open spec fn last_dot(name: Seq<char>) -> Option<int> {
    if exists|i: int| 0 <= i < name.len() && name[i] == '.' {
        Some(
            choose|i: int|
                0 <= i < name.len() && name[i] == '.' && forall|j: int|
                    i < j < name.len() ==> name[j] != '.',
        )
    } else {
        None
    }
}

/// `Path::extension` of a file name: what follows its last `.`, unless that
/// dot is the first character (`.bashrc` has none).
pub open spec fn extension(name: Seq<char>) -> Option<Seq<char>> {
    match last_dot(name) {
        Some(i) => if i == 0 { None } else { Some(name.subrange(i + 1, name.len() as int)) },
        None => None,
    }
}

/// A path's name ends in `.<ext>`, with the extension compared ignoring
/// ASCII case.
pub open spec fn has_extension(c: Parts, ext: Seq<char>) -> bool {
    match file_name(c) {
        Some(name) => match extension(name) {
            Some(e) => eq_ignore_ascii_case(e, ext),
            None => false,
        },
        None => false,
    }
}

/// `Path::join`: an absolute tail replaces the base.
pub open spec fn join(base: Seq<char>, tail: Seq<char>) -> Seq<char> {
    if is_absolute(tail) {
        tail
    } else if base.len() == 0 || base.last() == '/' {
        base + tail
    } else {
        base + seq!['/'] + tail
    }
}

pub open spec fn join_parts(c: Parts) -> Seq<char>
    decreases c.len(),
{
    if c.len() == 0 {
        Seq::empty()
    } else if c.len() == 1 {
        c[0]
    } else {
        join_parts(c.drop_last()) + seq!['/'] + c.last()
    }
}

/// The path spelled from its components.
pub open spec fn render(c: Parts) -> Seq<char> {
    if c.len() > 0 && c[0] == root_token() {
        seq!['/'] + join_parts(c.drop_first())
    } else {
        join_parts(c)
    }
}

// ---------------------------------------------------------------------------
// Executable forms
// ---------------------------------------------------------------------------

pub open spec fn parts_view(v: Seq<Vec<char>>) -> Parts {
    v.map_values(|p: Vec<char>| p@)
}

pub proof fn lemma_parts_push(v: Seq<Vec<char>>, x: Vec<char>)
    ensures
        parts_view(v.push(x)) == parts_view(v).push(x@),
{
    assert(parts_view(v.push(x)) =~= parts_view(v).push(x@));
}

fn is_normal(p: &Vec<char>) -> (b: bool)
    ensures
        b == is_normal_piece(p@),
{
    if p.len() == 0 {
        return false;
    }
    if p.len() == 1 && p[0] == '.' {
        assert(p@ =~= cur_token());
        return false;
    }
    assert(p@.len() != 1 || p@[0] != '.');
    assert(p@ != cur_token()) by {
        if p@ == cur_token() {
            assert(p@[0] == '.');
        }
    }
    true
}

fn token(c: char) -> (r: Vec<char>)
    ensures
        r@ == seq![c],
{
    let mut r = Vec::new();
    r.push(c);
    assert(r@ =~= seq![c]);
    r
}

/// `Path::components` of `path`.
pub fn components_of(path: &str) -> (r: Vec<Vec<char>>)
    ensures
        parts_view(r@) == components(path@),
{
    let s = chars_of(path);
    let ps = split_char(&s, '/');
    let ghost pv = pieces(s@);
    assert(parts_view(ps@) == pv);
    proof {
        crate::text::lemma_split_nonempty(s@, |c: char| c == '/');
    }
    let mut out: Vec<Vec<char>> = Vec::new();
    if s.len() > 0 && s[0] == '/' {
        out.push(token('/'));
    } else {
        assert(ps@[0]@ == pv[0]);
        if ps[0].len() == 1 && ps[0][0] == '.' {
            out.push(token('.'));
            assert(pv[0] =~= cur_token());
        } else {
            assert(pv[0] != cur_token()) by {
                if pv[0] == cur_token() {
                    assert(pv[0][0] == '.');
                }
            }
        }
    }
    let ghost lead = parts_view(out@);
    let mut i: usize = 0;
    while i < ps.len()
        invariant
            parts_view(ps@) == pv,
            i <= ps.len(),
            parts_view(out@) == lead + normal_pieces(pv.subrange(0, i as int)),
        decreases ps.len() - i,
    {
        assert(ps@[i as int]@ == pv[i as int]);
        let ghost pre = pv.subrange(0, i + 1);
        proof {
            assert(pre.drop_last() =~= pv.subrange(0, i as int));
            assert(pre.last() == pv[i as int]);
        }
        if is_normal(&ps[i]) {
            let piece = crate::text::slice(&ps[i], 0, ps[i].len());
            proof {
                assert(piece@ =~= pv[i as int]);
            }
            let ghost before = out@;
            out.push(piece);
            proof {
                lemma_parts_push(before, piece);
                assert(parts_view(out@) =~= lead + normal_pieces(pre));
            }
        }
        i += 1;
    }
    assert(pv.subrange(0, pv.len() as int) =~= pv);
    proof {
        assert(parts_view(out@) =~= components(path@));
    }
    out
}

/// Same component, ignoring case.
pub fn same_component_exec(a: &[char], b: &[char]) -> (r: bool)
    ensures
        r == same_component(a@, b@),
{
    let x = lower_chars(a);
    let y = lower_chars(b);
    seq_eq(&x, &y)
}

pub fn parts_start_with(a: &Vec<Vec<char>>, b: &Vec<Vec<char>>) -> (r: bool)
    ensures
        r == prefix_ci(parts_view(a@), parts_view(b@)),
{
    let ghost av = parts_view(a@);
    let ghost bv = parts_view(b@);
    if b.len() > a.len() {
        return false;
    }
    let mut i: usize = 0;
    while i < b.len()
        invariant
            av == parts_view(a@),
            bv == parts_view(b@),
            b.len() <= a.len(),
            i <= b.len(),
            forall|j: int| 0 <= j < i ==> same_component(#[trigger] av[j], bv[j]),
        decreases b.len() - i,
    {
        assert(a@[i as int]@ == av[i as int] && b@[i as int]@ == bv[i as int]);
        if !same_component_exec(&a[i], &b[i]) {
            return false;
        }
        i += 1;
    }
    true
}

pub fn same_path_exec(a: &Vec<Vec<char>>, b: &Vec<Vec<char>>) -> (r: bool)
    ensures
        r == same_path(parts_view(a@), parts_view(b@)),
{
    parts_start_with(a, b) && parts_start_with(b, a)
}

/// True when `b` is a whole-component prefix of `a`, ignoring case — the
/// comparison every bar in the removal boundary goes through.
pub fn starts_with_case_insensitive(a: &str, b: &str) -> (r: bool)
    ensures
        r == starts_with_ci(a@, b@),
{
    let x = components_of(a);
    let y = components_of(b);
    parts_start_with(&x, &y)
}

fn literal_parts_equal(c: &Vec<char>, lit: &str) -> (r: bool)
    ensures
        r == same_component(c@, lit@),
{
    let l = chars_of(lit);
    same_component_exec(c, &l)
}

fn is_firmlink_prefixed(c: &Vec<Vec<char>>) -> (r: bool)
    ensures
        r == firmlink_prefixed(parts_view(c@)),
{
    let ghost cv = parts_view(c@);
    if c.len() < 4 {
        return false;
    }
    assert(c@[0]@ == cv[0] && c@[1]@ == cv[1] && c@[2]@ == cv[2] && c@[3]@ == cv[3]);
    let root = c[0].len() == 1 && c[0][0] == '/';
    assert(root == (cv[0] == root_token())) by {
        if cv[0] == root_token() {
            assert(cv[0][0] == '/');
        }
        if root {
            assert(cv[0] =~= root_token());
        }
    }
    root && literal_parts_equal(&c[1], "System") && literal_parts_equal(&c[2], "Volumes")
        && literal_parts_equal(&c[3], "Data")
}

/// Strip every leading `/System/Volumes/Data`.
pub fn strip_firmlink_exec(c: Vec<Vec<char>>) -> (r: Vec<Vec<char>>)
    ensures
        parts_view(r@) == strip_firmlink(parts_view(c@)),
    decreases c.len(),
{
    if is_firmlink_prefixed(&c) {
        let mut next: Vec<Vec<char>> = Vec::new();
        next.push(token('/'));
        let mut i: usize = 4;
        while i < c.len()
            invariant
                4 <= i <= c.len(),
                parts_view(next@) == seq![root_token()] + parts_view(c@).subrange(4, i as int),
            decreases c.len() - i,
        {
            let piece = crate::text::slice(&c[i], 0, c[i].len());
            proof {
                assert(piece@ =~= c@[i as int]@);
            }
            let ghost before = next@;
            next.push(piece);
            proof {
                lemma_parts_push(before, piece);
                assert(parts_view(next@) =~= seq![root_token()] + parts_view(c@).subrange(
                    4,
                    i + 1,
                ));
            }
            i += 1;
        }
        strip_firmlink_exec(next)
    } else {
        c
    }
}

pub fn has_parent_dir_exec(c: &Vec<Vec<char>>) -> (r: bool)
    ensures
        r == has_parent_dir(parts_view(c@)),
{
    let ghost cv = parts_view(c@);
    let mut i: usize = 0;
    while i < c.len()
        invariant
            cv == parts_view(c@),
            i <= c.len(),
            forall|j: int| 0 <= j < i ==> cv[j] != parent_token(),
        decreases c.len() - i,
    {
        assert(c@[i as int]@ == cv[i as int]);
        if c[i].len() == 2 && c[i][0] == '.' && c[i][1] == '.' {
            assert(cv[i as int] =~= parent_token());
            return true;
        }
        assert(cv[i as int] != parent_token()) by {
            if cv[i as int] == parent_token() {
                assert(cv[i as int][0] == '.' && cv[i as int][1] == '.');
            }
        }
        i += 1;
    }
    false
}

/// `Path::join`.
pub fn join_exec(base: &str, tail: &str) -> (r: String)
    ensures
        r@ == join(base@, tail@),
{
    let b = chars_of(base);
    let t = chars_of(tail);
    if t.len() > 0 && t[0] == '/' {
        return tail.to_owned();
    }
    let mut v = b;
    if !(v.len() == 0 || v[v.len() - 1] == '/') {
        v.push('/');
    }
    let mut tt = t;
    v.append(&mut tt);
    string_of(&v)
}

fn join_parts_exec(c: &Vec<Vec<char>>, from: usize) -> (r: Vec<char>)
    requires
        from <= c.len(),
    ensures
        r@ == join_parts(parts_view(c@).subrange(from as int, c.len() as int)),
{
    let ghost cv = parts_view(c@);
    let mut out: Vec<char> = Vec::new();
    let mut i = from;
    while i < c.len()
        invariant
            cv == parts_view(c@),
            from <= i <= c.len(),
            out@ == join_parts(cv.subrange(from as int, i as int)),
        decreases c.len() - i,
    {
        let ghost pre = cv.subrange(from as int, i + 1);
        proof {
            assert(pre.drop_last() =~= cv.subrange(from as int, i as int));
            assert(pre.last() == cv[i as int]);
            assert(c@[i as int]@ == cv[i as int]);
        }
        if i > from {
            out.push('/');
        }
        let mut piece = crate::text::slice(&c[i], 0, c[i].len());
        proof {
            assert(piece@ =~= cv[i as int]);
        }
        out.append(&mut piece);
        proof {
            if i == from {
                assert(pre.len() == 1);
                assert(out@ =~= join_parts(pre));
            } else {
                assert(out@ =~= join_parts(pre));
            }
        }
        i += 1;
    }
    out
}

/// The path spelled from its components.
pub fn render_exec(c: &Vec<Vec<char>>) -> (r: String)
    ensures
        r@ == render(parts_view(c@)),
{
    let ghost cv = parts_view(c@);
    if c.len() > 0 && c[0].len() == 1 && c[0][0] == '/' {
        assert(c@[0]@ == cv[0]);
        assert(cv[0] =~= root_token());
        let mut v = Vec::new();
        v.push('/');
        let mut rest = join_parts_exec(c, 1);
        proof {
            assert(cv.subrange(1, cv.len() as int) =~= cv.drop_first());
        }
        v.append(&mut rest);
        assert(v@ =~= render(cv));
        string_of(&v)
    } else {
        proof {
            if c.len() > 0 {
                assert(c@[0]@ == cv[0]);
                if cv[0] == root_token() {
                    assert(cv[0][0] == '/');
                }
            }
            assert(cv.subrange(0, cv.len() as int) =~= cv);
        }
        let v = join_parts_exec(c, 0);
        string_of(&v)
    }
}

pub fn parent_exec(c: &Vec<Vec<char>>) -> (r: Option<Vec<Vec<char>>>)
    ensures
        match r {
            Some(p) => parent(parts_view(c@)) == Some(parts_view(p@)),
            None => parent(parts_view(c@)) is None,
        },
{
    let ghost cv = parts_view(c@);
    if c.len() == 0 {
        return None;
    }
    if c.len() == 1 && c[0].len() == 1 && c[0][0] == '/' {
        assert(c@[0]@ == cv[0]);
        assert(cv[0] =~= root_token());
        assert(cv =~= seq![root_token()]);
        return None;
    }
    assert(cv != seq![root_token()]) by {
        if cv == seq![root_token()] {
            assert(cv.len() == 1);
            assert(c@[0]@ == cv[0]);
            assert(cv[0] == root_token());
            assert(cv[0].len() == 1);
            assert(cv[0][0] == '/');
        }
    }
    let mut p: Vec<Vec<char>> = Vec::new();
    let mut i: usize = 0;
    while i + 1 < c.len()
        invariant
            cv == parts_view(c@),
            c.len() >= 1,
            i + 1 <= c.len(),
            parts_view(p@) == cv.subrange(0, i as int),
        decreases c.len() - i,
    {
        let piece = crate::text::slice(&c[i], 0, c[i].len());
        proof {
            assert(piece@ =~= c@[i as int]@);
        }
        let ghost before = p@;
        p.push(piece);
        proof {
            lemma_parts_push(before, piece);
            assert(parts_view(p@) =~= cv.subrange(0, i + 1));
        }
        i += 1;
    }
    assert(cv.subrange(0, i as int) =~= cv.drop_last());
    Some(p)
}

pub fn file_name_exec(c: &Vec<Vec<char>>) -> (r: Option<Vec<char>>)
    ensures
        match r {
            Some(n) => file_name(parts_view(c@)) == Some(n@),
            None => file_name(parts_view(c@)) is None,
        },
{
    let ghost cv = parts_view(c@);
    if c.len() == 0 {
        return None;
    }
    let last = &c[c.len() - 1];
    assert(last@ == cv.last());
    let is_root = last.len() == 1 && last[0] == '/';
    let is_cur = last.len() == 1 && last[0] == '.';
    let is_parent = last.len() == 2 && last[0] == '.' && last[1] == '.';
    proof {
        if cv.last() == root_token() {
            assert(cv.last()[0] == '/');
        }
        if cv.last() == cur_token() {
            assert(cv.last()[0] == '.');
        }
        if cv.last() == parent_token() {
            assert(cv.last()[0] == '.' && cv.last()[1] == '.');
        }
        if is_root {
            assert(cv.last() =~= root_token());
        }
        if is_cur {
            assert(cv.last() =~= cur_token());
        }
        if is_parent {
            assert(cv.last() =~= parent_token());
        }
    }
    if is_root || is_cur || is_parent {
        None
    } else {
        Some(crate::text::slice(last, 0, last.len()))
    }
}

pub fn extension_exec(name: &[char]) -> (r: Option<Vec<char>>)
    ensures
        match r {
            Some(e) => extension(name@) == Some(e@),
            None => extension(name@) is None,
        },
{
    let mut i: usize = name.len();
    while i > 0
        invariant
            i <= name.len(),
            forall|j: int| i <= j < name.len() ==> name@[j] != '.',
        decreases i,
    {
        if name[i - 1] == '.' {
            let d = i - 1;
            proof {
                let k = choose|k: int|
                    0 <= k < name@.len() && name@[k] == '.' && forall|j: int|
                        k < j < name@.len() ==> name@[j] != '.';
                assert(k == d) by {
                    if k < d {
                        assert(name@[d as int] == '.');
                    } else if k > d {
                    }
                }
            }
            if d == 0 {
                return None;
            }
            return Some(crate::text::slice(name, d + 1, name.len()));
        }
        i -= 1;
    }
    None
}

/// Whether the path's name has extension `ext`, compared ignoring ASCII case.
pub fn has_extension_exec(c: &Vec<Vec<char>>, ext: &str) -> (r: bool)
    ensures
        r == has_extension(parts_view(c@), ext@),
{
    match file_name_exec(c) {
        Some(name) => match extension_exec(&name) {
            Some(e) => {
                let x = chars_of(ext);
                eq_ignore_case(&e, &x)
            },
            None => false,
        },
        None => false,
    }
}

} // verus!
