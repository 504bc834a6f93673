//! `/`-separated relative paths as character sequences.
//!
//! A path's components are its `/`-separated pieces without empty pieces and
//! without `.` pieces, except that a leading `.` stays (as `Path::components`
//! reports a leading current-dir component). `..` is a parent component; every
//! other component is a normal one.
use crate::text::{chars_eq, chars_of, copy_range, eq_str, join, join_of, split_char, split_char_of, views};
use vstd::prelude::*;

verus! {

broadcast use vstd::string::group_string_axioms;

pub open spec fn dot() -> Seq<char> {
    seq!['.']
}

pub open spec fn dotdot() -> Seq<char> {
    seq!['.', '.']
}

/// A normal (named) component.
pub open spec fn is_normal(c: Seq<char>) -> bool {
    c != dot() && c != dotdot()
}

/// Pieces that survive as components anywhere: non-empty and not `.`.
pub open spec fn drop_empty_dots(ps: Seq<Seq<char>>) -> Seq<Seq<char>>
    decreases ps.len(),
{
    if ps.len() == 0 {
        seq![]
    } else {
        let rest = drop_empty_dots(ps.drop_last());
        if ps.last().len() > 0 && ps.last() != dot() {
            rest.push(ps.last())
        } else {
            rest
        }
    }
}

/// Components of a path.
pub open spec fn comps(p: Seq<char>) -> Seq<Seq<char>> {
    let ps = split_char(p, '/');
    if ps.len() > 0 && ps[0] == dot() {
        seq![dot()] + drop_empty_dots(ps)
    } else {
        drop_empty_dots(ps)
    }
}

/// Normal components only.
pub open spec fn normals(cs: Seq<Seq<char>>) -> Seq<Seq<char>>
    decreases cs.len(),
{
    if cs.len() == 0 {
        seq![]
    } else {
        let rest = normals(cs.drop_last());
        if is_normal(cs.last()) {
            rest.push(cs.last())
        } else {
            rest
        }
    }
}

/// Number of normal components in the parent directory of `p`.
pub open spec fn depth(p: Seq<char>) -> nat {
    let cs = comps(p);
    if cs.len() == 0 {
        0
    } else {
        normals(cs.drop_last()).len()
    }
}

fn is_dot(c: &[char]) -> (r: bool)
    ensures
        r == (c@ == dot()),
{
    let r = c.len() == 1 && c[0] == '.';
    proof {
        if c@.len() == 1 && c@[0] == '.' {
            assert(c@ =~= dot());
        }
    }
    r
}

pub fn is_dotdot_exec(c: &[char]) -> (r: bool)
    ensures
        r == (c@ == dotdot()),
{
    let r = c.len() == 2 && c[0] == '.' && c[1] == '.';
    proof {
        if c@.len() == 2 && c@[0] == '.' && c@[1] == '.' {
            assert(c@ =~= dotdot());
        }
    }
    r
}

pub fn is_normal_exec(c: &[char]) -> (r: bool)
    ensures
        r == is_normal(c@),
{
    proof {
        if c@ == dot() {
            assert(c@.len() == 1);
        }
    }
    !is_dot(c) && !is_dotdot_exec(c)
}

fn copy_vec(v: &Vec<char>) -> (r: Vec<char>)
    ensures
        r@ == v@,
{
    copy_range(v, 0, v.len())
}

/// Components of a path, as character vectors.
pub fn comps_of(p: &[char]) -> (r: Vec<Vec<char>>)
    ensures
        views(r@) == comps(p@),
{
    let ps = split_char_of(p, '/');
    let ghost pv = views(ps@);
    let mut out: Vec<Vec<char>> = Vec::new();
    let lead = is_dot(&ps[0]);
    if lead {
        out.push(copy_vec(&ps[0]));
    }
    let ghost base = views(out@);
    let mut i: usize = 0;
    proof {
        assert(pv.take(0) =~= Seq::<Seq<char>>::empty());
        assert(views(out@) =~= base + Seq::<Seq<char>>::empty());
    }
    while i < ps.len()
        invariant
            i <= ps@.len(),
            pv == views(ps@),
            views(out@) == base + drop_empty_dots(pv.take(i as int)),
        decreases ps@.len() - i,
    {
        let ghost prev = out@;
        if ps[i].len() > 0 && !is_dot(&ps[i]) {
            out.push(copy_vec(&ps[i]));
            proof {
                assert(views(out@) =~= views(prev).push(pv[i as int]));
            }
        }
        i = i + 1;
        proof {
            assert(pv.take(i as int).drop_last() =~= pv.take((i - 1) as int));
        }
    }
    proof {
        assert(pv.take(ps@.len() as int) =~= pv);
        if lead {
            assert(base =~= seq![dot()]);
        } else {
            assert(base =~= Seq::<Seq<char>>::empty());
            assert(views(out@) =~= drop_empty_dots(pv));
        }
    }
    out
}

/// Normal components of a component list.
pub fn normals_of(cs: &Vec<Vec<char>>, upto: usize) -> (r: Vec<Vec<char>>)
    requires
        upto <= cs@.len(),
    ensures
        views(r@) == normals(views(cs@).take(upto as int)),
{
    let ghost cv = views(cs@);
    let mut out: Vec<Vec<char>> = Vec::new();
    let mut i: usize = 0;
    proof {
        assert(cv.take(0) =~= Seq::<Seq<char>>::empty());
        assert(views(out@) =~= Seq::<Seq<char>>::empty());
    }
    while i < upto
        invariant
            i <= upto,
            upto <= cs@.len(),
            cv == views(cs@),
            views(out@) == normals(cv.take(i as int)),
        decreases upto - i,
    {
        let ghost prev = out@;
        if is_normal_exec(&cs[i]) {
            out.push(copy_vec(&cs[i]));
            proof {
                assert(views(out@) =~= views(prev).push(cv[i as int]));
            }
        }
        i = i + 1;
        proof {
            assert(cv.take(i as int).drop_last() =~= cv.take((i - 1) as int));
        }
    }
    out
}

/// Number of normal components in the parent directory of `p`.
pub fn depth_of(p: &[char]) -> (n: usize)
    ensures
        n == depth(p@),
{
    let cs = comps_of(p);
    if cs.len() == 0 {
        0
    } else {
        let ns = normals_of(&cs, cs.len() - 1);
        proof {
            assert(views(cs@).take(cs@.len() - 1) =~= views(cs@).drop_last());
        }
        ns.len()
    }
}


/// The pieces of `p` between `/`, without empty and `.` pieces: the
/// components `PathBuf::push` adds for `p` behind an existing path.
pub fn inner_comps_of(p: &[char]) -> (r: Vec<Vec<char>>)
    ensures
        views(r@) == drop_empty_dots(split_char(p@, '/')),
{
    let ps = split_char_of(p, '/');
    let ghost pv = views(ps@);
    let mut out: Vec<Vec<char>> = Vec::new();
    let mut i: usize = 0;
    proof {
        assert(pv.take(0) =~= Seq::<Seq<char>>::empty());
    }
    while i < ps.len()
        invariant
            i <= ps@.len(),
            pv == views(ps@),
            views(out@) == drop_empty_dots(pv.take(i as int)),
        decreases ps@.len() - i,
    {
        let ghost prev = out@;
        if ps[i].len() > 0 && !is_dot(&ps[i]) {
            out.push(copy_vec(&ps[i]));
            proof {
                assert(views(out@) =~= views(prev).push(pv[i as int]));
            }
        }
        i = i + 1;
        proof {
            assert(pv.take(i as int).drop_last() =~= pv.take((i - 1) as int));
        }
    }
    proof {
        assert(pv.take(ps@.len() as int) =~= pv);
    }
    out
}

// ───────────────────────── absolute paths and prefixes ─────────────────────────

/// Whether piece `k` of a path split at `/` is one of its components: not
/// empty, and not `.` unless it opens the path.
pub open spec fn comp_piece(ps: Seq<Seq<char>>, k: int) -> bool {
    ps[k].len() > 0 && (ps[k] != dot() || k == 0)
}

/// Indices, in order, of the component pieces among the first `n` pieces.
pub open spec fn comp_index(ps: Seq<Seq<char>>, n: int) -> Seq<int>
    decreases n,
{
    if n <= 0 {
        seq![]
    } else {
        let r = comp_index(ps, n - 1);
        if comp_piece(ps, n - 1) {
            r.push(n - 1)
        } else {
            r
        }
    }
}

/// The path starts at the root directory.
pub open spec fn rooted(p: Seq<char>) -> bool {
    p.len() > 0 && p[0] == '/'
}

/// The root directory, as a component.
pub open spec fn root_dir() -> Seq<char> {
    seq!['/']
}

/// A path's components in order: the root directory where there is one,
/// then its component pieces.
pub open spec fn path_components(p: Seq<char>) -> Seq<Seq<char>> {
    let ps = split_char(p, '/');
    let named = comp_index(ps, ps.len() as int).map_values(|k: int| ps[k]);
    if rooted(p) {
        seq![root_dir()] + named
    } else {
        named
    }
}

/// `base`'s components open `p`'s (`Path::starts_with`).
pub open spec fn has_path_prefix(p: Seq<char>, base: Seq<char>) -> bool {
    let b = path_components(base);
    let c = path_components(p);
    b.len() <= c.len() && c.take(b.len() as int) == b
}

/// What is left of `p` once `base`'s components are taken off its front
/// (`Path::strip_prefix`, where `has_path_prefix(p, base)`): the text from
/// the first remaining component to the last component, separators between
/// them kept as written. A `base` without components takes nothing off, so
/// a leading `/` or `.` stays.
pub open spec fn path_rest(p: Seq<char>, base: Seq<char>) -> Seq<char> {
    let ps = split_char(p, '/');
    let idx = comp_index(ps, ps.len() as int);
    let nb = path_components(base).len();
    if nb == 0 {
        if idx.len() == 0 {
            if rooted(p) {
                root_dir()
            } else {
                seq![]
            }
        } else {
            join(ps.subrange(0, idx.last() + 1), seq!['/'])
        }
    } else {
        let k = nb - (if rooted(p) {
            1int
        } else {
            0int
        });
        if k >= idx.len() {
            seq![]
        } else {
            join(ps.subrange(idx[k], idx.last() + 1), seq!['/'])
        }
    }
}

fn comp_pieces(ps: &Vec<Vec<char>>) -> (idx: Vec<usize>)
    ensures
        idx@.map_values(|k: usize| k as int) == comp_index(views(ps@), ps@.len() as int),
        forall|j: int| 0 <= j < idx@.len() ==> #[trigger] idx@[j] < ps@.len(),
        forall|i: int, j: int| 0 <= i < j < idx@.len() ==> idx@[i] < idx@[j],
{
    let ghost pv = views(ps@);
    let mut idx: Vec<usize> = Vec::new();
    let mut k: usize = 0;
    while k < ps.len()
        invariant
            k <= ps@.len(),
            pv == views(ps@),
            idx@.map_values(|j: usize| j as int) == comp_index(pv, k as int),
            forall|j: int| 0 <= j < idx@.len() ==> #[trigger] idx@[j] < k,
            forall|i: int, j: int| 0 <= i < j < idx@.len() ==> idx@[i] < idx@[j],
        decreases ps@.len() - k,
    {
        let ghost before = idx@;
        if ps[k].len() > 0 && (!is_dot(&ps[k]) || k == 0) {
            idx.push(k);
            proof {
                assert(idx@.map_values(|j: usize| j as int) =~= before.map_values(|j: usize| j as int).push(k as int));
            }
        }
        k = k + 1;
    }
    idx
}

/// A path's components (`path_components`), as character vectors.
pub fn path_components_of(p: &[char]) -> (r: Vec<Vec<char>>)
    ensures
        views(r@) == path_components(p@),
{
    let ps = split_char_of(p, '/');
    let ghost pv = views(ps@);
    let idx = comp_pieces(&ps);
    let ghost iv = idx@.map_values(|k: usize| k as int);
    let mut out: Vec<Vec<char>> = Vec::new();
    let root = p.len() > 0 && p[0] == '/';
    if root {
        let mut r: Vec<char> = Vec::new();
        r.push('/');
        out.push(r);
        proof {
            assert(views(out@) =~= seq![root_dir()]);
        }
    }
    let ghost lead = views(out@);
    let mut j: usize = 0;
    proof {
        assert(lead + iv.take(0).map_values(|k: int| pv[k]) =~= lead);
    }
    while j < idx.len()
        invariant
            j <= idx@.len(),
            pv == views(ps@),
            iv == idx@.map_values(|k: usize| k as int),
            forall|i: int| 0 <= i < idx@.len() ==> #[trigger] idx@[i] < ps@.len(),
            views(out@) == lead + iv.take(j as int).map_values(|k: int| pv[k]),
        decreases idx@.len() - j,
    {
        let ghost prev = out@;
        let k = idx[j];
        out.push(copy_vec(&ps[k]));
        proof {
            assert(views(out@) =~= views(prev).push(pv[k as int]));
            assert(iv.take(j + 1).map_values(|i: int| pv[i]) =~= iv.take(j as int).map_values(|i: int| pv[i]).push(pv[iv[j as int]]));
        }
        j = j + 1;
    }
    proof {
        assert(iv.take(idx@.len() as int) =~= iv);
        if !root {
            assert(lead =~= Seq::<Seq<char>>::empty());
            assert(views(out@) =~= iv.map_values(|k: int| pv[k]));
        }
    }
    out
}

/// Pieces `a..b` of a piece list.
fn sub_pieces(ps: &Vec<Vec<char>>, a: usize, b: usize) -> (r: Vec<Vec<char>>)
    requires
        a <= b <= ps@.len(),
    ensures
        views(r@) == views(ps@).subrange(a as int, b as int),
{
    let ghost pv = views(ps@);
    let mut out: Vec<Vec<char>> = Vec::new();
    let mut i: usize = a;
    proof {
        assert(pv.subrange(a as int, a as int) =~= views(out@));
    }
    while i < b
        invariant
            a <= i <= b <= ps@.len(),
            pv == views(ps@),
            views(out@) == pv.subrange(a as int, i as int),
        decreases b - i,
    {
        let ghost prev = out@;
        out.push(copy_vec(&ps[i]));
        proof {
            assert(views(out@) =~= views(prev).push(pv[i as int]));
            assert(pv.subrange(a as int, i + 1) =~= pv.subrange(a as int, i as int).push(pv[i as int]));
        }
        i = i + 1;
    }
    out
}

/// What is left of `p` once `base`'s components are taken off its front
/// (`path_rest`).
pub fn path_rest_of(p: &[char], base: &[char]) -> (r: Vec<char>)
    ensures
        r@ == path_rest(p@, base@),
{
    let ps = split_char_of(p, '/');
    let ghost pv = views(ps@);
    let idx = comp_pieces(&ps);
    let ghost iv = idx@.map_values(|k: usize| k as int);
    let bc = path_components_of(base);
    let nb = bc.len();
    let root = p.len() > 0 && p[0] == '/';
    let mut sep: Vec<char> = Vec::new();
    sep.push('/');
    proof {
        assert(views(bc@).len() == bc@.len());
        assert(iv.len() == idx@.len());
        assert(sep@ =~= seq!['/']);
    }
    if idx.len() == 0 {
        let mut r: Vec<char> = Vec::new();
        if nb == 0 && root {
            r.push('/');
            proof {
                assert(r@ =~= root_dir());
            }
        }
        return r;
    }
    let n = ps.len();
    let li = idx[idx.len() - 1];
    proof {
        assert(idx@[idx@.len() - 1] < ps@.len());
    }
    assert(li < n);
    let last = li + 1;
    let start: usize;
    if nb == 0 {
        start = 0;
    } else {
        let k = if root {
            nb - 1
        } else {
            nb
        };
        if k >= idx.len() {
            return Vec::new();
        }
        start = idx[k];
        proof {
            if k < idx@.len() - 1 {
                assert(idx@[k as int] < idx@[idx@.len() - 1]);
            }
        }
    }
    let sub = sub_pieces(&ps, start, last);
    proof {
        assert(iv.last() + 1 == last);
    }
    join_of(&sub, &sep)
}

/// Whether `base`'s components open `path`'s (`has_path_prefix`).
pub fn path_starts_with(path: &str, base: &str) -> (r: bool)
    ensures
        r == has_path_prefix(path@, base@),
{
    let pc = path_components_of(&chars_of(path));
    let bc = path_components_of(&chars_of(base));
    let ghost c = views(pc@);
    let ghost b = views(bc@);
    if bc.len() > pc.len() {
        return false;
    }
    let mut i: usize = 0;
    while i < bc.len()
        invariant
            i <= bc@.len() <= pc@.len(),
            c == views(pc@),
            b == views(bc@),
            c == path_components(path@),
            b == path_components(base@),
            forall|j: int| 0 <= j < i ==> #[trigger] c[j] == b[j],
        decreases bc@.len() - i,
    {
        if !chars_eq(&pc[i], &bc[i]) {
            proof {
                assert(c[i as int] == pc@[i as int]@);
                assert(b[i as int] == bc@[i as int]@);
                assert(c.take(b.len() as int)[i as int] == c[i as int]);
            }
            return false;
        }
        i = i + 1;
    }
    proof {
        assert(c.take(b.len() as int) =~= b);
    }
    true
}

} // verus!
