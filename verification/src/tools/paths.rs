//! Path globbing for the output tools: `*` and `?` inside one path segment,
//! `**` across segments.
use vstd::prelude::*;
use vstd::utf8::encode_utf8;
use crate::rel_path::{
    comps, comps_of, dotdot, has_path_prefix, is_dotdot_exec, normals, normals_of, path_rest, path_rest_of,
    path_starts_with,
};
use crate::text::{
    chars_of, debug_string, debug_text, push_str, replace_all, replace_all_of, string_of, trim, trim_slice,
    trim_str, views,
};

verus! {

pub open spec fn star() -> u8 {
    42u8
}

pub open spec fn qmark() -> u8 {
    63u8
}

/// Wildcard match of `p[i..]` against `s[j..]`: `*` matches any run of bytes,
/// `?` any single byte, every other byte itself.
pub open spec fn wild_from(p: Seq<u8>, s: Seq<u8>, i: int, j: int) -> bool
    decreases p.len() - i + s.len() - j, 0int,
    when 0 <= i && 0 <= j
{
    if j > s.len() {
        false
    } else if i >= p.len() {
        j == s.len()
    } else if p[i] == star() {
        wild_from(p, s, i + 1, j) || (j < s.len() && wild_from(p, s, i, j + 1))
    } else {
        j < s.len() && (p[i] == s[j] || p[i] == qmark()) && wild_from(p, s, i + 1, j + 1)
    }
}

/// Whole-segment wildcard match.
pub open spec fn wild(p: Seq<u8>, s: Seq<u8>) -> bool {
    wild_from(p, s, 0, 0)
}


/// At a `*`, the match from `j` holds exactly when the rest of the pattern
/// matches from some later position.
proof fn lemma_star_exists(p: Seq<u8>, s: Seq<u8>, i: int, j: int)
    requires
        0 <= i < p.len(),
        p[i] == star(),
        0 <= j <= s.len(),
    ensures
        wild_from(p, s, i, j) <==> exists|m: int| j <= m <= s.len() && #[trigger] wild_from(p, s, i + 1, m),
    decreases s.len() - j,
{
    if j < s.len() {
        lemma_star_exists(p, s, i, j + 1);
        if wild_from(p, s, i, j) {
            if wild_from(p, s, i + 1, j) {
                assert(j <= j <= s.len() && wild_from(p, s, i + 1, j));
            }
        }
        if exists|m: int| j <= m <= s.len() && #[trigger] wild_from(p, s, i + 1, m) {
            let m = choose|m: int| j <= m <= s.len() && #[trigger] wild_from(p, s, i + 1, m);
            if m > j {
                assert(j + 1 <= m <= s.len() && wild_from(p, s, i + 1, m));
            }
        }
    } else {
        if exists|m: int| j <= m <= s.len() && #[trigger] wild_from(p, s, i + 1, m) {
            let m = choose|m: int| j <= m <= s.len() && #[trigger] wild_from(p, s, i + 1, m);
            assert(m == j);
        }
        if wild_from(p, s, i, j) {
            assert(j <= j <= s.len() && wild_from(p, s, i + 1, j));
        }
    }
}

/// A match from a `*` at `j2` gives one from any earlier `j`.
proof fn lemma_star_earlier(p: Seq<u8>, s: Seq<u8>, i: int, j: int, j2: int)
    requires
        0 <= i < p.len(),
        p[i] == star(),
        0 <= j <= j2,
        wild_from(p, s, i, j2),
    ensures
        wild_from(p, s, i, j),
{
    assert(j2 <= s.len());
    lemma_star_exists(p, s, i, j2);
    lemma_star_exists(p, s, i, j);
    let m = choose|m: int| j2 <= m <= s.len() && #[trigger] wild_from(p, s, i + 1, m);
    assert(j <= m <= s.len() && wild_from(p, s, i + 1, m));
}

/// Across a star-free stretch `p[a..b]`, a match from `k` passes to `b`
/// after exactly `b - a` bytes.
proof fn lemma_plain_stretch(p: Seq<u8>, s: Seq<u8>, a: int, b: int, k: int)
    requires
        0 <= a <= b <= p.len(),
        0 <= k,
        forall|x: int| a <= x < b ==> p[x] != star(),
        wild_from(p, s, a, k),
    ensures
        k + (b - a) <= s.len(),
        wild_from(p, s, b, k + (b - a)),
    decreases b - a,
{
    if a < b {
        lemma_plain_stretch(p, s, a + 1, b, k + 1);
    }
}

/// `p[a..b]` matches `s[k..l]` byte for byte, with no `*` in it.
pub open spec fn plain_match(p: Seq<u8>, s: Seq<u8>, a: int, b: int, k: int, l: int) -> bool {
    &&& 0 <= a <= b <= p.len()
    &&& 0 <= k <= l <= s.len()
    &&& b - a == l - k
    &&& forall|t: int|
        0 <= t < b - a ==> #[trigger] p[a + t] != star() && (p[a + t] == s[k + t] || p[a + t]
            == qmark())
}

/// Single-segment wildcard match (`*` any run of bytes, `?` any one byte),
/// greedy with one backtracking point.
pub fn segment_match(pat: &[u8], seg: &[u8]) -> (r: bool)
    ensures
        r == wild(pat@, seg@),
{
    if pat.len() == 1 && pat[0] == 42u8 {
        proof {
            lemma_star_exists(pat@, seg@, 0, 0);
            assert(wild_from(pat@, seg@, 1, seg@.len() as int));
        }
        return true;
    }
    let ghost p = pat@;
    let ghost s = seg@;
    let mut pi: usize = 0;
    let mut si: usize = 0;
    let mut has_star = false;
    let mut sp: usize = 0;
    let mut ss: usize = 0;
    while si < seg.len()
        invariant
            p == pat@,
            s == seg@,
            pi <= p.len(),
            si <= s.len(),
            wild_from(p, s, pi as int, si as int) ==> wild(p, s),
            has_star ==> sp < pi && p[sp as int] == star() && ss <= si,
            has_star ==> (wild_from(p, s, sp as int, ss as int) ==> wild(p, s)),
            !has_star ==> (wild(p, s) ==> wild_from(p, s, pi as int, si as int)),
            has_star ==> (wild(p, s) ==> wild_from(p, s, sp as int, ss as int)),
            has_star ==> plain_match(
                p,
                s,
                sp + 1,
                pi as int,
                ss as int,
                si as int,
            ),
        decreases s.len() - (if has_star {
            ss as int
        } else {
            0
        }), s.len() - si, p.len() - pi,
    {
        if pi < pat.len() && pat[pi] == 42u8 {
            proof {
                if has_star {
                    // the earlier star's alternatives all pass through this one
                    if wild_from(p, s, sp as int, ss as int) {
                        lemma_star_exists(p, s, sp as int, ss as int);
                        let m = choose|m: int|
                            ss <= m <= s.len() && #[trigger] wild_from(p, s, sp + 1, m);
                        assert forall|x: int| sp + 1 <= x < pi implies p[x] != star() by {
                            assert(plain_match(p, s, sp + 1, pi as int, ss as int, si as int));
                            assert(p[sp + 1 + (x - sp - 1)] != star());
                        }
                        lemma_plain_stretch(p, s, sp + 1, pi as int, m);
                        lemma_star_earlier(p, s, pi as int, si as int, m + (pi - sp - 1));
                    }
                }
            }
            has_star = true;
            sp = pi;
            ss = si;
            pi = pi + 1;
        } else if pi < pat.len() && (pat[pi] == seg[si] || pat[pi] == 63u8) {
            proof {
                if p[pi as int] == star() {
                    assert(wild_from(p, s, pi + 1, si + 1) ==> wild_from(p, s, pi as int, si + 1));
                } else {
                    assert(wild_from(p, s, pi + 1, si + 1) ==> wild_from(p, s, pi as int, si as int));
                }
                if has_star {
                    assert(p[pi as int] != star());
                    let n = pi - sp - 1;
                    assert forall|t: int| 0 <= t < pi + 1 - (sp + 1) implies #[trigger] p[sp + 1 + t]
                        != star() && (p[sp + 1 + t] == s[ss + t] || p[sp + 1 + t] == qmark()) by {
                        if t < n {
                            assert(plain_match(p, s, sp + 1, pi as int, ss as int, si as int));
                        }
                    }
                }
            }
            pi = pi + 1;
            si = si + 1;
        } else if has_star {
            proof {
                assert(ss < s.len());
                if wild_from(p, s, sp + 1, ss + 1) {
                    lemma_star_earlier(p, s, sp as int, ss + 1, ss + 1);
                }
                if wild_from(p, s, sp as int, ss + 1) {
                    lemma_star_earlier(p, s, sp as int, ss as int, ss + 1);
                }
                if wild_from(p, s, sp as int, ss as int) {
                    if wild_from(p, s, sp + 1, ss as int) {
                        assert forall|x: int| sp + 1 <= x < pi implies p[x] != star() by {
                            assert(plain_match(p, s, sp + 1, pi as int, ss as int, si as int));
                            assert(p[sp + 1 + (x - sp - 1)] != star());
                        }
                        lemma_plain_stretch(p, s, sp + 1, pi as int, ss as int);
                        assert(false);
                    }
                }
            }
            ss = ss + 1;
            pi = sp + 1;
            si = ss;
        } else {
            return false;
        }
    }
    proof {
        if has_star && wild(p, s) {
            lemma_star_exists(p, s, sp as int, ss as int);
            let m = choose|m: int| ss <= m <= s.len() && #[trigger] wild_from(p, s, sp + 1, m);
            assert forall|x: int| sp + 1 <= x < pi implies p[x] != star() by {
                assert(plain_match(p, s, sp + 1, pi as int, ss as int, si as int));
                assert(p[sp + 1 + (x - sp - 1)] != star());
            }
            lemma_plain_stretch(p, s, sp + 1, pi as int, m);
        }
    }
    while pi < pat.len() && pat[pi] == 42u8
        invariant
            p == pat@,
            s == seg@,
            pi <= p.len(),
            si == s.len(),
            wild_from(p, s, pi as int, si as int) ==> wild(p, s),
            (wild(p, s) ==> wild_from(p, s, pi as int, si as int)),
        decreases p.len() - pi,
    {
        pi = pi + 1;
    }
    pi == pat.len()
}

// ───────────────────────── segments ─────────────────────────

/// Scan of `s` cut at every `sep`: the finished pieces and the current one.
pub open spec fn split_scan(s: Seq<u8>, sep: u8) -> (Seq<Seq<u8>>, Seq<u8>)
    decreases s.len(),
{
    if s.len() == 0 {
        (seq![], seq![])
    } else {
        let (done, cur) = split_scan(s.drop_last(), sep);
        if s.last() == sep {
            (done.push(cur), seq![])
        } else {
            (done, cur.push(s.last()))
        }
    }
}

/// `s` cut at every `sep` byte, as `str::split` cuts it: always one piece more
/// than there are separators.
pub open spec fn split_bytes(s: Seq<u8>, sep: u8) -> Seq<Seq<u8>> {
    split_scan(s, sep).0.push(split_scan(s, sep).1)
}

/// `s` without its leading `./` repetitions (`trim_start_matches("./")`).
pub open spec fn strip_dot_slash(s: Seq<u8>) -> Seq<u8>
    decreases s.len(),
{
    if s.len() >= 2 && s[0] == 46u8 && s[1] == 47u8 {
        strip_dot_slash(s.subrange(2, s.len() as int))
    } else {
        s
    }
}

/// The non-empty pieces of `v`, in order.
pub open spec fn nonempty_pieces(v: Seq<Seq<u8>>) -> Seq<Seq<u8>>
    decreases v.len(),
{
    if v.len() == 0 {
        seq![]
    } else if v.last().len() > 0 {
        nonempty_pieces(v.drop_last()).push(v.last())
    } else {
        nonempty_pieces(v.drop_last())
    }
}


pub open spec fn double_star() -> Seq<u8> {
    seq![42u8, 42u8]
}

/// Segment-wise glob: `**` matches any number of whole segments, any other
/// pattern segment matches exactly one path segment by `wild`.
pub open spec fn glob_segs(pat: Seq<Seq<u8>>, path: Seq<Seq<u8>>) -> bool
    decreases pat.len(), 0int,
{
    if pat.len() == 0 {
        path.len() == 0
    } else if pat[0] == double_star() {
        pat.len() == 1 || glob_any(pat.drop_first(), path, 0)
    } else {
        path.len() > 0 && wild(pat[0], path[0]) && glob_segs(pat.drop_first(), path.drop_first())
    }
}

/// `pat` globs some suffix `path[k..]` with `i <= k`.
pub open spec fn glob_any(pat: Seq<Seq<u8>>, path: Seq<Seq<u8>>, i: int) -> bool
    decreases pat.len(), path.len() + 1 - i,
    when 0 <= i
{
    if i > path.len() {
        false
    } else {
        glob_segs(pat, path.subrange(i, path.len() as int)) || glob_any(pat, path, i + 1)
    }
}

proof fn lemma_glob_any_earlier(pat: Seq<Seq<u8>>, path: Seq<Seq<u8>>, j: int, k: int)
    requires
        0 <= j <= k,
        glob_any(pat, path, k),
    ensures
        glob_any(pat, path, j),
    decreases k - j,
{
    if j < k {
        lemma_glob_any_earlier(pat, path, j + 1, k);
    }
}


/// `**` matches any number of whole path segments, none included: a pattern
/// opened by `**` matches a path whenever the rest of the pattern matches
/// the path itself or any of its tails.
pub proof fn lemma_double_star_any_depth(rest: Seq<Seq<u8>>, path: Seq<Seq<u8>>, k: int)
    requires
        0 <= k <= path.len(),
        glob_segs(rest, path.subrange(k, path.len() as int)),
    ensures
        glob_segs(seq![double_star()] + rest, path),
{
    let pat = seq![double_star()] + rest;
    assert(pat[0] == double_star());
    assert(pat.drop_first() =~= rest);
    if rest.len() > 0 {
        assert(glob_any(rest, path, k));
        lemma_glob_any_earlier(rest, path, 0, k);
    }
}

/// In particular `**` may stand for no segment at all.
pub proof fn lemma_double_star_matches_nothing(rest: Seq<Seq<u8>>, path: Seq<Seq<u8>>)
    requires
        glob_segs(rest, path),
    ensures
        glob_segs(seq![double_star()] + rest, path),
{
    assert(path.subrange(0, path.len() as int) =~= path);
    lemma_double_star_any_depth(rest, path, 0);
}

pub open spec fn pattern_segments(pattern: Seq<u8>) -> Seq<Seq<u8>> {
    split_bytes(strip_dot_slash(pattern), 47u8)
}

pub open spec fn path_segments(rel: Seq<u8>) -> Seq<Seq<u8>> {
    nonempty_pieces(split_bytes(strip_dot_slash(rel), 47u8))
}

/// Byte views of a vector of byte vectors.
pub open spec fn byte_views(v: Seq<Vec<u8>>) -> Seq<Seq<u8>> {
    v.map_values(|x: Vec<u8>| x@)
}

/// Start of `b` after its leading `./` repetitions.
fn skip_dot_slash(b: &[u8]) -> (start: usize)
    ensures
        start <= b@.len(),
        b@.subrange(start as int, b@.len() as int) == strip_dot_slash(b@),
{
    let mut start: usize = 0;
    assert(b@.subrange(0, b@.len() as int) =~= b@);
    while b.len() - start >= 2 && b[start] == 46u8 && b[start + 1] == 47u8
        invariant
            start <= b@.len(),
            strip_dot_slash(b@) == strip_dot_slash(b@.subrange(start as int, b@.len() as int)),
        decreases b@.len() - start,
    {
        proof {
            let rest = b@.subrange(start as int, b@.len() as int);
            assert(rest.subrange(2, rest.len() as int) =~= b@.subrange(start + 2, b@.len() as int));
        }
        start = start + 2;
    }
    start
}

/// `b[start..]` cut at every `sep` byte.
fn split_from(b: &[u8], start: usize, sep: u8) -> (r: Vec<Vec<u8>>)
    requires
        start <= b@.len(),
    ensures
        byte_views(r@) == split_bytes(b@.subrange(start as int, b@.len() as int), sep),
{
    let ghost s = b@.subrange(start as int, b@.len() as int);
    let mut out: Vec<Vec<u8>> = Vec::new();
    let mut cur: Vec<u8> = Vec::new();
    let mut i: usize = start;
    assert(s.take(0) =~= Seq::<u8>::empty());
    while i < b.len()
        invariant
            start <= i <= b@.len(),
            s == b@.subrange(start as int, b@.len() as int),
            (byte_views(out@), cur@) == split_scan(s.take(i - start), sep),
        decreases b@.len() - i,
    {
        proof {
            assert(s.take(i + 1 - start).drop_last() =~= s.take(i - start));
            assert(s.take(i + 1 - start).last() == b@[i as int]);
        }
        if b[i] == sep {
            let ghost old_out = out@;
            let piece = cur;
            out.push(piece);
            cur = Vec::new();
            proof {
                assert(byte_views(out@) =~= byte_views(old_out).push(piece@));
            }
        } else {
            cur.push(b[i]);
        }
        i = i + 1;
    }
    proof {
        assert(s.take(i - start) =~= s);
    }
    let ghost before = out@;
    out.push(cur);
    proof {
        assert(byte_views(out@) =~= byte_views(before).push(cur@));
    }
    out
}

/// The non-empty pieces of `v`, in order.
fn keep_nonempty(v: Vec<Vec<u8>>) -> (r: Vec<Vec<u8>>)
    ensures
        byte_views(r@) == nonempty_pieces(byte_views(v@)),
{
    let ghost vs = byte_views(v@);
    let mut out: Vec<Vec<u8>> = Vec::new();
    let mut i: usize = 0;
    assert(vs.take(0) =~= Seq::<Seq<u8>>::empty());
    while i < v.len()
        invariant
            i <= v@.len(),
            vs == byte_views(v@),
            byte_views(out@) == nonempty_pieces(vs.take(i as int)),
        decreases v@.len() - i,
    {
        proof {
            assert(vs.take(i + 1).drop_last() =~= vs.take(i as int));
            assert(vs.take(i + 1).last() == v@[i as int]@);
        }
        if v[i].len() > 0 {
            let ghost old_out = out@;
            let c = v[i].clone();
            assert(c@ =~= v@[i as int]@);
            out.push(c);
            proof {
                assert(byte_views(out@) =~= byte_views(old_out).push(v@[i as int]@));
            }
        }
        i = i + 1;
    }
    proof {
        assert(vs.take(i as int) =~= vs);
    }
    out
}

fn is_double_star(seg: &Vec<u8>) -> (r: bool)
    ensures
        r == (seg@ == double_star()),
{
    let r = seg.len() == 2 && seg[0] == 42u8 && seg[1] == 42u8;
    proof {
        if r {
            assert(seg@ =~= double_star());
        }
    }
    r
}

/// `glob_match_segments` on the suffixes `pat[pi..]` and `path[qi..]`.
fn glob_from(pat: &Vec<Vec<u8>>, pi: usize, path: &Vec<Vec<u8>>, qi: usize) -> (r: bool)
    requires
        pi <= pat@.len(),
        qi <= path@.len(),
    ensures
        ({
            let ps = byte_views(pat@).subrange(pi as int, pat@.len() as int);
            let qs = byte_views(path@).subrange(qi as int, path@.len() as int);
            r == glob_segs(ps, qs)
        }),
    decreases pat@.len() - pi, path@.len() - qi,
{
    let ghost pv = byte_views(pat@);
    let ghost qv = byte_views(path@);
    let ghost ps = pv.subrange(pi as int, pat@.len() as int);
    let ghost qs = qv.subrange(qi as int, path@.len() as int);
    if pi == pat.len() {
        return qi == path.len();
    }
    let ghost rest = pv.subrange(pi + 1, pat@.len() as int);
    assert(ps.drop_first() =~= rest);
    assert(ps[0] == pat@[pi as int]@);
    if is_double_star(&pat[pi]) {
        if pi + 1 == pat.len() {
            return true;
        }
        let mut i: usize = qi;
        loop
            invariant
                qi <= i <= path@.len(),
                pi + 1 < pat.len(),
                ps.len() == pat@.len() - pi,
                qs.len() == path@.len() - qi,
                pv == byte_views(pat@),
                qv == byte_views(path@),
                ps == pv.subrange(pi as int, pat@.len() as int),
                qs == qv.subrange(qi as int, path@.len() as int),
                rest == pv.subrange(pi + 1, pat@.len() as int),
                ps.drop_first() == rest,
                ps[0] == double_star(),
                glob_any(rest, qs, 0) == glob_any(rest, qs, i - qi),
            decreases path@.len() - i,
        {
            let found = glob_from(pat, pi + 1, path, i);
            proof {
                assert(qs.subrange(i - qi, qs.len() as int) =~= qv.subrange(
                    i as int,
                    path@.len() as int,
                ));
            }
            if found {
                proof {
                    lemma_glob_any_earlier(rest, qs, 0, i - qi);
                }
                return true;
            }
            if i == path.len() {
                proof {
                    assert(!glob_any(rest, qs, i - qi + 1));
                    assert(!glob_any(rest, qs, i - qi));
                }
                return false;
            }
            i = i + 1;
        }
    }
    if qi == path.len() {
        return false;
    }
    let ghost qrest = qv.subrange(qi + 1, path@.len() as int);
    assert(qs.drop_first() =~= qrest);
    assert(qs[0] == path@[qi as int]@);
    if segment_match(pat[pi].as_slice(), path[qi].as_slice()) {
        glob_from(pat, pi + 1, path, qi + 1)
    } else {
        false
    }
}

/// Simple path glob: `*` matches within a single path segment; `**` matches
/// across segments. Leading `./` is ignored on both sides, and empty path
/// segments are skipped.
pub fn path_glob_match(pattern: &str, rel_path: &str) -> (r: bool)
    ensures
        r == glob_segs(
            pattern_segments(encode_utf8(pattern@)),
            path_segments(encode_utf8(rel_path@)),
        ),
{
    let pb = pattern.as_bytes();
    let rb = rel_path.as_bytes();
    let ps = skip_dot_slash(pb);
    let rs = skip_dot_slash(rb);
    let pat = split_from(pb, ps, 47u8);
    let path = keep_nonempty(split_from(rb, rs, 47u8));
    proof {
        assert(byte_views(pat@).subrange(0, pat@.len() as int) =~= byte_views(pat@));
        assert(byte_views(path@).subrange(0, path@.len() as int) =~= byte_views(path@));
    }
    glob_from(&pat, 0, &path, 0)
}

// ───────────────────────── output paths ─────────────────────────

/// Why a tool-supplied relative output path was refused.
#[derive(Debug, Clone, Copy, PartialEq, Eq)]
pub enum OutputPathError {
    /// Nothing left after trimming.
    Empty,
    /// Starts at the filesystem root.
    Absolute,
    /// Has a `..` component.
    ParentDir,
}

pub open spec fn has_parent_comp(cs: Seq<Seq<char>>) -> bool {
    exists|i: int| 0 <= i < cs.len() && #[trigger] cs[i] == dotdot()
}

/// What `resolve_output_path` makes of `rel` before touching the filesystem:
/// the trimmed path must be non-empty, relative and free of `..`; the result
/// is its normal components, the path that is joined under the outputs root.
pub open spec fn output_rel_spec(rel: Seq<char>) -> Result<Seq<Seq<char>>, OutputPathError> {
    let t = trim(rel);
    if t.len() == 0 {
        Err(OutputPathError::Empty)
    } else if t[0] == '/' {
        Err(OutputPathError::Absolute)
    } else if has_parent_comp(comps(t)) {
        Err(OutputPathError::ParentDir)
    } else {
        Ok(normals(comps(t)))
    }
}

/// Check a relative output path and give its normal components.
pub fn output_rel_path(rel: &str) -> (r: Result<Vec<Vec<char>>, OutputPathError>)
    ensures
        match r {
            Ok(v) => output_rel_spec(rel@) == Ok::<Seq<Seq<char>>, OutputPathError>(views(v@)),
            Err(e) => output_rel_spec(rel@) == Err::<Seq<Seq<char>>, OutputPathError>(e),
        },
{
    let t = trim_str(rel);
    if t.len() == 0 {
        return Err(OutputPathError::Empty);
    }
    if t[0] == '/' {
        return Err(OutputPathError::Absolute);
    }
    let cs = comps_of(t.as_slice());
    let ghost cv = views(cs@);
    let mut i: usize = 0;
    while i < cs.len()
        invariant
            i <= cs@.len(),
            cv == views(cs@),
            cv == comps(t@),
            t@ == trim(rel@),
            t@.len() > 0,
            t@[0] != '/',
            forall|k: int| 0 <= k < i ==> cv[k] != dotdot(),
        decreases cs@.len() - i,
    {
        if is_dotdot_exec(cs[i].as_slice()) {
            proof {
                assert(0 <= i < cv.len() && cv[i as int] == dotdot());
            }
            return Err(OutputPathError::ParentDir);
        }
        i = i + 1;
    }
    let ns = normals_of(&cs, cs.len());
    proof {
        assert(cv.take(cs@.len() as int) =~= cv);
    }
    Ok(ns)
}


/// The message for a refused output path `rel`.
pub open spec fn output_path_error_text(e: OutputPathError, rel: Seq<char>) -> Seq<char> {
    match e {
        OutputPathError::Empty => "path is empty"@,
        OutputPathError::Absolute => "absolute paths not allowed: "@ + debug_text(trim(rel)),
        OutputPathError::ParentDir => "'..' not allowed in path: "@ + debug_text(trim(rel)),
    }
}

pub fn output_path_error_message(e: OutputPathError, rel: &str) -> (r: String)
    ensures
        r@ == output_path_error_text(e, rel@),
{
    match e {
        OutputPathError::Empty => string_of(&chars_of("path is empty")),
        OutputPathError::Absolute => {
            let mut out = chars_of("absolute paths not allowed: ");
            let d = debug_string(trim_slice(rel));
            push_str(&mut out, d.as_str());
            string_of(&out)
        },
        OutputPathError::ParentDir => {
            let mut out = chars_of("'..' not allowed in path: ");
            let d = debug_string(trim_slice(rel));
            push_str(&mut out, d.as_str());
            string_of(&out)
        },
    }
}

/// How a file under the outputs root is shown: its path relative to `root`
/// with `/` separators, or `shown` where `path` does not lie under `root`.
/// `root` and `path` are as the caller resolved them (canonical where they
/// exist); `shown` is the path as the caller first had it.
pub open spec fn relative_display_text(root: Seq<char>, path: Seq<char>, shown: Seq<char>) -> Seq<char> {
    if has_path_prefix(path, root) {
        replace_all(path_rest(path, root), seq!['\\'], seq!['/'])
    } else {
        shown
    }
}

pub fn relative_display(root: &str, path: &str, shown: &str) -> (r: String)
    ensures
        r@ == relative_display_text(root@, path@, shown@),
{
    if path_starts_with(path, root) {
        let rest = path_rest_of(&chars_of(path), &chars_of(root));
        let mut from: Vec<char> = Vec::new();
        from.push('\\');
        let mut to: Vec<char> = Vec::new();
        to.push('/');
        proof {
            assert(from@ =~= seq!['\\']);
            assert(to@ =~= seq!['/']);
        }
        let out = replace_all_of(&rest, &from, &to);
        string_of(&out)
    } else {
        string_of(&chars_of(shown))
    }
}

} // verus!
