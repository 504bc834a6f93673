//! Post-generation href fixup: URL-safe relative hrefs for generated pages.
use crate::html::markdown::{has_scheme, scheme_char};
use crate::ids::{file_stem, file_stem_chars, pct_encode, pct_encode_bytes};
use crate::rel_path::{
    comps, comps_of, dot, dotdot, drop_empty_dots, inner_comps_of, is_normal, is_normal_exec,
    normals,
};
use crate::text::{
    lemma_find_from_props, occurs_at,
    chars_eq, chars_of, copy_range, find, find_char, find_char_from, find_str, has_suffix, join,
    join_of, lemma_find_char_props, push_all, push_str, split_char, string_of, utf8_lossy,
    utf8_lossy_text, views,
};
use vstd::prelude::*;
use vstd::utf8::encode_utf8;

verus! {

broadcast use vstd::string::group_string_axioms;

/// Percent-encode one path component (its UTF-8 bytes).
pub open spec fn enc_comp(c: Seq<char>) -> Seq<char> {
    pct_encode(encode_utf8(c))
}

pub open spec fn enc_comps(cs: Seq<Seq<char>>) -> Seq<Seq<char>> {
    cs.map_values(|c: Seq<char>| enc_comp(c))
}

/// Each component percent-encoded, joined by `/`.
pub open spec fn encoded_path(cs: Seq<Seq<char>>) -> Seq<char> {
    join(enc_comps(cs), seq!['/'])
}

pub fn encode_component_chars(c: &[char]) -> (r: Vec<char>)
    ensures
        r@ == enc_comp(c@),
{
    let s = string_of(c);
    pct_encode_bytes(s.as_str().as_bytes())
}

/// Percent-encode every component of a component list and join with `/`.
pub fn encode_comps(cs: &Vec<Vec<char>>) -> (r: Vec<char>)
    ensures
        r@ == encoded_path(views(cs@)),
{
    let ghost cv = views(cs@);
    let mut parts: Vec<Vec<char>> = Vec::new();
    let mut i: usize = 0;
    while i < cs.len()
        invariant
            i <= cs@.len(),
            cv == views(cs@),
            views(parts@) == enc_comps(cv.take(i as int)),
        decreases cs@.len() - i,
    {
        let e = encode_component_chars(&cs[i]);
        let ghost prev = parts@;
        parts.push(e);
        proof {
            assert(views(parts@) =~= views(prev).push(e@));
            assert(enc_comps(cv.take((i + 1) as int)) =~= enc_comps(cv.take(i as int)).push(
                enc_comp(cv[i as int]),
            ));
        }
        i = i + 1;
    }
    assert(cv.take(cs@.len() as int) =~= cv);
    let sep = chars_of("/");
    proof {
        reveal_strlit("/");
        assert(sep@ =~= seq!['/']);
    }
    join_of(&parts, &sep)
}

/// Percent-encode each path segment of a relative path (RFC 3986 unreserved
/// left alone). Thread filenames that already contain `%3C` become `%253C`.
pub fn encode_rel_href(rel: &str) -> (r: String)
    ensures
        r@ == encoded_path(comps(rel@)),
{
    let v = chars_of(rel);
    let cs = comps_of(&v);
    let e = encode_comps(&cs);
    string_of(&e)
}


// ───────────────────────── href rewriting ─────────────────────────

/// Hrefs that are never touched: empty, fragment-only, or with a URL scheme.
pub open spec fn left_alone(href: Seq<char>) -> bool {
    href.len() == 0 || href[0] == '#' || has_scheme(href)
}

fn left_alone_exec(h: &[char]) -> (r: bool)
    ensures
        r == left_alone(h@),
{
    if h.len() == 0 || h[0] == '#' {
        return true;
    }
    let found = find_char(h, ':', 0);
    proof {
        lemma_find_char_props(h@, ':', 0);
    }
    match found {
        None => false,
        Some(c) => {
            if c == 0 {
                return false;
            }
            let mut k: usize = 0;
            while k < c
                invariant
                    k <= c,
                    c <= h@.len(),
                    find_char_from(h@, ':', 0) == Some(c as int),
                    h@.len() > 0 && h@[0] != '#',
                    forall|j: int| 0 <= j < k ==> #[trigger] scheme_char(h@[j]),
                decreases c - k,
            {
                let x = h[k];
                if !(('a' <= x && x <= 'z') || ('A' <= x && x <= 'Z') || x == '+' || x == '.' || x
                    == '-') {
                    proof {
                        assert(!scheme_char(h@[k as int]));
                    }
                    return false;
                }
                k = k + 1;
            }
            true
        },
    }
}

/// Position of the first `?` or `#` at or after `i` (the length when none).
pub open spec fn query_cut(s: Seq<char>, i: int) -> int
    decreases s.len() - i,
{
    if i < 0 || i >= s.len() {
        s.len() as int
    } else if s[i] == '?' || s[i] == '#' {
        i
    } else {
        query_cut(s, i + 1)
    }
}

fn query_cut_exec(s: &[char]) -> (r: usize)
    ensures
        r as int == query_cut(s@, 0),
        r <= s@.len(),
{
    let mut i: usize = 0;
    while i < s.len() && s[i] != '?' && s[i] != '#'
        invariant
            i <= s@.len(),
            query_cut(s@, i as int) == query_cut(s@, 0),
        decreases s@.len() - i,
    {
        i = i + 1;
    }
    i
}

/// A `*.md` link target names the generated `*.html` page.
pub open spec fn html_target(p: Seq<char>) -> Seq<char> {
    if has_suffix(p, ".md"@) {
        p.take(p.len() - 3) + ".html"@
    } else {
        p
    }
}

/// The directory of a page: its components without the last.
pub open spec fn page_dir(page: Seq<char>) -> Seq<Seq<char>> {
    let cs = comps(page);
    if cs.len() == 0 {
        cs
    } else {
        cs.drop_last()
    }
}

/// Resolve `.` and `..` lexically; `None` when `..` climbs above the start.
pub open spec fn norm_rel(cs: Seq<Seq<char>>) -> Option<Seq<Seq<char>>>
    decreases cs.len(),
{
    if cs.len() == 0 {
        Some(seq![])
    } else {
        match norm_rel(cs.drop_last()) {
            None => None,
            Some(o) => {
                let c = cs.last();
                if c == dot() {
                    Some(o)
                } else if c == dotdot() {
                    if o.len() == 0 {
                        None
                    } else {
                        Some(o.drop_last())
                    }
                } else {
                    Some(o.push(c))
                }
            },
        }
    }
}

fn norm_rel_of(cs: &Vec<Vec<char>>) -> (r: Option<Vec<Vec<char>>>)
    ensures
        match r {
            Some(v) => norm_rel(views(cs@)) == Some(views(v@)),
            None => norm_rel(views(cs@)) is None,
        },
{
    let ghost cv = views(cs@);
    let mut out: Vec<Vec<char>> = Vec::new();
    let mut i: usize = 0;
    proof {
        assert(cv.take(0) =~= Seq::<Seq<char>>::empty());
    }
    while i < cs.len()
        invariant
            i <= cs@.len(),
            cv == views(cs@),
            norm_rel(cv.take(i as int)) == Some(views(out@)),
        decreases cs@.len() - i,
    {
        let ghost prev = views(out@);
        proof {
            assert(cv.take(i + 1).drop_last() =~= cv.take(i as int));
            assert(cv.take(i + 1).last() == cv[i as int]);
        }
        let c = &cs[i];
        if c.len() == 1 && c[0] == '.' {
            proof {
                assert(c@ =~= dot());
            }
        } else if c.len() == 2 && c[0] == '.' && c[1] == '.' {
            proof {
                assert(c@ =~= dotdot());
            }
            if out.len() == 0 {
                proof {
                    assert(cv.take(cs@.len() as int) =~= cv);
                    lemma_norm_rel_none_extends(cv, i as int + 1);
                }
                return None;
            }
            out.pop();
            proof {
                assert(views(out@) =~= prev.drop_last());
            }
        } else {
            proof {
                assert(c@ != dot() && c@ != dotdot());
            }
            out.push(crate::seqs::copy_chars(c));
            proof {
                assert(views(out@) =~= prev.push(c@));
            }
        }
        i = i + 1;
    }
    proof {
        assert(cv.take(cs@.len() as int) =~= cv);
    }
    Some(out)
}

/// Once `..` climbs out, the whole path does not resolve.
proof fn lemma_norm_rel_none_extends(cv: Seq<Seq<char>>, n: int)
    requires
        0 <= n <= cv.len(),
        norm_rel(cv.take(n)) is None,
    ensures
        norm_rel(cv) is None,
    decreases cv.len() - n,
{
    if n < cv.len() {
        assert(cv.take(n + 1).drop_last() =~= cv.take(n));
        lemma_norm_rel_none_extends(cv, n + 1);
    } else {
        assert(cv.take(n) =~= cv);
    }
}

/// Some listed generated file has exactly the components `p`.
pub open spec fn known_has(known: Seq<Seq<char>>, p: Seq<Seq<char>>) -> bool {
    exists|k: int| 0 <= k < known.len() && #[trigger] comps(known[k]) == p
}

fn comps_eq(a: &Vec<Vec<char>>, b: &Vec<Vec<char>>) -> (r: bool)
    ensures
        r == (views(a@) == views(b@)),
{
    if a.len() != b.len() {
        proof {
            assert(views(a@).len() != views(b@).len());
        }
        return false;
    }
    let mut i: usize = 0;
    while i < a.len()
        invariant
            i <= a@.len(),
            a@.len() == b@.len(),
            forall|j: int| 0 <= j < i ==> a@[j]@ == b@[j]@,
        decreases a@.len() - i,
    {
        if !chars_eq(a[i].as_slice(), b[i].as_slice()) {
            proof {
                assert(views(a@)[i as int] != views(b@)[i as int]);
            }
            return false;
        }
        i = i + 1;
    }
    proof {
        assert(views(a@) =~= views(b@));
    }
    true
}

fn known_has_exec(known: &[String], p: &Vec<Vec<char>>) -> (r: bool)
    ensures
        r == known_has(crate::text::strs(known@), views(p@)),
{
    let ghost kv = crate::text::strs(known@);
    let mut k: usize = 0;
    while k < known.len()
        invariant
            k <= known@.len(),
            kv == crate::text::strs(known@),
            forall|j: int| 0 <= j < k ==> #[trigger] comps(kv[j]) != views(p@),
        decreases known@.len() - k,
    {
        let kc = chars_of(known[k].as_str());
        let cs = comps_of(&kc);
        if comps_eq(&cs, p) {
            proof {
                assert(comps(kv[k as int]) == views(p@));
            }
            return true;
        }
        k = k + 1;
    }
    false
}

pub open spec fn hex_val(b: u8) -> Option<u8> {
    if 48 <= b <= 57 {
        Some((b - 48) as u8)
    } else if 97 <= b <= 102 {
        Some((b - 97 + 10) as u8)
    } else if 65 <= b <= 70 {
        Some((b - 65 + 10) as u8)
    } else {
        None
    }
}

fn hex_val_exec(b: u8) -> (r: Option<u8>)
    ensures
        r == hex_val(b),
{
    if 48 <= b && b <= 57 {
        Some(b - 48)
    } else if 97 <= b && b <= 102 {
        Some(b - 97 + 10)
    } else if 65 <= b && b <= 70 {
        Some(b - 65 + 10)
    } else {
        None
    }
}

/// `%XX` escapes (either hex case) become their byte; anything else is kept.
pub open spec fn pct_decode_bytes(bs: Seq<u8>) -> Seq<u8>
    decreases bs.len(),
{
    if bs.len() == 0 {
        seq![]
    } else if bs[0] == 37 && 2 < bs.len() && hex_val(bs[1]) is Some && hex_val(bs[2]) is Some {
        seq![(hex_val(bs[1])->0 * 16 + hex_val(bs[2])->0) as u8] + pct_decode_bytes(bs.skip(3))
    } else {
        seq![bs[0]] + pct_decode_bytes(bs.skip(1))
    }
}

/// Percent-decode a name; invalid UTF-8 in the result is replaced.
pub open spec fn pct_decode(s: Seq<char>) -> Seq<char> {
    utf8_lossy_text(pct_decode_bytes(encode_utf8(s)))
}

fn pct_decode_exec(s: &[char]) -> (r: Vec<char>)
    ensures
        r@ == pct_decode(s@),
{
    let st = string_of(s);
    let bytes = st.as_str().as_bytes();
    let ghost bv = bytes@;
    let mut out: Vec<u8> = Vec::new();
    let mut i: usize = 0;
    proof {
        assert(bv.skip(0) =~= bv);
    }
    while i < bytes.len()
        invariant
            i <= bytes@.len(),
            bv == bytes@,
            out@ + pct_decode_bytes(bv.skip(i as int)) == pct_decode_bytes(bv),
        decreases bytes@.len() - i,
    {
        let ghost rest = bv.skip(i as int);
        if bytes[i] == 37u8 && bytes.len() - i > 2 {
            let h = hex_val_exec(bytes[i + 1]);
            let l = hex_val_exec(bytes[i + 2]);
            if h.is_some() && l.is_some() {
                let hv = h.unwrap();
                let lv = l.unwrap();
                let v: u8 = hv * 16 + lv;
                out.push(v);
                proof {
                    assert(rest[0] == bytes@[i as int] && rest[1] == bytes@[i + 1] && rest[2]
                        == bytes@[i + 2]);
                    assert(rest.skip(3) =~= bv.skip(i + 3));
                }
                i = i + 3;
                continue;
            }
        }
        out.push(bytes[i]);
        proof {
            assert(rest[0] == bytes@[i as int]);
            assert(rest.skip(1) =~= bv.skip(i + 1));
        }
        i = i + 1;
    }
    proof {
        assert(bv.skip(bytes@.len() as int) =~= Seq::<u8>::empty());
        assert(out@ + Seq::<u8>::empty() =~= out@);
    }
    let text = utf8_lossy(out.as_slice());
    chars_of(text.as_str())
}

/// The last position of `c` in `s`.
pub open spec fn last_index_of(s: Seq<char>, c: char) -> Option<int>
    decreases s.len(),
{
    if s.len() == 0 {
        None
    } else if s.last() == c {
        Some(s.len() - 1)
    } else {
        last_index_of(s.drop_last(), c)
    }
}

fn last_index_exec(s: &[char], c: char) -> (r: Option<usize>)
    ensures
        match r {
            Some(k) => last_index_of(s@, c) == Some(k as int) && k < s@.len(),
            None => last_index_of(s@, c) is None,
        },
{
    let mut n: usize = s.len();
    proof {
        assert(s@.take(n as int) =~= s@);
    }
    while n > 0
        invariant
            n <= s@.len(),
            last_index_of(s@.take(n as int), c) == last_index_of(s@, c),
        decreases n,
    {
        proof {
            assert(s@.take(n as int).last() == s@[n - 1]);
            assert(s@.take(n as int).drop_last() =~= s@.take(n - 1));
        }
        if s[n - 1] == c {
            return Some(n - 1);
        }
        n = n - 1;
    }
    None
}

/// `name` split at its last `.`: the stem, and the extension with its dot.
pub open spec fn stem_ext(name: Seq<char>) -> (Seq<char>, Seq<char>) {
    match last_index_of(name, '.') {
        Some(k) => (name.take(k), name.skip(k)),
        None => (name, seq![]),
    }
}

/// `dir.join(name)` as components (`None`: `name` is absolute).
pub open spec fn name_path(dir: Seq<Seq<char>>, name: Seq<char>) -> Option<Seq<Seq<char>>> {
    if name.len() > 0 && name[0] == '/' {
        None
    } else {
        Some(dir + drop_empty_dots(split_char(name, '/')))
    }
}

/// `dir/name` when it is a known file.
pub open spec fn try_name(known: Seq<Seq<char>>, dir: Seq<Seq<char>>, name: Seq<char>) -> Option<
    Seq<Seq<char>>,
> {
    match name_path(dir, name) {
        Some(c) => if known_has(known, c) {
            Some(c)
        } else {
            None
        },
        None => None,
    }
}

fn try_name_exec(known: &[String], dir: &Vec<Vec<char>>, name: &[char]) -> (r: Option<
    Vec<Vec<char>>,
>)
    ensures
        match r {
            Some(v) => try_name(crate::text::strs(known@), views(dir@), name@) == Some(views(v@)),
            None => try_name(crate::text::strs(known@), views(dir@), name@) is None,
        },
{
    if name.len() > 0 && name[0] == '/' {
        return None;
    }
    let mut c: Vec<Vec<char>> = Vec::new();
    let mut i: usize = 0;
    while i < dir.len()
        invariant
            i <= dir@.len(),
            views(c@) == views(dir@).take(i as int),
        decreases dir@.len() - i,
    {
        c.push(crate::seqs::copy_chars(&dir[i]));
        proof {
            assert(views(dir@).take(i + 1) =~= views(dir@).take(i as int).push(dir@[i as int]@));
            assert(views(c@) =~= views(dir@).take(i + 1));
        }
        i = i + 1;
    }
    let tail = inner_comps_of(name);
    let ghost head = views(c@);
    let mut j: usize = 0;
    while j < tail.len()
        invariant
            j <= tail@.len(),
            head == views(dir@).take(dir@.len() as int),
            views(c@) == head + views(tail@).take(j as int),
        decreases tail@.len() - j,
    {
        let ghost prevc = views(c@);
        let x = crate::seqs::copy_chars(&tail[j]);
        c.push(x);
        proof {
            assert(views(c@) =~= prevc.push(tail@[j as int]@));
            assert(views(tail@).take(j + 1) =~= views(tail@).take(j as int).push(tail@[j as int]@));
            assert(views(c@) =~= head + views(tail@).take(j + 1));
        }
        j = j + 1;
    }
    proof {
        assert(views(dir@).take(dir@.len() as int) =~= views(dir@));
        assert(views(tail@).take(tail@.len() as int) =~= views(tail@));
    }
    if known_has_exec(known, &c) {
        Some(c)
    } else {
        None
    }
}

/// The known file a resolved link names: itself; its name percent-encoded;
/// its name percent-decoded; or the file stem of its name's stem (raw or
/// decoded) with the extension kept.
pub open spec fn known_match(res: Seq<Seq<char>>, known: Seq<Seq<char>>) -> Option<Seq<Seq<char>>> {
    if known_has(known, res) {
        Some(res)
    } else if res.len() == 0 {
        None
    } else {
        let dir = res.drop_last();
        let name = res.last();
        let (stem, ext) = stem_ext(name);
        match try_name(known, dir, enc_comp(name)) {
            Some(c) => Some(c),
            None => match try_name(known, dir, pct_decode(name)) {
                Some(c) => Some(c),
                None => match try_name(known, dir, file_stem(stem) + ext) {
                    Some(c) => Some(c),
                    None => try_name(known, dir, file_stem(pct_decode(stem)) + ext),
                },
            },
        }
    }
}

fn known_match_exec(res: &Vec<Vec<char>>, known: &[String]) -> (r: Option<Vec<Vec<char>>>)
    ensures
        match r {
            Some(v) => known_match(views(res@), crate::text::strs(known@)) == Some(views(v@)),
            None => known_match(views(res@), crate::text::strs(known@)) is None,
        },
{
    if known_has_exec(known, res) {
        let mut c: Vec<Vec<char>> = Vec::new();
        let mut i: usize = 0;
        while i < res.len()
            invariant
                i <= res@.len(),
                views(c@) == views(res@).take(i as int),
            decreases res@.len() - i,
        {
            c.push(crate::seqs::copy_chars(&res[i]));
            proof {
                assert(views(res@).take(i + 1) =~= views(res@).take(i as int).push(res@[i as int]@));
                assert(views(c@) =~= views(res@).take(i + 1));
            }
            i = i + 1;
        }
        proof {
            assert(views(res@).take(res@.len() as int) =~= views(res@));
        }
        return Some(c);
    }
    if res.len() == 0 {
        return None;
    }
    let mut dir: Vec<Vec<char>> = Vec::new();
    let mut i: usize = 0;
    while i < res.len() - 1
        invariant
            i + 1 <= res@.len(),
            res@.len() > 0,
            views(dir@) == views(res@).take(i as int),
        decreases res@.len() - i,
    {
        dir.push(crate::seqs::copy_chars(&res[i]));
        proof {
            assert(views(res@).take(i + 1) =~= views(res@).take(i as int).push(res@[i as int]@));
            assert(views(dir@) =~= views(res@).take(i + 1));
        }
        i = i + 1;
    }
    proof {
        assert(views(dir@) =~= views(res@).drop_last());
    }
    let name = &res[res.len() - 1];
    proof {
        assert(name@ == views(res@).last());
    }
    let enc = encode_component_chars(name.as_slice());
    if let Some(c) = try_name_exec(known, &dir, &enc) {
        return Some(c);
    }
    let dec = pct_decode_exec(name.as_slice());
    if let Some(c) = try_name_exec(known, &dir, &dec) {
        return Some(c);
    }
    let (stem, ext) = match last_index_exec(name.as_slice(), '.') {
        Some(k) => (copy_range(name.as_slice(), 0, k), copy_range(name.as_slice(), k, name.len())),
        None => (crate::seqs::copy_chars(name), Vec::new()),
    };
    proof {
        let se = stem_ext(name@);
        assert(stem@ == se.0 && ext@ == se.1);
    }
    let s1 = string_of(&stem);
    let mut cand = file_stem_chars(s1.as_str());
    push_all(&mut cand, &ext);
    if let Some(c) = try_name_exec(known, &dir, &cand) {
        return Some(c);
    }
    let dstem = pct_decode_exec(&stem);
    let s2 = string_of(&dstem);
    let mut cand2 = file_stem_chars(s2.as_str());
    push_all(&mut cand2, &ext);
    try_name_exec(known, &dir, &cand2)
}

/// Length of the common leading run of two component lists.
pub open spec fn common_len(a: Seq<Seq<char>>, b: Seq<Seq<char>>) -> nat
    decreases a.len(),
{
    if a.len() == 0 || b.len() == 0 || a[0] != b[0] {
        0
    } else {
        1 + common_len(a.drop_first(), b.drop_first())
    }
}

/// The relative path from the directory `from_dir` to the file `to_file`.
pub open spec fn rel_from(from_dir: Seq<Seq<char>>, to_file: Seq<Seq<char>>) -> Seq<Seq<char>> {
    let f = normals(from_dir);
    let t = normals(to_file);
    let c = common_len(f, t) as int;
    let out = Seq::new((f.len() - c) as nat, |i: int| dotdot()) + t.skip(c);
    if out.len() == 0 && to_file.len() > 0 && is_normal(to_file.last()) {
        seq![to_file.last()]
    } else {
        out
    }
}

proof fn lemma_common_len_bound(a: Seq<Seq<char>>, b: Seq<Seq<char>>)
    ensures
        common_len(a, b) <= a.len(),
        common_len(a, b) <= b.len(),
        forall|i: int| 0 <= i < common_len(a, b) ==> a[i] == b[i],
        common_len(a, b) < a.len() && common_len(a, b) < b.len() ==> a[common_len(a, b) as int]
            != b[common_len(a, b) as int],
    decreases a.len(),
{
    if !(a.len() == 0 || b.len() == 0 || a[0] != b[0]) {
        lemma_common_len_bound(a.drop_first(), b.drop_first());
        assert forall|i: int| 0 <= i < common_len(a, b) implies a[i] == b[i] by {
            if i > 0 {
                assert(a.drop_first()[i - 1] == b.drop_first()[i - 1]);
            }
        }
    }
}

proof fn lemma_common_len_char(a: Seq<Seq<char>>, b: Seq<Seq<char>>, n: int)
    requires
        0 <= n <= a.len(),
        n <= b.len(),
        forall|i: int| 0 <= i < n ==> a[i] == b[i],
        n == a.len() || n == b.len() || a[n] != b[n],
    ensures
        common_len(a, b) == n,
    decreases a.len(),
{
    if n > 0 {
        lemma_common_len_char(a.drop_first(), b.drop_first(), n - 1);
    }
}

fn normals_vec(cs: &Vec<Vec<char>>) -> (r: Vec<Vec<char>>)
    ensures
        views(r@) == normals(views(cs@)),
{
    let r = crate::rel_path::normals_of(cs, cs.len());
    proof {
        assert(views(cs@).take(cs@.len() as int) =~= views(cs@));
    }
    r
}

fn rel_from_exec(from_dir: &Vec<Vec<char>>, to_file: &Vec<Vec<char>>) -> (r: Vec<Vec<char>>)
    ensures
        views(r@) == rel_from(views(from_dir@), views(to_file@)),
{
    let f = normals_vec(from_dir);
    let t = normals_vec(to_file);
    let ghost fv = views(f@);
    let ghost tv = views(t@);
    let mut c: usize = 0;
    while c < f.len() && c < t.len() && chars_eq(f[c].as_slice(), t[c].as_slice())
        invariant
            c <= f@.len(),
            c <= t@.len(),
            fv == views(f@),
            tv == views(t@),
            forall|i: int| 0 <= i < c ==> fv[i] == tv[i],
        decreases f@.len() - c,
    {
        c = c + 1;
    }
    proof {
        lemma_common_len_char(fv, tv, c as int);
    }
    let mut out: Vec<Vec<char>> = Vec::new();
    let mut k: usize = c;
    while k < f.len()
        invariant
            c <= k <= f@.len(),
            views(out@) == Seq::new((k - c) as nat, |i: int| dotdot()),
        decreases f@.len() - k,
    {
        let mut d: Vec<char> = Vec::new();
        d.push('.');
        d.push('.');
        let ghost prevo = views(out@);
        proof {
            assert(d@ =~= dotdot());
        }
        out.push(d);
        proof {
            assert(views(out@) =~= prevo.push(dotdot()));
            assert(views(out@) =~= Seq::new((k + 1 - c) as nat, |i: int| dotdot()));
        }
        k = k + 1;
    }
    let ghost ups = views(out@);
    let mut j: usize = c;
    while j < t.len()
        invariant
            c <= j <= t@.len(),
            tv == views(t@),
            views(out@) == ups + tv.subrange(c as int, j as int),
        decreases t@.len() - j,
    {
        let ghost prevo = views(out@);
        let x = crate::seqs::copy_chars(&t[j]);
        out.push(x);
        proof {
            assert(views(out@) =~= prevo.push(tv[j as int]));
            assert(views(out@) =~= ups + tv.subrange(c as int, j + 1));
        }
        j = j + 1;
    }
    proof {
        assert(tv.subrange(c as int, tv.len() as int) =~= tv.skip(c as int));
    }
    if out.len() == 0 && to_file.len() > 0 && is_normal_exec(to_file[to_file.len() - 1].as_slice()) {
        let mut one: Vec<Vec<char>> = Vec::new();
        one.push(crate::seqs::copy_chars(&to_file[to_file.len() - 1]));
        proof {
            assert(views(one@) =~= seq![views(to_file@).last()]);
        }
        return one;
    }
    out
}

/// The href a generated page at `page` (relative to the HTML root) should
/// carry for `href`, given the relative paths of all generated files.
pub open spec fn rewritten_href(href: Seq<char>, page: Seq<char>, known: Seq<Seq<char>>) -> Seq<
    char,
> {
    if left_alone(href) {
        href
    } else {
        let cut = query_cut(href, 0);
        let p = html_target(href.take(cut));
        let suffix = href.skip(cut);
        if p.len() == 0 || p[0] == '/' || (page.len() > 0 && page[0] == '/') {
            href
        } else {
            match norm_rel(page_dir(page) + comps(p)) {
                None => href,
                Some(res) => match known_match(res, known) {
                    None => href,
                    Some(actual) => encoded_path(rel_from(page_dir(page), actual)) + suffix,
                },
            }
        }
    }
}

fn page_dir_of(page: &[char]) -> (r: Vec<Vec<char>>)
    ensures
        views(r@) == page_dir(page@),
{
    let mut cs = comps_of(page);
    if cs.len() > 0 {
        let ghost before = views(cs@);
        cs.pop();
        proof {
            assert(views(cs@) =~= before.drop_last());
        }
    }
    cs
}

/// Map one href onto a known generated file, then emit a URL-safe relative path.
pub fn rewrite_href(href: &str, page_rel: &str, known: &[String]) -> (r: String)
    ensures
        r@ == rewritten_href(href@, page_rel@, crate::text::strs(known@)),
{
    let h = chars_of(href);
    if left_alone_exec(&h) {
        return string_of(&h);
    }
    let cut = query_cut_exec(&h);
    let path0 = copy_range(&h, 0, cut);
    let suffix = copy_range(&h, cut, h.len());
    proof {
        reveal_strlit(".md");
    }
    let p = if crate::text::ends_with_str(&path0, ".md") {
        let mut q = copy_range(&path0, 0, path0.len() - 3);
        push_str(&mut q, ".html");
        q
    } else {
        path0
    };
    proof {
        assert(p@ == html_target(h@.take(cut as int)));
    }
    let page = chars_of(page_rel);
    if p.len() == 0 || p[0] == '/' || (page.len() > 0 && page[0] == '/') {
        return string_of(&h);
    }
    let dir = page_dir_of(&page);
    let pc = comps_of(&p);
    let mut joined: Vec<Vec<char>> = Vec::new();
    let mut i: usize = 0;
    while i < dir.len()
        invariant
            i <= dir@.len(),
            views(joined@) == views(dir@).take(i as int),
        decreases dir@.len() - i,
    {
        joined.push(crate::seqs::copy_chars(&dir[i]));
        proof {
            assert(views(dir@).take(i + 1) =~= views(dir@).take(i as int).push(dir@[i as int]@));
            assert(views(joined@) =~= views(dir@).take(i + 1));
        }
        i = i + 1;
    }
    let ghost head = views(joined@);
    let mut j: usize = 0;
    while j < pc.len()
        invariant
            j <= pc@.len(),
            head == views(dir@).take(dir@.len() as int),
            views(joined@) == head + views(pc@).take(j as int),
        decreases pc@.len() - j,
    {
        let ghost prevj = views(joined@);
        let x = crate::seqs::copy_chars(&pc[j]);
        joined.push(x);
        proof {
            assert(views(joined@) =~= prevj.push(pc@[j as int]@));
            assert(views(pc@).take(j + 1) =~= views(pc@).take(j as int).push(pc@[j as int]@));
            assert(views(joined@) =~= head + views(pc@).take(j + 1));
        }
        j = j + 1;
    }
    proof {
        assert(views(dir@).take(dir@.len() as int) =~= views(dir@));
        assert(views(pc@).take(pc@.len() as int) =~= views(pc@));
    }
    let res = match norm_rel_of(&joined) {
        None => {
            return string_of(&h);
        },
        Some(v) => v,
    };
    let actual = match known_match_exec(&res, known) {
        None => {
            return string_of(&h);
        },
        Some(a) => a,
    };
    let rel = rel_from_exec(&dir, &actual);
    let mut out = encode_comps(&rel);
    push_all(&mut out, &suffix);
    string_of(&out)
}

/// Every `href="…"` value of a page rewritten by [`rewrite_href`]; a value
/// without its closing quote is left as it is.
pub open spec fn rewritten_page(html: Seq<char>, page: Seq<char>, known: Seq<Seq<char>>) -> Seq<char>
    decreases html.len(),
{
    match find(html, "href=\""@) {
        None => html,
        Some(idx) => {
            if idx < 0 || idx + 6 > html.len() {
                html
            } else {
                let rest = html.skip(idx + 6);
                match find_char_from(rest, '"', 0) {
                    None => html,
                    Some(end) => if 0 <= end < rest.len() {
                        html.take(idx) + "href=\""@ + rewritten_href(rest.take(end), page, known)
                            + "\""@ + rewritten_page(rest.skip(end + 1), page, known)
                    } else {
                        html
                    },
                }
            }
        },
    }
}

/// The attribute opening an href value.
pub open spec fn href_open() -> Seq<char> {
    "href=\""@
}

/// A page piece with no `href="` in it.
pub open spec fn href_free(s: Seq<char>) -> bool {
    find(s, href_open()) is None
}

/// A page without any `href="` is left exactly as it is.
pub proof fn lemma_rewrite_href_free(html: Seq<char>, page: Seq<char>, known: Seq<Seq<char>>)
    requires
        href_free(html),
    ensures
        rewritten_page(html, page, known) == html,
{
}

/// The first href of a page is rewritten and the rewriting goes on in the
/// rest of the page: for a lead `p1` without `href="`, one complete value `v`
/// and whatever follows (`p2`), the page comes out as `p1`, the rewritten
/// value between its quotes, and the rewriting of `p2`. With
/// [`lemma_rewrite_href_free`] this says every href of a page is rewritten.
pub proof fn lemma_rewrite_every_href(p1: Seq<char>, v: Seq<char>, p2: Seq<char>, page: Seq<char>, known: Seq<Seq<char>>)
    requires
        href_free(p1),
        forall|i: int| 0 <= i < v.len() ==> v[i] != '"',
    ensures
        rewritten_page(p1 + href_open() + v + seq!['"'] + p2, page, known) == p1 + href_open()
            + rewritten_href(v, page, known) + seq!['"'] + rewritten_page(p2, page, known),
{
    reveal_strlit("href=\"");
    reveal_strlit("\"");
    let pat = href_open();
    let h = p1 + pat + v + seq!['"'] + p2;
    let n = p1.len() as int;
    assert(pat.len() == 6);
    assert(h.subrange(n, n + 6) =~= pat);
    assert(occurs_at(h, pat, n));
    lemma_find_from_props(h, pat, 0);
    lemma_find_from_props(p1, pat, 0);
    let k = find(h, pat)->0;
    assert(k == n) by {
        if k < n {
            if k + 6 <= n {
                assert(p1.subrange(k, k + 6) =~= h.subrange(k, k + 6));
                assert(occurs_at(p1, pat, k));
            } else {
                let d = n - k;
                assert(h[n] == 'h');
                assert(h.subrange(k, k + 6)[d] == h[n]);
                assert(pat[d] != 'h');
            }
        }
    }
    let rest = h.skip(n + 6);
    assert(rest =~= v + seq!['"'] + p2);
    lemma_find_char_props(rest, '"', 0);
    assert(rest[v.len() as int] == '"');
    let e = find_char_from(rest, '"', 0)->0;
    assert(e == v.len());
    assert(rest.take(e) =~= v);
    assert(rest.skip(e + 1) =~= p2);
    assert(h.take(n) =~= p1);
}

/// Rewrite the hrefs of one generated page at `page_rel`.
pub fn rewrite_page_hrefs(html: &str, page_rel: &str, known: &[String]) -> (r: String)
    ensures
        r@ == rewritten_page(html@, page_rel@, crate::text::strs(known@)),
{
    let ghost kv = crate::text::strs(known@);
    let mut rest = chars_of(html);
    let mut out: Vec<char> = Vec::new();
    let ghost total = rewritten_page(html@, page_rel@, kv);
    loop
        invariant
            out@ + rewritten_page(rest@, page_rel@, kv) == total,
            total == rewritten_page(html@, page_rel@, kv),
            kv == crate::text::strs(known@),
        decreases rest@.len(),
    {
        let ghost rv = rest@;
        let ghost out0 = out@;
        let idx = match find_str(&rest, "href=\"", 0) {
            None => {
                proof {
                    assert(find(rv, "href=\""@) is None);
                    assert(rewritten_page(rv, page_rel@, kv) == rv);
                }
                push_all(&mut out, &rest);
                return string_of(&out);
            },
            Some(i) => i,
        };
        proof {
            crate::text::lemma_find_from_props(rv, "href=\""@, 0);
            reveal_strlit("href=\"");
            assert(idx + 6 <= rv.len());
            assert(rv.len() == rest.len());
        }
        let after = copy_range(&rest, idx + 6, rest.len());
        match find_char(&after, '"', 0) {
            None => {
                push_all(&mut out, &rest);
                return string_of(&out);
            },
            Some(end) => {
                proof {
                    lemma_find_char_props(after@, '"', 0);
                }
                let head = copy_range(&rest, 0, idx);
                push_all(&mut out, &head);
                push_str(&mut out, "href=\"");
                let target = copy_range(&after, 0, end);
                let ts = string_of(&target);
                let rw = rewrite_href(ts.as_str(), page_rel, known);
                push_str(&mut out, rw.as_str());
                out.push('"');
                let next = copy_range(&after, end + 1, after.len());
                proof {
                    assert(after@ =~= rv.skip(idx + 6));
                    assert(next@ =~= rv.skip(idx + 6).skip(end + 1));
                    assert(head@ =~= rv.take(idx as int));
                    assert(target@ =~= rv.skip(idx + 6).take(end as int));
                    assert(rewritten_page(rv, page_rel@, kv) == head@ + "href=\""@ + rw@ + "\""@
                        + rewritten_page(next@, page_rel@, kv));
                    reveal_strlit("\"");
                    assert(out@ =~= out0 + head@ + "href=\""@ + rw@ + "\""@);
                }
                rest = next;
            },
        }
    }
}


// ───────────────────────── the links lead where they should ─────────────────────────

pub open spec fn all_normal(s: Seq<Seq<char>>) -> bool {
    forall|i: int| 0 <= i < s.len() ==> is_normal(#[trigger] s[i])
}

proof fn lemma_normals_all_normal(cs: Seq<Seq<char>>)
    ensures
        all_normal(normals(cs)),
    decreases cs.len(),
{
    if cs.len() > 0 {
        lemma_normals_all_normal(cs.drop_last());
    }
}

/// Resolving `o`'s resolution followed by plain names appends them.
proof fn lemma_norm_rel_append_normals(x: Seq<Seq<char>>, tail: Seq<Seq<char>>, o: Seq<Seq<char>>)
    requires
        norm_rel(x) == Some(o),
        all_normal(tail),
    ensures
        norm_rel(x + tail) == Some(o + tail),
    decreases tail.len(),
{
    if tail.len() == 0 {
        assert(x + tail =~= x);
        assert(o + tail =~= o);
    } else {
        let init = tail.drop_last();
        assert forall|i: int| 0 <= i < init.len() implies is_normal(#[trigger] init[i]) by {
            assert(init[i] == tail[i]);
        }
        lemma_norm_rel_append_normals(x, init, o);
        assert((x + tail).drop_last() =~= x + init);
        assert((x + tail).last() == tail.last());
        assert(is_normal(tail[tail.len() - 1]));
        assert((o + init).push(tail.last()) =~= o + tail);
    }
}

/// `k` climbs from plain names drop the last `k` of them.
proof fn lemma_norm_rel_climb(s: Seq<Seq<char>>, k: nat)
    requires
        all_normal(s),
        k <= s.len(),
    ensures
        norm_rel(s + Seq::new(k, |i: int| dotdot())) == Some(s.take(s.len() - k)),
    decreases k,
{
    if k == 0 {
        assert(s + Seq::new(0, |i: int| dotdot()) =~= s);
        assert(s.take(s.len() as int) =~= s);
        lemma_norm_rel_append_normals(Seq::<Seq<char>>::empty(), s, Seq::<Seq<char>>::empty());
        assert(Seq::<Seq<char>>::empty() + s =~= s);
    } else {
        lemma_norm_rel_climb(s, (k - 1) as nat);
        let full = s + Seq::new(k, |i: int| dotdot());
        assert(full.drop_last() =~= s + Seq::new((k - 1) as nat, |i: int| dotdot()));
        assert(full.last() == dotdot());
        assert(s.take(s.len() - (k - 1)).drop_last() =~= s.take(s.len() - k));
    }
}

/// A link built by `rel_from` leads back: resolving it from the page's
/// directory reaches the target file (unless the target path names the
/// directory itself).
pub proof fn lemma_rel_from_resolves(from_dir: Seq<Seq<char>>, to_file: Seq<Seq<char>>)
    requires
        normals(from_dir) != normals(to_file),
    ensures
        norm_rel(normals(from_dir) + rel_from(from_dir, to_file)) == Some(normals(to_file)),
{
    let f = normals(from_dir);
    let t = normals(to_file);
    lemma_normals_all_normal(from_dir);
    lemma_normals_all_normal(to_file);
    lemma_common_len_bound(f, t);
    let c = common_len(f, t) as int;
    let ups = Seq::new((f.len() - c) as nat, |i: int| dotdot());
    let tail = t.skip(c);
    let out = ups + tail;
    assert(out.len() > 0) by {
        if out.len() == 0 {
            assert(c == f.len() && c == t.len());
            assert(f =~= t);
        }
    }
    assert(rel_from(from_dir, to_file) == out);
    lemma_norm_rel_climb(f, (f.len() - c) as nat);
    assert(f.take(f.len() - (f.len() - c)) =~= f.take(c));
    assert forall|i: int| 0 <= i < tail.len() implies is_normal(#[trigger] tail[i]) by {
        assert(tail[i] == t[i + c]);
    }
    lemma_norm_rel_append_normals(f + ups, tail, f.take(c));
    assert(f + out =~= (f + ups) + tail);
    assert(f.take(c) =~= t.take(c));
    assert(t.take(c) + tail =~= t);
}

} // verus!
