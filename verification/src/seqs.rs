//! Collections of strings as character sequences: membership, distinctness
//! and the lexicographic order that `String`'s `Ord` uses.
use crate::text::{chars_eq, chars_of, copy_range, string_of, strs, views};
use vstd::prelude::*;

verus! {

/// No element occurs twice.
pub open spec fn distinct(s: Seq<Seq<char>>) -> bool {
    forall|i: int, j: int| 0 <= i < j < s.len() ==> s[i] != s[j]
}

/// Index of `x` in `v`, if present.
pub fn index_of(v: &Vec<Vec<char>>, x: &[char]) -> (r: Option<usize>)
    ensures
        match r {
            Some(i) => i < v@.len() && views(v@)[i as int] == x@,
            None => !views(v@).contains(x@),
        },
{
    let mut i: usize = 0;
    while i < v.len()
        invariant
            i <= v@.len(),
            forall|j: int| 0 <= j < i ==> views(v@)[j] != x@,
        decreases v@.len() - i,
    {
        if chars_eq(&v[i], x) {
            return Some(i);
        }
        i = i + 1;
    }
    proof {
        if views(v@).contains(x@) {
            let j = choose|j: int| 0 <= j < views(v@).len() && views(v@)[j] == x@;
            assert(views(v@)[j] == x@);
        }
    }
    None
}

/// Membership of a character sequence in a vector of them.
pub fn contains_chars(v: &Vec<Vec<char>>, x: &[char]) -> (r: bool)
    ensures
        r == views(v@).contains(x@),
{
    match index_of(v, x) {
        Some(i) => {
            assert(views(v@)[i as int] == x@);
            true
        },
        None => false,
    }
}

pub fn copy_chars(v: &Vec<char>) -> (r: Vec<char>)
    ensures
        r@ == v@,
{
    copy_range(v, 0, v.len())
}

/// Lexicographic order on code points, which is the order of `String` (UTF-8
/// byte order agrees with code point order).
pub open spec fn lex_lt(a: Seq<char>, b: Seq<char>) -> bool
    decreases a.len(),
{
    if a.len() == 0 {
        b.len() > 0
    } else if b.len() == 0 {
        false
    } else if a[0] != b[0] {
        (a[0] as u32) < (b[0] as u32)
    } else {
        lex_lt(a.drop_first(), b.drop_first())
    }
}

pub proof fn lemma_lex_irrefl(a: Seq<char>)
    ensures
        !lex_lt(a, a),
    decreases a.len(),
{
    if a.len() > 0 {
        lemma_lex_irrefl(a.drop_first());
    }
}

pub proof fn lemma_char_u32_inj(x: char, y: char)
    ensures
        (x as u32) == (y as u32) ==> x == y,
{
    vstd::utf8::char_u32_cast(x, x as u32);
}

pub proof fn lemma_lex_total(a: Seq<char>, b: Seq<char>)
    ensures
        a == b || lex_lt(a, b) || lex_lt(b, a),
    decreases a.len(),
{
    if a.len() > 0 && b.len() > 0 {
        if a[0] == b[0] {
            lemma_lex_total(a.drop_first(), b.drop_first());
            if a.drop_first() == b.drop_first() {
                assert(a =~= seq![a[0]] + a.drop_first());
                assert(b =~= seq![b[0]] + b.drop_first());
            }
        } else {
            lemma_char_u32_inj(a[0], b[0]);
        }
    } else if a.len() == 0 && b.len() == 0 {
        assert(a =~= b);
    }
}

pub proof fn lemma_lex_asym(a: Seq<char>, b: Seq<char>)
    ensures
        lex_lt(a, b) ==> !lex_lt(b, a),
    decreases a.len(),
{
    if a.len() > 0 && b.len() > 0 && a[0] == b[0] {
        lemma_lex_asym(a.drop_first(), b.drop_first());
    }
}

pub proof fn lemma_lex_trans(a: Seq<char>, b: Seq<char>, c: Seq<char>)
    ensures
        lex_lt(a, b) && lex_lt(b, c) ==> lex_lt(a, c),
    decreases a.len(),
{
    if a.len() > 0 && b.len() > 0 && c.len() > 0 && a[0] == b[0] && b[0] == c[0] {
        lemma_lex_trans(a.drop_first(), b.drop_first(), c.drop_first());
    }
}

/// `a < b` in `String` order.
pub fn lex_less(a: &[char], b: &[char]) -> (r: bool)
    ensures
        r == lex_lt(a@, b@),
{
    let mut i: usize = 0;
    assert(a@.skip(0) =~= a@);
    assert(b@.skip(0) =~= b@);
    while i < a.len() && i < b.len() && a[i] == b[i]
        invariant
            i <= a@.len(),
            i <= b@.len(),
            lex_lt(a@, b@) == lex_lt(a@.skip(i as int), b@.skip(i as int)),
        decreases a@.len() - i,
    {
        proof {
            assert(a@.skip(i as int).drop_first() =~= a@.skip(i + 1));
            assert(b@.skip(i as int).drop_first() =~= b@.skip(i + 1));
        }
        i = i + 1;
    }
    if i == a.len() {
        i < b.len()
    } else if i == b.len() {
        false
    } else {
        (a[i] as u32) < (b[i] as u32)
    }
}

/// Strictly increasing in `String` order.
pub open spec fn strictly_sorted(s: Seq<Seq<char>>) -> bool {
    forall|i: int, j: int| 0 <= i < j < s.len() ==> lex_lt(s[i], s[j])
}

/// Sort distinct strings into increasing order.
pub fn sort_distinct(v: Vec<Vec<char>>) -> (r: Vec<Vec<char>>)
    requires
        distinct(views(v@)),
    ensures
        strictly_sorted(views(r@)),
        views(r@).to_set() == views(v@).to_set(),
        views(r@).len() == views(v@).len(),
{
    let ghost src = views(v@);
    let mut out: Vec<Vec<char>> = Vec::new();
    let mut i: usize = 0;
    proof {
        assert(views(out@).to_set() =~= src.take(0).to_set());
    }
    while i < v.len()
        invariant
            i <= v@.len(),
            src == views(v@),
            distinct(src),
            strictly_sorted(views(out@)),
            views(out@).to_set() == src.take(i as int).to_set(),
            views(out@).len() == i,
        decreases v@.len() - i,
    {
        let x = copy_chars(&v[i]);
        let ghost xs = x@;
        // position of the first element greater than x
        let mut k: usize = 0;
        while k < out.len() && lex_less(&out[k], &x)
            invariant
                k <= out@.len(),
                x@ == xs,
                forall|j: int| 0 <= j < k ==> lex_lt(views(out@)[j], xs),
            decreases out@.len() - k,
        {
            k = k + 1;
        }
        let ghost before = views(out@);
        proof {
            assert(!src.take(i as int).contains(xs)) by {
                if src.take(i as int).contains(xs) {
                    let j = choose|j: int| 0 <= j < i && src.take(i as int)[j] == xs;
                    assert(src[j] == src[i as int]);
                }
            }
            assert(!before.contains(xs)) by {
                if before.contains(xs) {
                    let j = choose|j: int| 0 <= j < before.len() && before[j] == xs;
                    assert(before.to_set().contains(xs));
                }
            }
            if k < out@.len() {
                lemma_lex_total(before[k as int], xs);
                assert(before[k as int] != xs);
                assert(lex_lt(xs, before[k as int]));
            }
        }
        out.insert(k, x);
        proof {
            let after = views(out@);
            assert(after =~= before.insert(k as int, xs));
            assert forall|a: int, b: int| 0 <= a < b < after.len() implies lex_lt(
                after[a],
                after[b],
            ) by {
                if b < k {
                } else if b == k {
                } else if a < k {
                    lemma_lex_trans(after[a], xs, after[b]);
                    if k + 1 < b {
                        lemma_lex_trans(xs, before[k as int], after[b]);
                    }
                } else if a == k {
                    if k + 1 < b {
                        lemma_lex_trans(xs, before[k as int], after[b]);
                    }
                } else {
                }
            }
            assert(src.take((i + 1) as int) =~= src.take(i as int).push(xs));
            assert(after.to_set() =~= before.to_set().insert(xs)) by {
                assert forall|y: Seq<char>| after.to_set().contains(y) implies before.to_set().insert(
                    xs,
                ).contains(y) by {
                    let j = choose|j: int| 0 <= j < after.len() && after[j] == y;
                    if j < k {
                        assert(before[j] == y);
                    } else if j > k {
                        assert(before[j - 1] == y);
                    }
                }
                assert forall|y: Seq<char>| before.to_set().insert(xs).contains(y) implies after.to_set().contains(
                    y,
                ) by {
                    if y == xs {
                        assert(after[k as int] == xs);
                    } else {
                        let j = choose|j: int| 0 <= j < before.len() && before[j] == y;
                        if j < k {
                            assert(after[j] == y);
                        } else {
                            assert(after[j + 1] == y);
                        }
                    }
                }
            }
            let t1 = src.take((i + 1) as int);
            let t0 = src.take(i as int);
            assert(t1.to_set() =~= t0.to_set().insert(xs)) by {
                assert forall|y: Seq<char>| t1.to_set().contains(y) implies t0.to_set().insert(
                    xs,
                ).contains(y) by {
                    let j = choose|j: int| 0 <= j < t1.len() && t1[j] == y;
                    if j < i {
                        assert(t0[j] == y);
                    }
                }
                assert forall|y: Seq<char>| t0.to_set().insert(xs).contains(y) implies t1.to_set().contains(
                    y,
                ) by {
                    if y == xs {
                        assert(t1[i as int] == xs);
                    } else {
                        let j = choose|j: int| 0 <= j < t0.len() && t0[j] == y;
                        assert(t1[j] == y);
                    }
                }
            }
        }
        i = i + 1;
    }
    proof {
        assert(src.take(v@.len() as int) =~= src);
    }
    out
}


/// No later element is smaller than an earlier one, in `String` order.
pub open spec fn sorted_strs(s: Seq<Seq<char>>) -> bool {
    forall|i: int, j: int| 0 <= i < j < s.len() ==> !lex_lt(s[j], s[i])
}

/// `slice::sort` on strings: the same strings, in increasing order.
pub fn sort_strings(v: &Vec<String>) -> (r: Vec<String>)
    ensures
        sorted_strs(strs(r@)),
        strs(r@).to_multiset() == strs(v@).to_multiset(),
{
    broadcast use vstd::seq_lib::group_to_multiset_ensures;
    let ghost src = strs(v@);
    let mut out: Vec<String> = Vec::new();
    let mut i: usize = 0;
    proof {
        assert(strs(out@) =~= src.take(0));
    }
    while i < v.len()
        invariant
            i <= v@.len(),
            src == strs(v@),
            sorted_strs(strs(out@)),
            strs(out@).to_multiset() == src.take(i as int).to_multiset(),
        decreases v@.len() - i,
    {
        let xc = chars_of(v[i].as_str());
        let ghost xs = xc@;
        let mut k: usize = 0;
        while k < out.len() && !lex_less(&xc, &chars_of(out[k].as_str()))
            invariant
                k <= out@.len(),
                xc@ == xs,
                forall|j: int| 0 <= j < k ==> !lex_lt(xs, #[trigger] strs(out@)[j]),
            decreases out@.len() - k,
        {
            k = k + 1;
        }
        let ghost before = strs(out@);
        out.insert(k, string_of(&xc));
        proof {
            let after = strs(out@);
            assert(after =~= before.insert(k as int, xs));
            assert forall|a: int, b: int| 0 <= a < b < after.len() implies !lex_lt(
                after[b],
                after[a],
            ) by {
                if b < k {
                    assert(after[a] == before[a] && after[b] == before[b]);
                } else if b == k {
                    assert(after[a] == before[a]);
                } else if a == k {
                    assert(after[b] == before[b - 1]);
                    assert(lex_lt(xs, before[k as int]));
                    if lex_lt(before[b - 1], xs) {
                        lemma_lex_trans(before[b - 1], xs, before[k as int]);
                        if b - 1 == k {
                            lemma_lex_irrefl(before[k as int]);
                        }
                    }
                } else if a < k {
                    assert(after[a] == before[a] && after[b] == before[b - 1]);
                } else {
                    assert(after[a] == before[a - 1] && after[b] == before[b - 1]);
                }
            }
            vstd::seq_lib::to_multiset_insert(before, k as int, xs);
            assert(src.take(i + 1) =~= src.take(i as int).push(xs));
            vstd::seq_lib::to_multiset_build(src.take(i as int), xs);
            assert(strs(out@).to_multiset() =~= src.take(i + 1).to_multiset());
        }
        i = i + 1;
    }
    proof {
        assert(src.take(v@.len() as int) =~= src);
    }
    out
}

} // verus!
