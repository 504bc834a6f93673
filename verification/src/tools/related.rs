//! Subject normalization and tokens for finding related threads.
use crate::ids::{normalize_message_id, normalized_id};
use crate::seqs::{contains_chars, distinct};
use crate::text::{
    CharClass, after_prefix, chars_of, copy_range, find_char, find_char_from, has_prefix,
    lemma_find_char_props, lemma_strip_end_len, lemma_strip_start_len, starts_with_str,
    string_of, strip_start, strip_start_of, trim, trim_of, trim_start, views, is_alnum, lower_seq,
    ascii_lowercase, eq_str, strs, strings_of,
};
use crate::email_index::{EmailIndex, EmailMeta, rfc3339_string, rfc3339_text, thread_root, thread_root_id};
use crate::numfmt::{decimal, push_decimal};
use crate::seqs::{lex_less, lex_lt, lemma_lex_total, lemma_lex_trans, lemma_lex_asym, lemma_lex_irrefl};
use crate::text::{debug_string, debug_text, join, push_str};
use vstd::hash_map::StringHashMap;
use vstd::prelude::*;

verus! {

broadcast use {vstd::string::group_string_axioms, vstd::hash_map::group_hash_map_axioms};

/// The text `str::to_lowercase` gives (full Unicode lowercase mapping).
pub uninterp spec fn lowercase_text(s: Seq<char>) -> Seq<char>;

/// `str::to_lowercase`.
#[verifier::external_body]
fn to_lowercase(s: &str) -> (r: String)
    ensures
        r@ == lowercase_text(s@),
{
    s.to_lowercase()
}

/// `s` without a leading `p` and the whitespace after it.
pub open spec fn strip_reply(s: Seq<char>, p: Seq<char>) -> Seq<char> {
    if has_prefix(s, p) {
        trim_start(after_prefix(s, p))
    } else {
        s
    }
}

/// One pass over the reply/forward markers `re:`, `fwd:`, `fw:`, `aw:`, `sv:`, in that order.
pub open spec fn strip_replies(s: Seq<char>) -> Seq<char> {
    strip_reply(
        strip_reply(strip_reply(strip_reply(strip_reply(s, "re:"@), "fwd:"@), "fw:"@), "aw:"@),
        "sv:"@,
    )
}

/// One round of subject cleaning: trim, drop reply markers, then drop a
/// leading `[...]` tag. The flag says whether another round follows.
pub open spec fn subject_pass(s: Seq<char>) -> (Seq<char>, bool) {
    let t = strip_replies(trim(s));
    if t.len() > 0 && t[0] == '[' && find_char_from(t, ']', 0) is Some {
        let end = find_char_from(t, ']', 0)->0;
        (trim_start(t.subrange(end + 1, t.len() as int)), true)
    } else {
        (t, t != s)
    }
}

pub proof fn lemma_strip_reply_shrinks(s: Seq<char>, p: Seq<char>)
    ensures
        strip_reply(s, p).len() <= s.len(),
        strip_reply(s, p).len() == s.len() ==> strip_reply(s, p) == s,
{
    if has_prefix(s, p) {
        lemma_strip_start_len(CharClass::Space, after_prefix(s, p));
        if p.len() == 0 {
            assert(after_prefix(s, p) =~= s);
        }
    }
}

pub proof fn lemma_pass_shrinks(s: Seq<char>)
    ensures
        subject_pass(s).0.len() <= s.len(),
        subject_pass(s).1 ==> subject_pass(s).0.len() < s.len(),
{
    let t0 = trim(s);
    lemma_strip_start_len(CharClass::Space, s);
    lemma_strip_end_len(CharClass::Space, strip_start(CharClass::Space, s));
    let t1 = strip_reply(t0, "re:"@);
    let t2 = strip_reply(t1, "fwd:"@);
    let t3 = strip_reply(t2, "fw:"@);
    let t4 = strip_reply(t3, "aw:"@);
    let t = strip_reply(t4, "sv:"@);
    lemma_strip_reply_shrinks(t0, "re:"@);
    lemma_strip_reply_shrinks(t1, "fwd:"@);
    lemma_strip_reply_shrinks(t2, "fw:"@);
    lemma_strip_reply_shrinks(t3, "aw:"@);
    lemma_strip_reply_shrinks(t4, "sv:"@);
    if t.len() > 0 && t[0] == '[' && find_char_from(t, ']', 0) is Some {
        lemma_find_char_props(t, ']', 0);
        let end = find_char_from(t, ']', 0)->0;
        lemma_strip_start_len(CharClass::Space, t.subrange(end + 1, t.len() as int));
    }
}

/// Rounds of `subject_pass` until one changes nothing more.
pub open spec fn subject_fix(s: Seq<char>) -> Seq<char>
    decreases s.len(),
{
    let (t, again) = subject_pass(s);
    if again {
        proof {
            lemma_pass_shrinks(s);
        }
        subject_fix(t)
    } else {
        t
    }
}

/// The normalized subject: trimmed, lowercased, without reply markers and tags.
pub open spec fn normalized_subject(subject: Seq<char>) -> Seq<char> {
    subject_fix(lowercase_text(trim(subject)))
}

fn strip_reply_exec(s: Vec<char>, p: &str) -> (r: Vec<char>)
    ensures
        r@ == strip_reply(s@, p@),
{
    if starts_with_str(&s, p) {
        let pv = chars_of(p);
        let rest = copy_range(&s, pv.len(), s.len());
        strip_start_of(CharClass::Space, &rest)
    } else {
        s
    }
}

/// Strip `Re:`/`Fwd:`/`[PATCH …]` noise from an already lowercased subject,
/// round after round until nothing changes.
pub fn normalize_lowered_subject(lowered: &str) -> (r: String)
    ensures
        r@ == subject_fix(lowered@),
{
    let mut s = chars_of(lowered);
    loop
        invariant
            subject_fix(s@) == subject_fix(lowered@),
        decreases s@.len(),
    {
        let before = s.clone();
        proof {
            assert(before@ == s@);
            lemma_pass_shrinks(s@);
        }
        let t0 = trim_of(&s);
        let t1 = strip_reply_exec(t0, "re:");
        let t2 = strip_reply_exec(t1, "fwd:");
        let t3 = strip_reply_exec(t2, "fw:");
        let t4 = strip_reply_exec(t3, "aw:");
        let t = strip_reply_exec(t4, "sv:");
        if t.len() > 0 && t[0] == '[' {
            match find_char(&t, ']', 0) {
                Some(end) => {
                    proof {
                        lemma_find_char_props(t@, ']', 0);
                    }
                    let rest = copy_range(&t, end + 1, t.len());
                    s = strip_start_of(CharClass::Space, &rest);
                    continue;
                },
                None => {},
            }
        }
        if crate::text::chars_eq(&t, &before) {
            return string_of(&t);
        }
        s = t;
    }
}

/// Strip `Re:`/`Fwd:`/`[PATCH …]` noise and lowercase.
pub fn normalize_subject(subject: &str) -> (r: String)
    ensures
        r@ == normalized_subject(subject@),
{
    let lowered = to_lowercase(crate::text::trim_slice(subject));
    normalize_lowered_subject(lowered.as_str())
}

// ───────────────────────── tokens ─────────────────────────

/// Words too common to relate threads.
pub open spec fn stopword(t: Seq<char>) -> bool {
    t == "the"@ || t == "and"@ || t == "for"@ || t == "with"@ || t == "from"@ || t == "this"@
        || t == "that"@ || t == "nfs"@ || t == "patch"@ || t == "linux"@
}

/// Scan of `s` cut at every character that is not an ASCII letter or digit:
/// the finished pieces and the current one.
pub open spec fn alnum_scan(s: Seq<char>) -> (Seq<Seq<char>>, Seq<char>)
    decreases s.len(),
{
    if s.len() == 0 {
        (seq![], seq![])
    } else {
        let (done, cur) = alnum_scan(s.drop_last());
        if is_alnum(s.last()) {
            (done, cur.push(s.last()))
        } else {
            (done.push(cur), seq![])
        }
    }
}

/// The pieces of `s` split at every non-alphanumeric character.
pub open spec fn alnum_pieces(s: Seq<char>) -> Seq<Seq<char>> {
    alnum_scan(s).0.push(alnum_scan(s).1)
}

/// A piece yields a token: lowercased, at least three long, no stopword.
pub open spec fn keeps_token(piece: Seq<char>) -> bool {
    lower_seq(piece).len() >= 3 && !stopword(lower_seq(piece))
}

/// Some piece of `ps` yields the token `t`.
pub open spec fn piece_token(ps: Seq<Seq<char>>, t: Seq<char>) -> bool {
    exists|k: int| 0 <= k < ps.len() && keeps_token(#[trigger] ps[k]) && lower_seq(ps[k]) == t
}

proof fn lemma_piece_token_push(ps: Seq<Seq<char>>, c: Seq<char>, t: Seq<char>)
    ensures
        piece_token(ps.push(c), t) <==> (piece_token(ps, t) || (keeps_token(c) && lower_seq(c) == t)),
{
    if piece_token(ps.push(c), t) {
        let k = choose|k: int| 0 <= k < ps.push(c).len() && keeps_token(#[trigger] ps.push(c)[k]) && lower_seq(ps.push(c)[k]) == t;
        if k < ps.len() {
            assert(ps.push(c)[k] == ps[k]);
        }
    }
    if piece_token(ps, t) {
        let k = choose|k: int| 0 <= k < ps.len() && keeps_token(#[trigger] ps[k]) && lower_seq(ps[k]) == t;
        assert(ps.push(c)[k] == ps[k]);
    }
    if keeps_token(c) && lower_seq(c) == t {
        assert(ps.push(c)[ps.len() as int] == c);
    }
}

/// `t` is a token of the subject.
pub open spec fn is_subject_token(subject: Seq<char>, t: Seq<char>) -> bool {
    piece_token(alnum_pieces(normalized_subject(subject)), t)
}

fn is_stopword(t: &[char]) -> (r: bool)
    ensures
        r == stopword(t@),
{
    eq_str(t, "the") || eq_str(t, "and") || eq_str(t, "for") || eq_str(t, "with") || eq_str(
        t,
        "from",
    ) || eq_str(t, "this") || eq_str(t, "that") || eq_str(t, "nfs") || eq_str(t, "patch")
        || eq_str(t, "linux")
}

fn is_ascii_alnum(c: char) -> (r: bool)
    ensures
        r == is_alnum(c),
{
    ('0' <= c && c <= '9') || ('a' <= c && c <= 'z') || ('A' <= c && c <= 'Z')
}

/// Add the token of `piece` (if it yields one) to `set`.
fn add_token(set: &mut Vec<Vec<char>>, piece: &[char])
    requires
        distinct(views(old(set)@)),
    ensures
        distinct(views(final(set)@)),
        forall|t: Seq<char>|
            #[trigger] views(final(set)@).contains(t) <==> (views(old(set)@).contains(t) || (keeps_token(piece@)
                && lower_seq(piece@) == t)),
{
    let low = ascii_lowercase(piece);
    let ghost before = views(set@);
    if low.len() >= 3 && !is_stopword(&low) && !contains_chars(set, &low) {
        set.push(low);
        proof {
            assert(views(set@) =~= before.push(lower_seq(piece@)));
            assert forall|a: int, b: int| 0 <= a < b < views(set@).len() implies views(set@)[a] != views(set@)[b] by {
                if b == before.len() {
                    assert(before.contains(before[a]));
                }
            }
            assert forall|t: Seq<char>|
                #[trigger] views(set@).contains(t) <==> (before.contains(t) || (keeps_token(piece@)
                    && lower_seq(piece@) == t)) by {
                if views(set@).contains(t) {
                    let k = choose|k: int| 0 <= k < views(set@).len() && views(set@)[k] == t;
                    if k < before.len() {
                        assert(before[k] == t);
                    }
                }
                if before.contains(t) {
                    let k = choose|k: int| 0 <= k < before.len() && before[k] == t;
                    assert(views(set@)[k] == t);
                }
                if keeps_token(piece@) && lower_seq(piece@) == t {
                    assert(views(set@)[before.len() as int] == t);
                }
            }
        }
    }
}

/// The distinct tokens of a subject, in order of first occurrence: the
/// pieces of the normalized subject between non-alphanumeric characters,
/// lowercased, of length three or more, without stopwords.
pub fn subject_tokens(subject: &str) -> (r: Vec<String>)
    ensures
        distinct(strs(r@)),
        forall|t: Seq<char>| #[trigger] strs(r@).contains(t) <==> is_subject_token(subject@, t),
{
    let norm = normalize_subject(subject);
    let s = chars_of(norm.as_str());
    let ghost ns = s@;
    let mut set: Vec<Vec<char>> = Vec::new();
    let mut cur: Vec<char> = Vec::new();
    let mut i: usize = 0;
    assert(ns.take(0) =~= Seq::<char>::empty());
    while i < s.len()
        invariant
            i <= ns.len(),
            ns == s@,
            ns == normalized_subject(subject@),
            cur@ == alnum_scan(ns.take(i as int)).1,
            distinct(views(set@)),
            forall|t: Seq<char>|
                #[trigger] views(set@).contains(t) <==> piece_token(alnum_scan(ns.take(i as int)).0, t),
        decreases ns.len() - i,
    {
        let ghost pre = ns.take(i as int);
        let ghost post = ns.take(i + 1);
        proof {
            assert(post.drop_last() =~= pre);
            assert(post.last() == s@[i as int]);
        }
        if is_ascii_alnum(s[i]) {
            cur.push(s[i]);
            proof {
                assert(alnum_scan(post).0 == alnum_scan(pre).0);
            }
        } else {
            let ghost old_set = views(set@);
            assert(forall|t: Seq<char>| #[trigger] old_set.contains(t) <==> piece_token(alnum_scan(pre).0, t));
            add_token(&mut set, &cur);
            proof {
                let d = alnum_scan(pre).0;
                assert(alnum_scan(post).0 == d.push(cur@));
                assert forall|t: Seq<char>|
                    #[trigger] views(set@).contains(t) <==> piece_token(alnum_scan(post).0, t) by {
                    lemma_piece_token_push(d, cur@, t);
                    assert(old_set.contains(t) <==> piece_token(d, t));
                }
            }
            cur = Vec::new();
        }
        i = i + 1;
    }
    proof {
        assert(ns.take(i as int) =~= ns);
    }
    let ghost old_set = views(set@);
    assert(forall|t: Seq<char>| #[trigger] old_set.contains(t) <==> piece_token(alnum_scan(ns).0, t));
    add_token(&mut set, &cur);
    let out = strings_of(&set);
    proof {
        let d = alnum_scan(ns).0;
        assert(alnum_pieces(ns) == d.push(cur@));
        assert forall|t: Seq<char>| #[trigger] strs(out@).contains(t) <==> is_subject_token(subject@, t) by {
            lemma_piece_token_push(d, cur@, t);
            assert(old_set.contains(t) <==> piece_token(d, t));
        }
    }
    out
}

/// The normalized forms of the given roots, without repeats (an allow-list).
pub fn normalize_root_set(roots: &[String]) -> (r: Vec<String>)
    ensures
        distinct(strs(r@)),
        forall|t: Seq<char>|
            #[trigger] strs(r@).contains(t) <==> exists|k: int|
                0 <= k < roots@.len() && normalized_id(#[trigger] roots@[k]@) == t,
{
    let mut set: Vec<Vec<char>> = Vec::new();
    let mut i: usize = 0;
    while i < roots.len()
        invariant
            i <= roots@.len(),
            distinct(views(set@)),
            forall|t: Seq<char>|
                #[trigger] views(set@).contains(t) <==> exists|k: int|
                    0 <= k < i && normalized_id(#[trigger] roots@[k]@) == t,
        decreases roots@.len() - i,
    {
        let n = normalize_message_id(roots[i].as_str());
        let nc = chars_of(n.as_str());
        let ghost before = views(set@);
        if !contains_chars(&set, &nc) {
            set.push(nc);
            proof {
                assert(views(set@) =~= before.push(n@));
                assert forall|a: int, b: int| 0 <= a < b < views(set@).len() implies views(set@)[a] != views(set@)[b] by {
                    if b == before.len() {
                        assert(before.contains(before[a]));
                    }
                }
            }
        }
        proof {
            assert forall|t: Seq<char>|
                #[trigger] views(set@).contains(t) <==> exists|k: int|
                    0 <= k < i + 1 && normalized_id(#[trigger] roots@[k]@) == t by {
                if views(set@).contains(t) && !before.contains(t) {
                    assert(views(set@)[before.len() as int] == t);
                    assert(normalized_id(roots@[i as int]@) == t);
                }
                if exists|k: int| 0 <= k < i + 1 && normalized_id(#[trigger] roots@[k]@) == t {
                    let k = choose|k: int| 0 <= k < i + 1 && normalized_id(#[trigger] roots@[k]@) == t;
                    if k == i && before.contains(t) {
                    } else if k == i {
                        assert(views(set@)[before.len() as int] == t);
                    } else {
                        assert(before.contains(t));
                        let a = choose|a: int| 0 <= a < before.len() && before[a] == t;
                        assert(views(set@)[a] == t);
                    }
                } else {
                    if before.contains(t) {
                        let k = choose|k: int| 0 <= k < i && normalized_id(#[trigger] roots@[k]@) == t;
                        assert(0 <= k < i + 1);
                    }
                }
            }
        }
        i = i + 1;
    }
    let out = strings_of(&set);
    out
}

// ───────────────────────── related-thread search ─────────────────────────

/// Hits shown when the caller gives no limit.
pub const DEFAULT_RELATED_LIMIT: usize = 10;

/// Arguments for SearchRelatedThreads.
#[derive(Debug, Clone)]
pub struct SearchRelatedThreadsArgs {
    pub subject: String,
    pub limit: Option<usize>,
}

/// Message `i` may be searched: no allow-list, or its root is on it.
pub open spec fn in_scope(ms: Seq<EmailMeta>, allowed: Option<Seq<Seq<char>>>, i: int) -> bool {
    match allowed {
        None => true,
        Some(a) => a.contains(thread_root(ms[i])),
    }
}

/// Message `i`, among the first `n`, is searched and belongs to thread `r`.
pub open spec fn of_root(ms: Seq<EmailMeta>, allowed: Option<Seq<Seq<char>>>, r: Seq<char>, i: int, n: int) -> bool {
    0 <= i < n && i < ms.len() && in_scope(ms, allowed, i) && thread_root(ms[i]) == r
}

/// A message of thread `r` (among the first `n`) has the subject token `t`.
pub open spec fn root_token(ms: Seq<EmailMeta>, allowed: Option<Seq<Seq<char>>>, r: Seq<char>, t: Seq<char>, n: int) -> bool {
    exists|i: int| #[trigger] of_root(ms, allowed, r, i, n) && is_subject_token(ms[i].subject@, t)
}

/// How many of the query tokens `q` thread `r` shares.
pub open spec fn shared_tokens(q: Seq<Seq<char>>, ms: Seq<EmailMeta>, allowed: Option<Seq<Seq<char>>>, r: Seq<char>) -> nat
    decreases q.len(),
{
    if q.len() == 0 {
        0
    } else {
        shared_tokens(q.drop_last(), ms, allowed, r) + (if root_token(ms, allowed, r, q.last(), ms.len() as int) {
            1nat
        } else {
            0nat
        })
    }
}

/// One related thread: its score, root, title (subject of its earliest
/// message) and last activity (Unix seconds).
#[derive(Debug, Clone)]
pub struct RelatedHit {
    pub score: usize,
    pub root: String,
    pub title: String,
    pub last: i64,
}

/// The title and last activity of thread `r` over the first `n` messages.
pub open spec fn dates_of(ms: Seq<EmailMeta>, allowed: Option<Seq<Seq<char>>>, r: Seq<char>, title: Seq<char>, last: int, n: int) -> bool {
    &&& exists|i: int| #[trigger] of_root(ms, allowed, r, i, n) && ms[i].date == last
    &&& forall|i: int| #[trigger] of_root(ms, allowed, r, i, n) ==> ms[i].date <= last
    &&& exists|p: int|
        #[trigger] of_root(ms, allowed, r, p, n) && ms[p].subject@ == title && (forall|j: int|
            #[trigger] of_root(ms, allowed, r, j, n) ==> ms[p].date <= ms[j].date) && (forall|j: int|
            0 <= j < p && #[trigger] of_root(ms, allowed, r, j, n) ==> ms[p].date < ms[j].date)
}

/// `h` is the hit of its root for the query tokens `q`.
pub open spec fn hit_of(h: RelatedHit, ms: Seq<EmailMeta>, allowed: Option<Seq<Seq<char>>>, q: Seq<Seq<char>>) -> bool {
    &&& h.score == shared_tokens(q, ms, allowed, h.root@)
    &&& dates_of(ms, allowed, h.root@, h.title@, h.last as int, ms.len() as int)
}

/// Ranking: higher score first, then later activity, then smaller root.
pub open spec fn hit_before(a: RelatedHit, b: RelatedHit) -> bool {
    a.score > b.score || (a.score == b.score && (a.last > b.last || (a.last == b.last && lex_lt(
        a.root@,
        b.root@,
    ))))
}

/// What is known of one thread after the first `n` messages.
struct RootAgg {
    root: String,
    title: String,
    title_date: i64,
    last: i64,
    tokens: Vec<Vec<char>>,
}

#[verifier::opaque]
spec fn agg_ok(a: RootAgg, ms: Seq<EmailMeta>, allowed: Option<Seq<Seq<char>>>, n: int) -> bool {
    &&& exists|i: int| #[trigger] of_root(ms, allowed, a.root@, i, n) && ms[i].date == a.last
    &&& forall|i: int| #[trigger] of_root(ms, allowed, a.root@, i, n) ==> ms[i].date <= a.last
    &&& exists|p: int|
        #[trigger] of_root(ms, allowed, a.root@, p, n) && ms[p].subject@ == a.title@ && ms[p].date
            == a.title_date && (forall|j: int|
            #[trigger] of_root(ms, allowed, a.root@, j, n) ==> a.title_date <= ms[j].date) && (forall|j: int|
            0 <= j < p && #[trigger] of_root(ms, allowed, a.root@, j, n) ==> a.title_date < ms[j].date)
    &&& distinct(views(a.tokens@))
    &&& forall|t: Seq<char>| #[trigger] views(a.tokens@).contains(t) <==> root_token(ms, allowed, a.root@, t, n)
}

/// Messages of other threads leave an aggregate as it is.
proof fn lemma_agg_other(a: RootAgg, ms: Seq<EmailMeta>, allowed: Option<Seq<Seq<char>>>, n: int)
    requires
        0 <= n < ms.len(),
        agg_ok(a, ms, allowed, n),
        !(in_scope(ms, allowed, n) && thread_root(ms[n]) == a.root@),
    ensures
        agg_ok(a, ms, allowed, n + 1),
{
    reveal(agg_ok);
    let r = a.root@;
    assert forall|j: int| #[trigger] of_root(ms, allowed, r, j, n + 1) <==> of_root(ms, allowed, r, j, n) by {}
    let i = choose|i: int| #[trigger] of_root(ms, allowed, r, i, n) && ms[i].date == a.last;
    assert(of_root(ms, allowed, r, i, n + 1));
    let p = choose|p: int|
        #[trigger] of_root(ms, allowed, r, p, n) && ms[p].subject@ == a.title@ && ms[p].date
            == a.title_date && (forall|j: int|
            #[trigger] of_root(ms, allowed, r, j, n) ==> a.title_date <= ms[j].date) && (forall|j: int|
            0 <= j < p && #[trigger] of_root(ms, allowed, r, j, n) ==> a.title_date < ms[j].date);
    assert(of_root(ms, allowed, r, p, n + 1));
    assert forall|t: Seq<char>| root_token(ms, allowed, r, t, n + 1) <==> root_token(ms, allowed, r, t, n) by {
        if root_token(ms, allowed, r, t, n + 1) {
            let k = choose|k: int| #[trigger] of_root(ms, allowed, r, k, n + 1) && is_subject_token(ms[k].subject@, t);
            assert(of_root(ms, allowed, r, k, n));
        }
        if root_token(ms, allowed, r, t, n) {
            let k = choose|k: int| #[trigger] of_root(ms, allowed, r, k, n) && is_subject_token(ms[k].subject@, t);
            assert(of_root(ms, allowed, r, k, n + 1));
        }
    }
}

/// Add every string of `src` that `dst` lacks.
fn union_tokens(dst: &mut Vec<Vec<char>>, src: &Vec<String>)
    requires
        distinct(views(old(dst)@)),
    ensures
        distinct(views(final(dst)@)),
        forall|t: Seq<char>| #[trigger] views(final(dst)@).contains(t) <==> (views(old(dst)@).contains(t) || strs(src@).contains(t)),
{
    let ghost start = views(dst@);
    let mut k: usize = 0;
    while k < src.len()
        invariant
            k <= src@.len(),
            distinct(views(dst@)),
            forall|t: Seq<char>| #[trigger] views(dst@).contains(t) <==> (start.contains(t) || strs(src@).take(k as int).contains(t)),
        decreases src@.len() - k,
    {
        let c = chars_of(src[k].as_str());
        let ghost before = views(dst@);
        if !contains_chars(dst, &c) {
            dst.push(c);
            proof {
                assert(views(dst@) =~= before.push(src@[k as int]@));
                assert forall|a: int, b: int| 0 <= a < b < views(dst@).len() implies views(dst@)[a] != views(dst@)[b] by {
                    if b == before.len() {
                        assert(before.contains(before[a]));
                    }
                }
            }
        }
        proof {
            let sk = strs(src@).take(k as int);
            let sk1 = strs(src@).take(k + 1);
            assert(sk1 =~= sk.push(src@[k as int]@));
            assert forall|t: Seq<char>| #[trigger] views(dst@).contains(t) <==> (start.contains(t) || sk1.contains(t)) by {
                if sk1.contains(t) {
                    let q = choose|q: int| 0 <= q < sk1.len() && sk1[q] == t;
                    if q < k {
                        assert(sk[q] == t);
                        assert(sk.contains(t));
                    }
                }
                if sk.contains(t) {
                    let q = choose|q: int| 0 <= q < sk.len() && sk[q] == t;
                    assert(sk1[q] == t);
                }
                if views(dst@).contains(t) {
                    let q = choose|q: int| 0 <= q < views(dst@).len() && views(dst@)[q] == t;
                    if q < before.len() {
                        assert(before[q] == t);
                        assert(before.contains(t));
                    } else {
                        assert(sk1[k as int] == t);
                    }
                }
                if before.contains(t) {
                    let q = choose|q: int| 0 <= q < before.len() && before[q] == t;
                    assert(views(dst@)[q] == t);
                }
                if t == src@[k as int]@ && !before.contains(t) {
                    assert(views(dst@)[before.len() as int] == t);
                }
            }
        }
        k = k + 1;
    }
    proof {
        assert(strs(src@).take(k as int) =~= strs(src@));
    }
}

pub open spec fn allow_view(a: Option<Vec<String>>) -> Option<Seq<Seq<char>>> {
    match a {
        None => None,
        Some(v) => Some(strs(v@)),
    }
}

fn holds_string(v: &Vec<String>, s: &str) -> (r: bool)
    ensures
        r == strs(v@).contains(s@),
{
    let sc = chars_of(s);
    let mut i: usize = 0;
    while i < v.len()
        invariant
            i <= v@.len(),
            sc@ == s@,
            forall|j: int| 0 <= j < i ==> v@[j]@ != s@,
        decreases v@.len() - i,
    {
        let vc = chars_of(v[i].as_str());
        if crate::text::chars_eq(&vc, &sc) {
            proof {
                assert(strs(v@)[i as int] == s@);
            }
            return true;
        }
        i = i + 1;
    }
    proof {
        if strs(v@).contains(s@) {
            let j = choose|j: int| 0 <= j < strs(v@).len() && strs(v@)[j] == s@;
            assert(v@[j]@ == s@);
        }
    }
    false
}

/// One aggregate per searched thread, in order of first message.
fn aggregate_roots(ms: &[EmailMeta], allowed: &Option<Vec<String>>) -> (r: Vec<RootAgg>)
    ensures
        forall|k: int| 0 <= k < r@.len() ==> agg_ok(#[trigger] r@[k], ms@, allow_view(*allowed), ms@.len() as int),
        forall|a: int, b: int| 0 <= a < b < r@.len() ==> #[trigger] r@[a].root@ != #[trigger] r@[b].root@,
        forall|rt: Seq<char>, i: int|
            #[trigger] of_root(ms@, allow_view(*allowed), rt, i, ms@.len() as int) ==> exists|k: int|
                0 <= k < r@.len() && #[trigger] r@[k].root@ == rt,
{
    reveal(agg_ok);
    let ghost al = allow_view(*allowed);
    let mut aggs: Vec<RootAgg> = Vec::new();
    let mut slot: StringHashMap<usize> = StringHashMap::new();
    let mut i: usize = 0;
    while i < ms.len()
        invariant
            i <= ms@.len(),
            al == allow_view(*allowed),
            forall|k: int| 0 <= k < aggs@.len() ==> agg_ok(#[trigger] aggs@[k], ms@, al, i as int),
            forall|k: int| 0 <= k < aggs@.len() ==> #[trigger] slot@.contains_key(aggs@[k].root@) && slot@[aggs@[k].root@] == k,
            forall|key: Seq<char>| #[trigger] slot@.contains_key(key) ==> (slot@[key] as int) < aggs@.len() && aggs@[slot@[key] as int].root@ == key,
            forall|rt: Seq<char>, j: int| #[trigger] of_root(ms@, al, rt, j, i as int) ==> slot@.contains_key(rt),
        decreases ms@.len() - i,
    {
        proof {
            reveal(agg_ok);
        }
        let root = thread_root_id(&ms[i]);
        let in_scope_now = match allowed {
            None => true,
            Some(v) => holds_string(v, root.as_str()),
        };
        let ghost old_aggs = aggs@;
        if !in_scope_now {
            proof {
                assert forall|k: int| 0 <= k < aggs@.len() implies agg_ok(#[trigger] aggs@[k], ms@, al, i + 1) by {
                    lemma_agg_other(aggs@[k], ms@, al, i as int);
                }
                assert forall|rt: Seq<char>, j: int| #[trigger] of_root(ms@, al, rt, j, i + 1) implies slot@.contains_key(rt) by {
                    assert(of_root(ms@, al, rt, j, i as int));
                }
            }
            i = i + 1;
            continue;
        }
        let toks = subject_tokens(ms[i].subject.as_str());
        let date = ms[i].date;
        let ghost r = root@;
        match slot.get(root.as_str()) {
            Some(kref) => {
                let k = *kref;
                let old_a = &aggs[k];
                let (title, title_date) = if date < old_a.title_date {
                    (ms[i].subject.clone(), date)
                } else {
                    (old_a.title.clone(), old_a.title_date)
                };
                let last = if date > old_a.last { date } else { old_a.last };
                let mut tokens: Vec<Vec<char>> = Vec::new();
                let mut c: usize = 0;
                while c < old_a.tokens.len()
                    invariant
                        c <= old_a.tokens@.len(),
                        tokens@.len() == c,
                        forall|x: int| 0 <= x < c ==> #[trigger] tokens@[x]@ == old_a.tokens@[x]@,
                    decreases old_a.tokens@.len() - c,
                {
                    tokens.push(crate::seqs::copy_chars(&old_a.tokens[c]));
                    c = c + 1;
                }
                proof {
                    assert(views(tokens@) =~= views(old_a.tokens@));
                }
                union_tokens(&mut tokens, &toks);
                let new_a = RootAgg { root: old_a.root.clone(), title, title_date, last, tokens };
                proof {
                    let oa = old_aggs[k as int];
                    assert(oa.root@ == r);
                    let n = i as int;
                    assert forall|j: int| #[trigger] of_root(ms@, al, r, j, n + 1) <==> (of_root(ms@, al, r, j, n) || j == n) by {}
                    // last activity
                    if date > oa.last {
                        assert(of_root(ms@, al, r, n, n + 1));
                    } else {
                        let w = choose|w: int| #[trigger] of_root(ms@, al, r, w, n) && ms@[w].date == oa.last;
                        assert(of_root(ms@, al, r, w, n + 1));
                    }
                    // title
                    let p = choose|p: int|
                        #[trigger] of_root(ms@, al, r, p, n) && ms@[p].subject@ == oa.title@ && ms@[p].date
                            == oa.title_date && (forall|j: int|
                            #[trigger] of_root(ms@, al, r, j, n) ==> oa.title_date <= ms@[j].date) && (forall|j: int|
                            0 <= j < p && #[trigger] of_root(ms@, al, r, j, n) ==> oa.title_date < ms@[j].date);
                    if date < oa.title_date {
                        assert(of_root(ms@, al, r, n, n + 1));
                        assert forall|j: int| 0 <= j < n && #[trigger] of_root(ms@, al, r, j, n + 1) implies date < ms@[j].date by {
                            assert(of_root(ms@, al, r, j, n));
                        }
                    } else {
                        assert(of_root(ms@, al, r, p, n + 1));
                        assert forall|j: int| 0 <= j < p && #[trigger] of_root(ms@, al, r, j, n + 1) implies oa.title_date < ms@[j].date by {
                            assert(of_root(ms@, al, r, j, n));
                        }
                    }
                    // tokens
                    assert forall|tk: Seq<char>| #[trigger] views(new_a.tokens@).contains(tk) <==> root_token(ms@, al, r, tk, n + 1) by {
                        if root_token(ms@, al, r, tk, n + 1) {
                            let q = choose|q: int| #[trigger] of_root(ms@, al, r, q, n + 1) && is_subject_token(ms@[q].subject@, tk);
                            if q < n {
                                assert(of_root(ms@, al, r, q, n));
                                assert(root_token(ms@, al, r, tk, n));
                            }
                        }
                        if root_token(ms@, al, r, tk, n) {
                            let q = choose|q: int| #[trigger] of_root(ms@, al, r, q, n) && is_subject_token(ms@[q].subject@, tk);
                            assert(of_root(ms@, al, r, q, n + 1));
                        }
                        if strs(toks@).contains(tk) {
                            assert(of_root(ms@, al, r, n, n + 1));
                        }
                    }
                    assert(new_a.root@ == r);
                    assert(exists|w: int| #[trigger] of_root(ms@, al, new_a.root@, w, n + 1) && ms@[w].date == new_a.last);
                    assert forall|w: int| #[trigger] of_root(ms@, al, new_a.root@, w, n + 1) implies ms@[w].date <= new_a.last by {
                        if w < n {
                            assert(of_root(ms@, al, r, w, n));
                        }
                    }
                    assert forall|w: int| #[trigger] of_root(ms@, al, new_a.root@, w, n + 1) implies new_a.title_date <= ms@[w].date by {
                        if w < n {
                            assert(of_root(ms@, al, r, w, n));
                        }
                    }
                    if date < oa.title_date {
                        assert(of_root(ms@, al, r, n, n + 1) && ms@[n].subject@ == new_a.title@ && ms@[n].date == new_a.title_date);
                    } else {
                        assert(of_root(ms@, al, r, p, n + 1) && ms@[p].subject@ == new_a.title@ && ms@[p].date == new_a.title_date);
                    }
                    assert(distinct(views(new_a.tokens@)));
                    assert(agg_ok(new_a, ms@, al, n + 1));
                }
                aggs[k] = new_a;
                proof {
                    assert forall|x: int| 0 <= x < aggs@.len() implies agg_ok(#[trigger] aggs@[x], ms@, al, i + 1) by {
                        if x != k {
                            assert(old_aggs[x].root@ != r);
                            lemma_agg_other(old_aggs[x], ms@, al, i as int);
                        }
                    }
                    assert forall|rt: Seq<char>, j: int| #[trigger] of_root(ms@, al, rt, j, i + 1) implies slot@.contains_key(rt) by {
                        if j < i {
                            assert(of_root(ms@, al, rt, j, i as int));
                        }
                    }
                }
            },
            None => {
                let mut tokens: Vec<Vec<char>> = Vec::new();
                union_tokens(&mut tokens, &toks);
                let new_a = RootAgg { root: root.clone(), title: ms[i].subject.clone(), title_date: date, last: date, tokens };
                proof {
                    let n = i as int;
                    assert forall|j: int| #[trigger] of_root(ms@, al, r, j, n + 1) <==> j == n by {
                        if of_root(ms@, al, r, j, n + 1) && j < n {
                            assert(of_root(ms@, al, r, j, n));
                        }
                    }
                    assert(of_root(ms@, al, r, n, n + 1));
                    assert forall|tk: Seq<char>| #[trigger] views(new_a.tokens@).contains(tk) <==> root_token(ms@, al, r, tk, n + 1) by {
                        if root_token(ms@, al, r, tk, n + 1) {
                            let q = choose|q: int| #[trigger] of_root(ms@, al, r, q, n + 1) && is_subject_token(ms@[q].subject@, tk);
                            assert(q == n);
                        }
                    }
                    assert(new_a.root@ == r);
                    assert(exists|w: int| #[trigger] of_root(ms@, al, new_a.root@, w, n + 1) && ms@[w].date == new_a.last);
                    assert(forall|w: int| #[trigger] of_root(ms@, al, new_a.root@, w, n + 1) ==> ms@[w].date <= new_a.last);
                    assert(distinct(views(new_a.tokens@)));
                    assert(agg_ok(new_a, ms@, al, n + 1));
                }
                let pos = aggs.len();
                aggs.push(new_a);
                slot.insert(root, pos);
                proof {
                    assert forall|x: int| 0 <= x < aggs@.len() implies agg_ok(#[trigger] aggs@[x], ms@, al, i + 1) by {
                        if x < old_aggs.len() {
                            assert(old_aggs[x].root@ != r);
                            lemma_agg_other(old_aggs[x], ms@, al, i as int);
                        }
                    }
                    assert forall|x: int| 0 <= x < aggs@.len() implies #[trigger] slot@.contains_key(aggs@[x].root@) && slot@[aggs@[x].root@] == x by {
                        if x < old_aggs.len() {
                            assert(old_aggs[x].root@ != r);
                        }
                    }
                    assert forall|rt: Seq<char>, j: int| #[trigger] of_root(ms@, al, rt, j, i + 1) implies slot@.contains_key(rt) by {
                        if j < i {
                            assert(of_root(ms@, al, rt, j, i as int));
                        }
                    }
                }
            },
        }
        i = i + 1;
    }
    proof {
        assert forall|a: int, b: int| 0 <= a < b < aggs@.len() implies #[trigger] aggs@[a].root@ != #[trigger] aggs@[b].root@ by {
            assert(slot@[aggs@[a].root@] == a);
            assert(slot@[aggs@[b].root@] == b);
        }
        assert forall|rt: Seq<char>, j: int|
            #[trigger] of_root(ms@, al, rt, j, ms@.len() as int) implies exists|k: int|
                0 <= k < aggs@.len() && #[trigger] aggs@[k].root@ == rt by {
            assert(slot@.contains_key(rt));
            let k = slot@[rt] as int;
            assert(aggs@[k].root@ == rt);
        }
    }
    aggs
}

proof fn lemma_hit_order(a: RelatedHit, b: RelatedHit, c: RelatedHit)
    ensures
        !hit_before(a, a),
        hit_before(a, b) ==> !hit_before(b, a),
        hit_before(a, b) && hit_before(b, c) ==> hit_before(a, c),
        a.root@ != b.root@ ==> hit_before(a, b) || hit_before(b, a),
{
    lemma_lex_irrefl(a.root@);
    lemma_lex_asym(a.root@, b.root@);
    lemma_lex_trans(a.root@, b.root@, c.root@);
    lemma_lex_total(a.root@, b.root@);
}

/// The ranked hits: one per searched thread sharing a query token, each as
/// `hit_of` says, in `hit_before` order.
pub open spec fn ranked(hits: Seq<RelatedHit>, ms: Seq<EmailMeta>, allowed: Option<Seq<Seq<char>>>, q: Seq<Seq<char>>) -> bool {
    &&& forall|k: int| 0 <= k < hits.len() ==> hit_of(#[trigger] hits[k], ms, allowed, q) && hits[k].score > 0
    &&& forall|a: int, b: int| 0 <= a < b < hits.len() ==> hit_before(#[trigger] hits[a], #[trigger] hits[b])
    &&& forall|r: Seq<char>, i: int|
        #[trigger] of_root(ms, allowed, r, i, ms.len() as int) && shared_tokens(q, ms, allowed, r) > 0 ==> exists|k: int|
            0 <= k < hits.len() && #[trigger] hits[k].root@ == r
}

/// In ranked hits a better score always comes first: no hit is followed by
/// one with a higher score, so cutting the list at any limit keeps the best
/// matches.
pub proof fn lemma_ranked_best_first(hits: Seq<RelatedHit>, ms: Seq<EmailMeta>, allowed: Option<Seq<Seq<char>>>, q: Seq<Seq<char>>)
    requires
        ranked(hits, ms, allowed, q),
    ensures
        forall|a: int, b: int| 0 <= a < b < hits.len() ==> #[trigger] hits[a].score >= #[trigger] hits[b].score,
        forall|n: int, a: int, b: int| 0 <= a < n <= b < hits.len() ==> #[trigger] hits.take(n)[a].score >= #[trigger] hits[b].score,
{
    assert forall|a: int, b: int| 0 <= a < b < hits.len() implies #[trigger] hits[a].score >= #[trigger] hits[b].score by {
        assert(hit_before(hits[a], hits[b]));
    }
    assert forall|n: int, a: int, b: int| 0 <= a < n <= b < hits.len() implies #[trigger] hits.take(n)[a].score >= #[trigger] hits[b].score by {
        assert(hits.take(n)[a] == hits[a]);
        assert(hit_before(hits[a], hits[b]));
    }
}

/// Number of `q`'s strings among `tokens`.
fn count_shared(q: &Vec<String>, tokens: &Vec<Vec<char>>, Ghost(f): Ghost<spec_fn(Seq<char>) -> bool>) -> (n: usize)
    requires
        forall|t: Seq<char>| #[trigger] views(tokens@).contains(t) <==> f(t),
    ensures
        n as int == count_where(strs(q@), f),
        n <= q@.len(),
{
    let mut n: usize = 0;
    let mut k: usize = 0;
    while k < q.len()
        invariant
            k <= q@.len(),
            n <= k,
            forall|t: Seq<char>| #[trigger] views(tokens@).contains(t) <==> f(t),
            n as int == count_where(strs(q@).take(k as int), f),
        decreases q@.len() - k,
    {
        let c = chars_of(q[k].as_str());
        proof {
            assert(strs(q@).take(k + 1).drop_last() =~= strs(q@).take(k as int));
            assert(strs(q@).take(k + 1).last() == q@[k as int]@);
        }
        if contains_chars(tokens, &c) {
            n = n + 1;
        }
        k = k + 1;
    }
    proof {
        assert(strs(q@).take(k as int) =~= strs(q@));
    }
    n
}

/// Number of elements of `s` satisfying `f`.
pub open spec fn count_where(s: Seq<Seq<char>>, f: spec_fn(Seq<char>) -> bool) -> nat
    decreases s.len(),
{
    if s.len() == 0 {
        0
    } else {
        count_where(s.drop_last(), f) + (if f(s.last()) { 1nat } else { 0nat })
    }
}

proof fn lemma_shared_is_count(q: Seq<Seq<char>>, ms: Seq<EmailMeta>, allowed: Option<Seq<Seq<char>>>, r: Seq<char>)
    ensures
        shared_tokens(q, ms, allowed, r) == count_where(q, |t: Seq<char>| root_token(ms, allowed, r, t, ms.len() as int)),
    decreases q.len(),
{
    if q.len() > 0 {
        lemma_shared_is_count(q.drop_last(), ms, allowed, r);
    }
}

/// Rank the searched threads by how many query tokens they share.
#[verifier::rlimit(60)]
fn related_hits(ms: &[EmailMeta], allowed: &Option<Vec<String>>, q: &Vec<String>) -> (r: Vec<RelatedHit>)
    ensures
        ranked(r@, ms@, allow_view(*allowed), strs(q@)),
{
    let ghost al = allow_view(*allowed);
    let aggs = aggregate_roots(ms, allowed);
    let mut out: Vec<RelatedHit> = Vec::new();
    let mut k: usize = 0;
    while k < aggs.len()
        invariant
            k <= aggs@.len(),
            al == allow_view(*allowed),
            forall|x: int| 0 <= x < aggs@.len() ==> agg_ok(#[trigger] aggs@[x], ms@, al, ms@.len() as int),
            forall|a: int, b: int| 0 <= a < b < aggs@.len() ==> #[trigger] aggs@[a].root@ != #[trigger] aggs@[b].root@,
            forall|x: int| 0 <= x < out@.len() ==> hit_of(#[trigger] out@[x], ms@, al, strs(q@)) && out@[x].score > 0,
            forall|a: int, b: int| 0 <= a < b < out@.len() ==> hit_before(#[trigger] out@[a], #[trigger] out@[b]),
            forall|x: int| #![trigger out@[x]] 0 <= x < out@.len() ==> exists|y: int| 0 <= y < k && #[trigger] aggs@[y].root@ == out@[x].root@,
            forall|y: int|
                0 <= y < k && shared_tokens(strs(q@), ms@, al, #[trigger] aggs@[y].root@) > 0 ==> exists|x: int|
                    0 <= x < out@.len() && #[trigger] out@[x].root@ == aggs@[y].root@,
        decreases aggs@.len() - k,
    {
        let a = &aggs[k];
        let h = hit_from_agg(ms, allowed, q, a);
        if h.score > 0 {
            proof {
                assert forall|x: int| 0 <= x < out@.len() implies #[trigger] out@[x].root@ != h.root@ by {
                    let y = choose|y: int| 0 <= y < k && #[trigger] aggs@[y].root@ == out@[x].root@;
                    assert(aggs@[y].root@ != aggs@[k as int].root@);
                }
            }
            let ghost before = out@;
            insert_ranked(&mut out, h);
            proof {
                assert forall|x: int| 0 <= x < out@.len() implies hit_of(#[trigger] out@[x], ms@, al, strs(q@)) && out@[x].score > 0 by {
                    if out@[x] != h {
                        let z = choose|z: int| 0 <= z < before.len() && before[z] == out@[x];
                        assert(hit_of(before[z], ms@, al, strs(q@)));
                    }
                }
                assert forall|x: int| #![trigger out@[x]] 0 <= x < out@.len() implies exists|y: int| 0 <= y < k + 1 && #[trigger] aggs@[y].root@ == out@[x].root@ by {
                    if out@[x] != h {
                        let z = choose|z: int| 0 <= z < before.len() && before[z] == out@[x];
                        let y = choose|y: int| 0 <= y < k && #[trigger] aggs@[y].root@ == before[z].root@;
                        assert(0 <= y < k + 1 && aggs@[y].root@ == out@[x].root@);
                    } else {
                        assert(0 <= k < k + 1 && aggs@[k as int].root@ == out@[x].root@);
                    }
                }
                assert forall|y: int|
                    0 <= y < k + 1 && shared_tokens(strs(q@), ms@, al, #[trigger] aggs@[y].root@) > 0 implies exists|x: int|
                        0 <= x < out@.len() && #[trigger] out@[x].root@ == aggs@[y].root@ by {
                    if y < k {
                        let x = choose|x: int| 0 <= x < before.len() && #[trigger] before[x].root@ == aggs@[y].root@;
                        assert(before.contains(before[x]));
                        assert(out@.contains(before[x]));
                        let x2 = choose|x2: int| 0 <= x2 < out@.len() && out@[x2] == before[x];
                        assert(out@[x2].root@ == aggs@[y].root@);
                    } else {
                        let x2 = choose|x2: int| 0 <= x2 < out@.len() && out@[x2] == h;
                        assert(out@[x2].root@ == aggs@[y].root@);
                    }
                }
            }
        } else {
            proof {
                assert forall|x: int| #![trigger out@[x]] 0 <= x < out@.len() implies exists|y: int| 0 <= y < k + 1 && #[trigger] aggs@[y].root@ == out@[x].root@ by {
                    let y = choose|y: int| 0 <= y < k && #[trigger] aggs@[y].root@ == out@[x].root@;
                    assert(0 <= y < k + 1);
                }
            }
        }
        k = k + 1;
    }
    proof {
        assert forall|r: Seq<char>, i: int|
            #[trigger] of_root(ms@, al, r, i, ms@.len() as int) && shared_tokens(strs(q@), ms@, al, r) > 0 implies exists|x: int|
                0 <= x < out@.len() && #[trigger] out@[x].root@ == r by {
            let y = choose|y: int| 0 <= y < aggs@.len() && #[trigger] aggs@[y].root@ == r;
            assert(shared_tokens(strs(q@), ms@, al, aggs@[y].root@) > 0);
        }
    }
    out
}

/// `a` ranks before `b`.
fn hit_precedes(a: &RelatedHit, b: &RelatedHit) -> (r: bool)
    ensures
        r == hit_before(*a, *b),
{
    if a.score != b.score {
        return a.score > b.score;
    }
    if a.last != b.last {
        return a.last > b.last;
    }
    let ra = chars_of(a.root.as_str());
    let rb = chars_of(b.root.as_str());
    lex_less(&ra, &rb)
}

/// Insert `h` among ranked hits of other roots, keeping the ranking.
fn insert_ranked(out: &mut Vec<RelatedHit>, h: RelatedHit)
    requires
        forall|a: int, b: int| 0 <= a < b < old(out)@.len() ==> hit_before(#[trigger] old(out)@[a], #[trigger] old(out)@[b]),
        forall|x: int| 0 <= x < old(out)@.len() ==> #[trigger] old(out)@[x].root@ != h.root@,
    ensures
        forall|a: int, b: int| 0 <= a < b < final(out)@.len() ==> hit_before(#[trigger] final(out)@[a], #[trigger] final(out)@[b]),
        final(out)@.contains(h),
        forall|x: int| 0 <= x < old(out)@.len() ==> final(out)@.contains(#[trigger] old(out)@[x]),
        forall|x: int| 0 <= x < final(out)@.len() ==> #[trigger] final(out)@[x] == h || old(out)@.contains(final(out)@[x]),
{
    let mut j: usize = 0;
    while j < out.len() && hit_precedes(&out[j], &h)
        invariant
            j <= out@.len(),
            forall|x: int| 0 <= x < j ==> hit_before(#[trigger] out@[x], h),
        decreases out@.len() - j,
    {
        j = j + 1;
    }
    let ghost before = out@;
    proof {
        if j < before.len() {
            lemma_hit_order(before[j as int], h, h);
            assert(before[j as int].root@ != h.root@);
            assert(hit_before(h, before[j as int]));
        }
    }
    out.insert(j, h);
    proof {
        before.insert_ensures(j as int, h);
        assert forall|a2: int, b2: int| 0 <= a2 < b2 < out@.len() implies hit_before(#[trigger] out@[a2], #[trigger] out@[b2]) by {
            if b2 < j {
                assert(hit_before(before[a2], before[b2]));
            } else if b2 == j {
            } else if a2 < j {
                assert(out@[b2] == before[b2 - 1]);
                assert(hit_before(before[a2], before[b2 - 1]));
            } else if a2 == j {
                assert(out@[b2] == before[b2 - 1]);
                if b2 - 1 > j {
                    assert(hit_before(before[j as int], before[b2 - 1]));
                    lemma_hit_order(h, before[j as int], before[b2 - 1]);
                }
            } else {
                assert(out@[a2] == before[a2 - 1]);
                assert(out@[b2] == before[b2 - 1]);
                assert(hit_before(before[a2 - 1], before[b2 - 1]));
            }
        }
        assert(out@[j as int] == h);
        assert forall|x: int| 0 <= x < before.len() implies out@.contains(#[trigger] before[x]) by {
            if x < j {
                assert(out@[x] == before[x]);
            } else {
                assert(out@[x + 1] == before[x]);
            }
        }
        assert forall|x: int| 0 <= x < out@.len() implies #[trigger] out@[x] == h || before.contains(out@[x]) by {
            if x < j {
                assert(before[x] == out@[x]);
            } else if x > j {
                assert(before[x - 1] == out@[x]);
            }
        }
    }
}

/// The hit of an aggregated thread.
fn hit_from_agg(ms: &[EmailMeta], allowed: &Option<Vec<String>>, q: &Vec<String>, a: &RootAgg) -> (h: RelatedHit)
    requires
        agg_ok(*a, ms@, allow_view(*allowed), ms@.len() as int),
    ensures
        h.root@ == a.root@,
        h.score == shared_tokens(strs(q@), ms@, allow_view(*allowed), a.root@),
        hit_of(h, ms@, allow_view(*allowed), strs(q@)),
{
    reveal(agg_ok);
    let ghost al = allow_view(*allowed);
    let ghost r = a.root@;
    let score = count_shared(q, &a.tokens, Ghost(|t: Seq<char>| root_token(ms@, al, r, t, ms@.len() as int)));
    proof {
        lemma_shared_is_count(strs(q@), ms@, al, r);
    }
    let h = RelatedHit { score, root: a.root.clone(), title: a.title.clone(), last: a.last };
    proof {
        let p = choose|p: int|
            #[trigger] of_root(ms@, al, r, p, ms@.len() as int) && ms@[p].subject@ == a.title@ && ms@[p].date
                == a.title_date && (forall|j: int|
                #[trigger] of_root(ms@, al, r, j, ms@.len() as int) ==> a.title_date <= ms@[j].date) && (forall|j: int|
                0 <= j < p && #[trigger] of_root(ms@, al, r, j, ms@.len() as int) ==> a.title_date < ms@[j].date);
        assert(of_root(ms@, al, r, p, ms@.len() as int) && ms@[p].subject@ == h.title@);
    }
    h
}

/// `Debug` of a set of strings: `{` items `, `-separated `}`.
pub open spec fn debug_set(items: Seq<Seq<char>>) -> Seq<char> {
    "{"@ + join(items.map_values(|s: Seq<char>| debug_text(s)), ", "@) + "}"@
}

pub open spec fn hit_line(h: RelatedHit) -> Seq<char> {
    "- score="@ + decimal(h.score as nat) + " root_id="@ + h.root@ + " last_activity="@ + rfc3339_text(
        h.last as int,
    ) + " subject="@ + h.title@ + "\n"@
}

pub open spec fn hit_lines(hits: Seq<RelatedHit>) -> Seq<char>
    decreases hits.len(),
{
    if hits.len() == 0 {
        seq![]
    } else {
        hit_lines(hits.drop_last()) + hit_line(hits.last())
    }
}

/// The report for the query `subject` with tokens `q` and the shown hits.
pub open spec fn related_report(subject: Seq<char>, q: Seq<Seq<char>>, shown: Seq<RelatedHit>) -> Seq<char> {
    "SearchRelatedThreads query_subject="@ + debug_text(subject) + " tokens="@ + debug_set(q) + " hits="@
        + decimal(shown.len()) + "\n\n"@ + (if shown.len() == 0 {
        "(no related threads)\n"@
    } else {
        hit_lines(shown)
    })
}

pub open spec fn no_tokens_text() -> Seq<char> {
    "SearchRelatedThreads: no usable tokens after normalizing subject.\n"@
}

/// Threads whose subjects share tokens with the given subject, best first.
///
/// With an allow-list (the ordering agent) only those roots are considered.
pub fn search_related_threads(index: &EmailIndex, allowed: &Option<Vec<String>>, args: &SearchRelatedThreadsArgs) -> (r: Result<String, String>)
    ensures
        ({
            let subject = trim(args.subject@);
            let limit = match args.limit {
                Some(l) => if l < 1 { 1 } else { l as int },
                None => DEFAULT_RELATED_LIMIT as int,
            };
            if subject.len() == 0 {
                r matches Err(m) && m@ == "subject is required"@
            } else {
                r matches Ok(out) && exists|q: Seq<Seq<char>>, hits: Seq<RelatedHit>|
                    {
                        &&& distinct(q)
                        &&& forall|t: Seq<char>| #[trigger] q.contains(t) <==> is_subject_token(subject, t)
                        &&& ranked(hits, index.msgs(), allow_view(*allowed), q)
                        &&& forall|a: int, b: int| 0 <= a < b < hits.len() ==> #[trigger] hits[a].score >= #[trigger] hits[b].score
                        &&& out@ == (if q.len() == 0 {
                            no_tokens_text()
                        } else {
                            related_report(subject, q, hits.take(if hits.len() < limit { hits.len() as int } else { limit }))
                        })
                    }
            }
        }),
{
    let subject = crate::text::trim_slice(args.subject.as_str());
    if subject.is_empty() {
        return Err(string_of(&chars_of("subject is required")));
    }
    let limit = match args.limit {
        Some(l) => if l < 1 { 1 } else { l },
        None => DEFAULT_RELATED_LIMIT,
    };
    let q = subject_tokens(subject);
    if q.len() == 0 {
        let out = string_of(&chars_of("SearchRelatedThreads: no usable tokens after normalizing subject.\n"));
        proof {
            let hits = Seq::<RelatedHit>::empty();
            assert(ranked(hits, index.msgs(), allow_view(*allowed), strs(q@))) by {
                assert forall|rt: Seq<char>, i: int|
                    #[trigger] of_root(index.msgs(), allow_view(*allowed), rt, i, index.msgs().len() as int)
                        && shared_tokens(strs(q@), index.msgs(), allow_view(*allowed), rt) > 0 implies false by {
                    assert(strs(q@).len() == 0);
                }
            }
        }
        return Ok(out);
    }
    let ms = index.emails();
    let hits = related_hits(ms, allowed, &q);
    let shown_n = if hits.len() < limit { hits.len() } else { limit };
    let mut out: Vec<char> = Vec::new();
    push_str(&mut out, "SearchRelatedThreads query_subject=");
    let dq = debug_string(subject);
    push_str(&mut out, dq.as_str());
    push_str(&mut out, " tokens={");
    let ghost items = strs(q@).map_values(|s: Seq<char>| debug_text(s));
    let ghost start = out@;
    let mut i: usize = 0;
    while i < q.len()
        invariant
            i <= q@.len(),
            items == strs(q@).map_values(|s: Seq<char>| debug_text(s)),
            out@ == start + join(items.take(i as int), ", "@),
        decreases q@.len() - i,
    {
        if i > 0 {
            push_str(&mut out, ", ");
        }
        let d = debug_string(q[i].as_str());
        push_str(&mut out, d.as_str());
        proof {
            assert(items.take(i + 1).drop_last() =~= items.take(i as int));
            assert(items.take(i + 1).last() == d@);
            if i == 0 {
                assert(items.take(0) =~= Seq::<Seq<char>>::empty());
                assert(out@ =~= start + d@);
            }
        }
        i = i + 1;
    }
    proof {
        assert(items.take(i as int) =~= items);
    }
    push_str(&mut out, "} hits=");
    push_decimal(&mut out, shown_n);
    push_str(&mut out, "\n\n");
    let ghost mid = out@;
    if shown_n == 0 {
        push_str(&mut out, "(no related threads)\n");
    } else {
        let mut k: usize = 0;
        assert(hits@.take(0) =~= Seq::<RelatedHit>::empty());
        while k < shown_n
            invariant
                k <= shown_n,
                shown_n <= hits@.len(),
                out@ == mid + hit_lines(hits@.take(k as int)),
            decreases shown_n - k,
        {
            let h = &hits[k];
            push_str(&mut out, "- score=");
            push_decimal(&mut out, h.score);
            push_str(&mut out, " root_id=");
            push_str(&mut out, h.root.as_str());
            push_str(&mut out, " last_activity=");
            let ts = rfc3339_string(h.last);
            push_str(&mut out, ts.as_str());
            push_str(&mut out, " subject=");
            push_str(&mut out, h.title.as_str());
            push_str(&mut out, "\n");
            proof {
                assert(hits@.take(k + 1).drop_last() =~= hits@.take(k as int));
                assert(hits@.take(k + 1).last() == hits@[k as int]);
                reveal_strlit("\n");
                assert(out@ =~= mid + hit_lines(hits@.take(k + 1)));
            }
            k = k + 1;
        }
    }
    let s = string_of(&out);
    proof {
        let shown = hits@.take(shown_n as int);
        reveal_strlit("SearchRelatedThreads query_subject=");
        reveal_strlit(" tokens={");
        reveal_strlit(" tokens=");
        reveal_strlit("{");
        reveal_strlit("} hits=");
        reveal_strlit("}");
        reveal_strlit(" hits=");
        reveal_strlit("\n\n");
        reveal_strlit("(no related threads)\n");
        assert(s@ =~= related_report(subject@, strs(q@), shown));
    }
    Ok(s)
}

} // verus!
