//! Character-sequence primitives shared by the text-processing modules.
//!
//! Every operation here works on the `Seq<char>` view of a string and mirrors
//! the behaviour of the matching `str` method (`trim`, `starts_with`, `find`,
//! `lines`, `split`, ...). Higher-level modules state their contracts over the
//! spec functions defined here.
use vstd::prelude::*;
use vstd::string::StrSliceExecFns;

verus! {

broadcast use vstd::string::group_string_axioms;

// ───────────────────────── conversions ─────────────────────────

/// Copy the characters of a string slice into a vector.
pub fn chars_of(s: &str) -> (v: Vec<char>)
    ensures
        v@ == s@,
{
    let mut v: Vec<char> = Vec::new();
    for c in it: s.chars()
        invariant
            v@ == it.seq().take(it.index()),
            it.seq() == s@,
    {
        v.push(c);
    }
    v
}

/// `String::push`.
#[verifier::external_body]
fn push_char(s: &mut String, c: char)
    ensures
        final(s)@ == old(s)@.push(c),
{
    s.push(c);
}

/// Build a string from a slice of characters.
pub fn string_of(v: &[char]) -> (s: String)
    ensures
        s@ == v@,
{
    let mut s = String::new();
    let mut i: usize = 0;
    while i < v.len()
        invariant
            i <= v@.len(),
            s@ == v@.take(i as int),
        decreases v@.len() - i,
    {
        push_char(&mut s, v[i]);
        i = i + 1;
        assert(v@.take(i as int) == v@.take((i - 1) as int).push(v@[i - 1]));
    }
    assert(v@.take(v@.len() as int) == v@);
    s
}

/// Copy `v[start..end]` into a fresh vector.
pub fn copy_range(v: &[char], start: usize, end: usize) -> (r: Vec<char>)
    requires
        start <= end <= v@.len(),
    ensures
        r@ == v@.subrange(start as int, end as int),
{
    let mut r: Vec<char> = Vec::new();
    let mut i = start;
    while i < end
        invariant
            start <= i <= end,
            end <= v@.len(),
            r@ == v@.subrange(start as int, i as int),
        decreases end - i,
    {
        r.push(v[i]);
        i = i + 1;
        assert(v@.subrange(start as int, i as int) == v@.subrange(start as int, (i - 1) as int).push(
            v@[i - 1],
        ));
    }
    r
}

/// Append all of `src` to `dst`.
pub fn push_all(dst: &mut Vec<char>, src: &[char])
    ensures
        final(dst)@ == old(dst)@ + src@,
{
    let mut i: usize = 0;
    while i < src.len()
        invariant
            i <= src@.len(),
            dst@ == old(dst)@ + src@.take(i as int),
        decreases src@.len() - i,
    {
        dst.push(src[i]);
        i = i + 1;
        assert(src@.take(i as int) == src@.take((i - 1) as int).push(src@[i - 1]));
    }
    assert(src@.take(src@.len() as int) == src@);
}

/// Append the characters of a string slice to `dst`.
pub fn push_str(dst: &mut Vec<char>, s: &str)
    ensures
        final(dst)@ == old(dst)@ + s@,
{
    let v = chars_of(s);
    push_all(dst, &v);
}

/// Element-wise equality of two character slices.
pub fn chars_eq(a: &[char], b: &[char]) -> (r: bool)
    ensures
        r == (a@ == b@),
{
    if a.len() != b.len() {
        return false;
    }
    let mut i: usize = 0;
    while i < a.len()
        invariant
            i <= a@.len(),
            a@.len() == b@.len(),
            forall|j: int| 0 <= j < i ==> a@[j] == b@[j],
        decreases a@.len() - i,
    {
        if a[i] != b[i] {
            return false;
        }
        i = i + 1;
    }
    assert(a@ =~= b@);
    true
}

// ───────────────────────── character classes ─────────────────────────

/// Unicode `White_Space`, exactly the set `char::is_whitespace` accepts.
pub open spec fn is_ws(c: char) -> bool {
    let u = c as u32;
    ||| (0x09 <= u && u <= 0x0d)
    ||| u == 0x20
    ||| u == 0x85
    ||| u == 0xa0
    ||| u == 0x1680
    ||| (0x2000 <= u && u <= 0x200a)
    ||| u == 0x2028
    ||| u == 0x2029
    ||| u == 0x202f
    ||| u == 0x205f
    ||| u == 0x3000
}

/// `char::is_whitespace`.
pub fn is_whitespace(c: char) -> (b: bool)
    ensures
        b == is_ws(c),
{
    let u = c as u32;
    (0x09 <= u && u <= 0x0d) || u == 0x20 || u == 0x85 || u == 0xa0 || u == 0x1680 || (0x2000 <= u
        && u <= 0x200a) || u == 0x2028 || u == 0x2029 || u == 0x202f || u == 0x205f || u == 0x3000
}

/// General category `Cc`, exactly the set `char::is_control` accepts.
pub open spec fn is_ctrl(c: char) -> bool {
    let u = c as u32;
    u <= 0x1f || (0x7f <= u && u <= 0x9f)
}

/// `char::is_control`.
pub fn is_control(c: char) -> (b: bool)
    ensures
        b == is_ctrl(c),
{
    let u = c as u32;
    u <= 0x1f || (0x7f <= u && u <= 0x9f)
}

pub open spec fn is_digit(c: char) -> bool {
    '0' <= c && c <= '9'
}

pub open spec fn is_alpha(c: char) -> bool {
    ('a' <= c && c <= 'z') || ('A' <= c && c <= 'Z')
}

pub open spec fn is_alnum(c: char) -> bool {
    is_digit(c) || is_alpha(c)
}

/// `char::to_ascii_lowercase`.
pub open spec fn ascii_lower(c: char) -> char {
    if 'A' <= c && c <= 'Z' {
        ((c as u32) + 32) as char
    } else {
        c
    }
}

pub fn to_ascii_lower(c: char) -> (r: char)
    ensures
        r == ascii_lower(c),
{
    if 'A' <= c && c <= 'Z' {
        let u = (c as u32) + 32;
        assert(0x61 <= u <= 0x7a);
        u as u8 as char
    } else {
        c
    }
}

pub open spec fn lower_seq(s: Seq<char>) -> Seq<char> {
    s.map_values(|c: char| ascii_lower(c))
}

/// `str::to_ascii_lowercase` on a character slice.
pub fn ascii_lowercase(v: &[char]) -> (r: Vec<char>)
    ensures
        r@ == lower_seq(v@),
{
    let mut r: Vec<char> = Vec::new();
    let mut i: usize = 0;
    while i < v.len()
        invariant
            i <= v@.len(),
            r@ == lower_seq(v@.take(i as int)),
        decreases v@.len() - i,
    {
        r.push(to_ascii_lower(v[i]));
        i = i + 1;
        assert(lower_seq(v@.take(i as int)) =~= lower_seq(v@.take((i - 1) as int)).push(
            ascii_lower(v@[i - 1]),
        ));
    }
    assert(v@.take(v@.len() as int) == v@);
    r
}

/// The character sets that the text routines strip from string ends.
#[derive(Clone, Copy)]
pub enum CharClass {
    /// Unicode white space.
    Space,
    /// White space plus the list junk `, ; " ' ` |` that trails Message-IDs.
    IdJunk,
    /// `/`
    Slash,
    /// `<`
    Lt,
    /// `>`
    Gt,
    /// `>` or a plain space (quote markers in mail bodies).
    QuoteMark,
}

pub open spec fn in_class(k: CharClass, c: char) -> bool {
    match k {
        CharClass::Space => is_ws(c),
        CharClass::IdJunk => is_ws(c) || c == ',' || c == ';' || c == '"' || c == '\'' || c
            == '`' || c == '|',
        CharClass::Slash => c == '/',
        CharClass::Lt => c == '<',
        CharClass::Gt => c == '>',
        CharClass::QuoteMark => c == '>' || c == ' ',
    }
}

pub fn class_contains(k: CharClass, c: char) -> (b: bool)
    ensures
        b == in_class(k, c),
{
    match k {
        CharClass::Space => is_whitespace(c),
        CharClass::IdJunk => is_whitespace(c) || c == ',' || c == ';' || c == '"' || c == '\''
            || c == '`' || c == '|',
        CharClass::Slash => c == '/',
        CharClass::Lt => c == '<',
        CharClass::Gt => c == '>',
        CharClass::QuoteMark => c == '>' || c == ' ',
    }
}

// ───────────────────────── trimming ─────────────────────────

/// `trim_start_matches` with a character class.
pub open spec fn strip_start(k: CharClass, s: Seq<char>) -> Seq<char>
    decreases s.len(),
{
    if s.len() > 0 && in_class(k, s[0]) {
        strip_start(k, s.drop_first())
    } else {
        s
    }
}

/// `trim_end_matches` with a character class.
pub open spec fn strip_end(k: CharClass, s: Seq<char>) -> Seq<char>
    decreases s.len(),
{
    if s.len() > 0 && in_class(k, s.last()) {
        strip_end(k, s.drop_last())
    } else {
        s
    }
}

/// `trim_matches` with a character class.
pub open spec fn strip_both(k: CharClass, s: Seq<char>) -> Seq<char> {
    strip_end(k, strip_start(k, s))
}

/// `str::trim`.
pub open spec fn trim(s: Seq<char>) -> Seq<char> {
    strip_both(CharClass::Space, s)
}

/// `str::trim_start`.
pub open spec fn trim_start(s: Seq<char>) -> Seq<char> {
    strip_start(CharClass::Space, s)
}

/// `str::trim_end`.
pub open spec fn trim_end(s: Seq<char>) -> Seq<char> {
    strip_end(CharClass::Space, s)
}

/// Number of leading characters of `s` in class `k`.
pub open spec fn lead_count(k: CharClass, s: Seq<char>) -> nat
    decreases s.len(),
{
    if s.len() > 0 && in_class(k, s[0]) {
        1 + lead_count(k, s.drop_first())
    } else {
        0
    }
}

pub proof fn lemma_strip_start_is_suffix(k: CharClass, s: Seq<char>)
    ensures
        lead_count(k, s) <= s.len(),
        strip_start(k, s) == s.subrange(lead_count(k, s) as int, s.len() as int),
        forall|j: int| 0 <= j < lead_count(k, s) ==> in_class(k, #[trigger] s[j]),
        lead_count(k, s) < s.len() ==> !in_class(k, s[lead_count(k, s) as int]),
    decreases s.len(),
{
    if s.len() > 0 && in_class(k, s[0]) {
        lemma_strip_start_is_suffix(k, s.drop_first());
        let n = lead_count(k, s.drop_first());
        assert(s.drop_first().subrange(n as int, s.drop_first().len() as int) =~= s.subrange(
            (n + 1) as int,
            s.len() as int,
        ));
        assert forall|j: int| 0 <= j < lead_count(k, s) implies in_class(k, #[trigger] s[j]) by {
            if j > 0 {
                assert(s[j] == s.drop_first()[j - 1]);
            }
        }
    } else {
        assert(s.subrange(0, s.len() as int) =~= s);
    }
}

/// Number of trailing characters of `s` in class `k`.
pub open spec fn trail_count(k: CharClass, s: Seq<char>) -> nat
    decreases s.len(),
{
    if s.len() > 0 && in_class(k, s.last()) {
        1 + trail_count(k, s.drop_last())
    } else {
        0
    }
}

pub proof fn lemma_strip_end_is_prefix(k: CharClass, s: Seq<char>)
    ensures
        trail_count(k, s) <= s.len(),
        strip_end(k, s) == s.subrange(0, s.len() - trail_count(k, s)),
        forall|j: int| s.len() - trail_count(k, s) <= j < s.len() ==> in_class(k, #[trigger] s[j]),
        trail_count(k, s) < s.len() ==> !in_class(k, s[s.len() - trail_count(k, s) - 1]),
    decreases s.len(),
{
    if s.len() > 0 && in_class(k, s.last()) {
        lemma_strip_end_is_prefix(k, s.drop_last());
        let n = trail_count(k, s.drop_last());
        assert(s.drop_last().subrange(0, s.drop_last().len() - n) =~= s.subrange(
            0,
            s.len() - (n + 1),
        ));
        assert forall|j: int|
            s.len() - trail_count(k, s) <= j < s.len() implies in_class(k, #[trigger] s[j]) by {
            if j < s.len() - 1 {
                assert(s[j] == s.drop_last()[j]);
            }
        }
    } else {
        assert(s.subrange(0, s.len() as int) =~= s);
    }
}

/// Index of the first character of `v` that is not in class `k`.
pub fn lead_len(k: CharClass, v: &[char]) -> (n: usize)
    ensures
        n <= v@.len(),
        n == lead_count(k, v@),
        strip_start(k, v@) == v@.subrange(n as int, v@.len() as int),
{
    proof {
        lemma_strip_start_is_suffix(k, v@);
    }
    let mut i: usize = 0;
    while i < v.len() && class_contains(k, v[i])
        invariant
            i <= v@.len(),
            lead_count(k, v@) <= v@.len(),
            forall|j: int| 0 <= j < lead_count(k, v@) ==> in_class(k, #[trigger] v@[j]),
            lead_count(k, v@) < v@.len() ==> !in_class(k, v@[lead_count(k, v@) as int]),
            i <= lead_count(k, v@),
        decreases v@.len() - i,
    {
        i = i + 1;
    }
    i
}

/// Number of trailing characters of `v` in class `k`.
pub fn trail_len(k: CharClass, v: &[char]) -> (n: usize)
    ensures
        n <= v@.len(),
        n == trail_count(k, v@),
        strip_end(k, v@) == v@.subrange(0, v@.len() - n),
{
    proof {
        lemma_strip_end_is_prefix(k, v@);
    }
    let mut i: usize = 0;
    while i < v.len() && class_contains(k, v[v.len() - 1 - i])
        invariant
            i <= v@.len(),
            trail_count(k, v@) <= v@.len(),
            forall|j: int|
                v@.len() - trail_count(k, v@) <= j < v@.len() ==> in_class(k, #[trigger] v@[j]),
            trail_count(k, v@) < v@.len() ==> !in_class(
                k,
                v@[v@.len() - trail_count(k, v@) - 1],
            ),
            i <= trail_count(k, v@),
        decreases v@.len() - i,
    {
        i = i + 1;
    }
    i
}

/// `trim_start_matches` on a character slice.
pub fn strip_start_of(k: CharClass, v: &[char]) -> (r: Vec<char>)
    ensures
        r@ == strip_start(k, v@),
{
    let n = lead_len(k, v);
    copy_range(v, n, v.len())
}

/// `trim_end_matches` on a character slice.
pub fn strip_end_of(k: CharClass, v: &[char]) -> (r: Vec<char>)
    ensures
        r@ == strip_end(k, v@),
{
    let n = trail_len(k, v);
    copy_range(v, 0, v.len() - n)
}

/// `trim_matches` on a character slice.
pub fn strip_both_of(k: CharClass, v: &[char]) -> (r: Vec<char>)
    ensures
        r@ == strip_both(k, v@),
{
    let a = strip_start_of(k, v);
    strip_end_of(k, &a)
}

/// `str::trim` on a character slice.
pub fn trim_of(v: &[char]) -> (r: Vec<char>)
    ensures
        r@ == trim(v@),
{
    strip_both_of(CharClass::Space, v)
}

/// `str::trim` on a string slice, borrowing from it.
pub fn trim_slice<'a>(s: &'a str) -> (r: &'a str)
    ensures
        r@ == trim(s@),
{
    let v = chars_of(s);
    let a = lead_len(CharClass::Space, &v);
    let w = copy_range(&v, a, v.len());
    let t = trail_len(CharClass::Space, &w);
    let b = v.len() - t;
    proof {
        assert(w@.subrange(0, w@.len() - t) =~= v@.subrange(a as int, b as int));
    }
    s.substring_char(a, b)
}

/// `str::trim` on a string slice, as characters.
pub fn trim_str(s: &str) -> (r: Vec<char>)
    ensures
        r@ == trim(s@),
{
    let v = chars_of(s);
    trim_of(&v)
}

pub proof fn lemma_strip_start_len(k: CharClass, s: Seq<char>)
    ensures
        strip_start(k, s).len() <= s.len(),
        strip_start(k, s).len() == s.len() ==> strip_start(k, s) == s,
{
    lemma_strip_start_is_suffix(k, s);
    if lead_count(k, s) == 0 {
        assert(s.subrange(0, s.len() as int) =~= s);
    }
}

pub proof fn lemma_strip_end_len(k: CharClass, s: Seq<char>)
    ensures
        strip_end(k, s).len() <= s.len(),
        strip_end(k, s).len() == s.len() ==> strip_end(k, s) == s,
{
    lemma_strip_end_is_prefix(k, s);
    if trail_count(k, s) == 0 {
        assert(s.subrange(0, s.len() as int) =~= s);
    }
}

/// Stripping a class twice changes nothing more.
pub proof fn lemma_strip_start_idem(k: CharClass, s: Seq<char>)
    ensures
        strip_start(k, strip_start(k, s)) == strip_start(k, s),
    decreases s.len(),
{
    if s.len() > 0 && in_class(k, s[0]) {
        lemma_strip_start_idem(k, s.drop_first());
    }
}

pub proof fn lemma_strip_end_idem(k: CharClass, s: Seq<char>)
    ensures
        strip_end(k, strip_end(k, s)) == strip_end(k, s),
    decreases s.len(),
{
    if s.len() > 0 && in_class(k, s.last()) {
        lemma_strip_end_idem(k, s.drop_last());
    }
}

// ───────────────────────── prefixes, suffixes, search ─────────────────────────

pub open spec fn has_prefix(s: Seq<char>, p: Seq<char>) -> bool {
    p.len() <= s.len() && s.subrange(0, p.len() as int) == p
}

pub open spec fn has_suffix(s: Seq<char>, p: Seq<char>) -> bool {
    p.len() <= s.len() && s.subrange(s.len() - p.len(), s.len() as int) == p
}

/// `s` with the prefix `p` removed (meaningful when `has_prefix(s, p)`).
pub open spec fn after_prefix(s: Seq<char>, p: Seq<char>) -> Seq<char> {
    s.subrange(p.len() as int, s.len() as int)
}

/// `s` with the suffix `p` removed (meaningful when `has_suffix(s, p)`).
pub open spec fn before_suffix(s: Seq<char>, p: Seq<char>) -> Seq<char> {
    s.subrange(0, s.len() - p.len())
}

/// `p` occurs in `s` starting at index `i`.
pub open spec fn occurs_at(s: Seq<char>, p: Seq<char>, i: int) -> bool {
    0 <= i && i + p.len() <= s.len() && s.subrange(i, i + p.len()) == p
}

pub fn occurs_at_exec(s: &[char], p: &[char], i: usize) -> (r: bool)
    ensures
        r == occurs_at(s@, p@, i as int),
{
    if i > s.len() || p.len() > s.len() - i {
        return false;
    }
    let mut j: usize = 0;
    while j < p.len()
        invariant
            j <= p@.len(),
            i <= s.len(),
            i + p.len() <= s.len(),
            forall|t: int| 0 <= t < j ==> s@[i + t] == p@[t],
        decreases p@.len() - j,
    {
        if s[i + j] != p[j] {
            assert(s@.subrange(i as int, i + p@.len())[j as int] != p@[j as int]);
            return false;
        }
        j = j + 1;
    }
    assert(s@.subrange(i as int, i + p@.len()) =~= p@);
    true
}

pub fn starts_with(s: &[char], p: &[char]) -> (r: bool)
    ensures
        r == has_prefix(s@, p@),
{
    occurs_at_exec(s, p, 0)
}

pub fn ends_with(s: &[char], p: &[char]) -> (r: bool)
    ensures
        r == has_suffix(s@, p@),
{
    if p.len() > s.len() {
        return false;
    }
    occurs_at_exec(s, p, s.len() - p.len())
}

pub fn starts_with_str(s: &[char], p: &str) -> (r: bool)
    ensures
        r == has_prefix(s@, p@),
{
    let pv = chars_of(p);
    starts_with(s, &pv)
}

pub fn ends_with_str(s: &[char], p: &str) -> (r: bool)
    ensures
        r == has_suffix(s@, p@),
{
    let pv = chars_of(p);
    ends_with(s, &pv)
}

pub fn eq_str(s: &[char], p: &str) -> (r: bool)
    ensures
        r == (s@ == p@),
{
    let pv = chars_of(p);
    chars_eq(s, &pv)
}

/// Index of the first occurrence of `p` in `s` at or after `i` (`str::find`).
pub open spec fn find_from(s: Seq<char>, p: Seq<char>, i: int) -> Option<int>
    decreases s.len() - i,
{
    if i < 0 || i + p.len() > s.len() {
        None
    } else if occurs_at(s, p, i) {
        Some(i)
    } else if i >= s.len() {
        None
    } else {
        find_from(s, p, i + 1)
    }
}

/// First occurrence of `p` in `s`.
pub open spec fn find(s: Seq<char>, p: Seq<char>) -> Option<int> {
    find_from(s, p, 0)
}

pub proof fn lemma_find_from_props(s: Seq<char>, p: Seq<char>, i: int)
    requires
        0 <= i,
    ensures
        find_from(s, p, i) matches Some(k) ==> i <= k && occurs_at(s, p, k) && forall|t: int|
            i <= t < k ==> !occurs_at(s, p, t),
        find_from(s, p, i) is None ==> forall|t: int| i <= t ==> !occurs_at(s, p, t),
    decreases s.len() - i,
{
    if i + p.len() > s.len() {
    } else if occurs_at(s, p, i) {
    } else if i >= s.len() {
    } else {
        lemma_find_from_props(s, p, i + 1);
    }
}

/// `str::find` starting from index `from`.
pub fn find_exec(s: &[char], p: &[char], from: usize) -> (r: Option<usize>)
    ensures
        match r {
            Some(k) => find_from(s@, p@, from as int) == Some(k as int),
            None => find_from(s@, p@, from as int) is None,
        },
{
    let mut i = from;
    while i <= s.len() && p.len() <= s.len() - i
        invariant
            from <= i,
            find_from(s@, p@, from as int) == find_from(s@, p@, i as int),
        decreases s@.len() + 1 - i,
    {
        if occurs_at_exec(s, p, i) {
            return Some(i);
        }
        if i == s.len() {
            return None;
        }
        i = i + 1;
    }
    None
}

/// `str::find` of a string-literal pattern.
pub fn find_str(s: &[char], p: &str, from: usize) -> (r: Option<usize>)
    ensures
        match r {
            Some(k) => find_from(s@, p@, from as int) == Some(k as int),
            None => find_from(s@, p@, from as int) is None,
        },
{
    let pv = chars_of(p);
    find_exec(s, &pv, from)
}

/// Index of the first `c` in `s` at or after `i`.
pub open spec fn find_char_from(s: Seq<char>, c: char, i: int) -> Option<int>
    decreases s.len() - i,
{
    if i < 0 || i >= s.len() {
        None
    } else if s[i] == c {
        Some(i)
    } else {
        find_char_from(s, c, i + 1)
    }
}

pub proof fn lemma_find_char_props(s: Seq<char>, c: char, i: int)
    requires
        0 <= i,
    ensures
        find_char_from(s, c, i) matches Some(k) ==> i <= k < s.len() && s[k] == c && forall|t: int|
            i <= t < k ==> s[t] != c,
        find_char_from(s, c, i) is None ==> forall|t: int| i <= t < s.len() ==> s[t] != c,
    decreases s.len() - i,
{
    if i >= s.len() {
    } else if s[i] == c {
    } else {
        lemma_find_char_props(s, c, i + 1);
    }
}

pub fn find_char(s: &[char], c: char, from: usize) -> (r: Option<usize>)
    ensures
        match r {
            Some(k) => find_char_from(s@, c, from as int) == Some(k as int),
            None => find_char_from(s@, c, from as int) is None,
        },
{
    let mut i = from;
    while i < s.len()
        invariant
            from <= i,
            find_char_from(s@, c, from as int) == find_char_from(s@, c, i as int),
        decreases s@.len() - i,
    {
        if s[i] == c {
            return Some(i);
        }
        i = i + 1;
    }
    None
}

// ───────────────────────── lines and splitting ─────────────────────────

/// A line without its `\n` terminator and an optional `\r` before it.
pub open spec fn strip_cr(line: Seq<char>) -> Seq<char> {
    if line.len() > 0 && line.last() == '\r' {
        line.drop_last()
    } else {
        line
    }
}

/// `str::lines`: split at `\n`, drop a `\r` that precedes a `\n`, and no
/// trailing empty line after a final `\n`.
pub open spec fn lines(s: Seq<char>) -> Seq<Seq<char>>
    decreases s.len(),
{
    if s.len() == 0 {
        seq![]
    } else {
        match find_char_from(s, '\n', 0) {
            Some(i) => {
                if 0 <= i < s.len() {
                    seq![strip_cr(s.subrange(0, i))] + lines(s.subrange(i + 1, s.len() as int))
                } else {
                    seq![s]
                }
            },
            None => seq![s],
        }
    }
}

/// `str::lines` on a character slice.
pub fn lines_of(v: &[char]) -> (r: Vec<Vec<char>>)
    ensures
        r@.map_values(|l: Vec<char>| l@) == lines(v@),
{
    let mut out: Vec<Vec<char>> = Vec::new();
    let mut pos: usize = 0;
    assert(v@.subrange(0, v@.len() as int) =~= v@);
    assert(out@.map_values(|l: Vec<char>| l@) =~= Seq::<Seq<char>>::empty());
    while pos < v.len()
        invariant
            pos <= v@.len(),
            lines(v@) == out@.map_values(|l: Vec<char>| l@) + lines(
                v@.subrange(pos as int, v@.len() as int),
            ),
        decreases v@.len() - pos,
    {
        let ghost rest = v@.subrange(pos as int, v@.len() as int);
        let nl = find_char(v, '\n', pos);
        proof {
            lemma_find_char_props(v@, '\n', pos as int);
            lemma_find_char_props(rest, '\n', 0);
        }
        match nl {
            Some(k) => {
                let mut end = k;
                if end > pos && v[end - 1] == '\r' {
                    end = end - 1;
                }
                let line = copy_range(v, pos, end);
                proof {
                    assert(find_char_from(rest, '\n', 0) == Some(k - pos)) by {
                        if find_char_from(rest, '\n', 0) != Some(k - pos) {
                            match find_char_from(rest, '\n', 0) {
                                Some(k2) => {
                                    assert(rest[k2] == v@[pos + k2]);
                                    assert(rest[k - pos] == v@[k as int]);
                                },
                                None => {
                                    assert(rest[k - pos] == v@[k as int]);
                                },
                            }
                        }
                    }
                    assert(rest.subrange(0, k - pos) =~= v@.subrange(pos as int, k as int));
                    assert(rest.subrange(k - pos + 1, rest.len() as int) =~= v@.subrange(
                        k + 1,
                        v@.len() as int,
                    ));
                    assert(line@ == strip_cr(v@.subrange(pos as int, k as int)));
                }
                let ghost old_out = out@;
                out.push(line);
                proof {
                    assert(out@.map_values(|l: Vec<char>| l@) =~= old_out.map_values(
                        |l: Vec<char>| l@,
                    ).push(line@));
                    assert(seq![line@] + lines(v@.subrange(k + 1, v@.len() as int)) == lines(rest));
                    assert(out@.map_values(|l: Vec<char>| l@) + lines(
                        v@.subrange(k + 1, v@.len() as int),
                    ) =~= old_out.map_values(|l: Vec<char>| l@) + (seq![line@] + lines(
                        v@.subrange(k + 1, v@.len() as int),
                    )));
                }
                pos = k + 1;
            },
            None => {
                let line = copy_range(v, pos, v.len());
                proof {
                    assert(find_char_from(rest, '\n', 0) is None) by {
                        if let Some(k2) = find_char_from(rest, '\n', 0) {
                            assert(rest[k2] == v@[pos + k2]);
                        }
                    }
                }
                let ghost old_out = out@;
                out.push(line);
                proof {
                    assert(out@.map_values(|l: Vec<char>| l@) =~= old_out.map_values(
                        |l: Vec<char>| l@,
                    ).push(line@));
                    assert(v@.subrange(v@.len() as int, v@.len() as int) =~= Seq::<char>::empty());
                }
                pos = v.len();
            },
        }
    }
    proof {
        assert(v@.subrange(pos as int, v@.len() as int) =~= Seq::<char>::empty());
        assert(out@.map_values(|l: Vec<char>| l@) + Seq::<Seq<char>>::empty() =~= out@.map_values(
            |l: Vec<char>| l@,
        ));
    }
    out
}

/// `str::split` on a single character: always at least one piece.
pub open spec fn split_char(s: Seq<char>, c: char) -> Seq<Seq<char>>
    decreases s.len(),
{
    match find_char_from(s, c, 0) {
        Some(i) => {
            if 0 <= i < s.len() {
                seq![s.subrange(0, i)] + split_char(s.subrange(i + 1, s.len() as int), c)
            } else {
                seq![s]
            }
        },
        None => seq![s],
    }
}

/// `str::split` on a character slice.
pub fn split_char_of(v: &[char], c: char) -> (r: Vec<Vec<char>>)
    ensures
        r@.map_values(|l: Vec<char>| l@) == split_char(v@, c),
        r@.len() >= 1,
{
    let mut out: Vec<Vec<char>> = Vec::new();
    let mut pos: usize = 0;
    assert(v@.subrange(0, v@.len() as int) =~= v@);
    assert(out@.map_values(|l: Vec<char>| l@) =~= Seq::<Seq<char>>::empty());
    loop
        invariant
            pos <= v@.len(),
            split_char(v@, c) == out@.map_values(|l: Vec<char>| l@) + split_char(
                v@.subrange(pos as int, v@.len() as int),
                c,
            ),
        decreases v@.len() - pos,
    {
        let ghost rest = v@.subrange(pos as int, v@.len() as int);
        let nl = find_char(v, c, pos);
        proof {
            lemma_find_char_props(v@, c, pos as int);
            lemma_find_char_props(rest, c, 0);
            if let Some(k) = nl {
                assert(k < v.len());
            }
        }
        match nl {
            Some(k) => {
                let piece = copy_range(v, pos, k);
                proof {
                    assert(find_char_from(rest, c, 0) == Some(k - pos)) by {
                        if find_char_from(rest, c, 0) != Some(k - pos) {
                            match find_char_from(rest, c, 0) {
                                Some(k2) => {
                                    assert(rest[k2] == v@[pos + k2]);
                                    assert(rest[k - pos] == v@[k as int]);
                                },
                                None => {
                                    assert(rest[k - pos] == v@[k as int]);
                                },
                            }
                        }
                    }
                    assert(rest.subrange(0, k - pos) =~= v@.subrange(pos as int, k as int));
                    assert(rest.subrange(k - pos + 1, rest.len() as int) =~= v@.subrange(
                        k + 1,
                        v@.len() as int,
                    ));
                }
                let ghost old_out = out@;
                out.push(piece);
                proof {
                    assert(out@.map_values(|l: Vec<char>| l@) =~= old_out.map_values(
                        |l: Vec<char>| l@,
                    ).push(piece@));
                    assert(out@.map_values(|l: Vec<char>| l@) + split_char(
                        v@.subrange(k + 1, v@.len() as int),
                        c,
                    ) =~= old_out.map_values(|l: Vec<char>| l@) + (seq![piece@] + split_char(
                        v@.subrange(k + 1, v@.len() as int),
                        c,
                    )));
                }
                pos = k + 1;
            },
            None => {
                let piece = copy_range(v, pos, v.len());
                proof {
                    assert(find_char_from(rest, c, 0) is None) by {
                        if let Some(k2) = find_char_from(rest, c, 0) {
                            assert(rest[k2] == v@[pos + k2]);
                        }
                    }
                }
                let ghost old_out = out@;
                out.push(piece);
                proof {
                    assert(out@.map_values(|l: Vec<char>| l@) =~= old_out.map_values(
                        |l: Vec<char>| l@,
                    ).push(piece@));
                }
                return out;
            },
        }
    }
}

/// The character views of a sequence of strings.
pub open spec fn strs(v: Seq<String>) -> Seq<Seq<char>> {
    v.map_values(|s: String| s@)
}

/// The character views of a vector of character vectors.
pub open spec fn views(v: Seq<Vec<char>>) -> Seq<Seq<char>> {
    v.map_values(|l: Vec<char>| l@)
}

pub proof fn lemma_views_push(v: Seq<Vec<char>>, x: Vec<char>)
    ensures
        views(v.push(x)) == views(v).push(x@),
{
    assert(views(v.push(x)) =~= views(v).push(x@));
}

/// Concatenate `parts` with `sep` between consecutive parts (`[T]::join`).
pub open spec fn join(parts: Seq<Seq<char>>, sep: Seq<char>) -> Seq<char>
    decreases parts.len(),
{
    if parts.len() == 0 {
        seq![]
    } else if parts.len() == 1 {
        parts[0]
    } else {
        join(parts.drop_last(), sep) + sep + parts.last()
    }
}

/// `[String]::join` on character vectors.
pub fn join_of(parts: &Vec<Vec<char>>, sep: &[char]) -> (r: Vec<char>)
    ensures
        r@ == join(parts@.map_values(|l: Vec<char>| l@), sep@),
{
    let ghost views = parts@.map_values(|l: Vec<char>| l@);
    let mut out: Vec<char> = Vec::new();
    let mut i: usize = 0;
    while i < parts.len()
        invariant
            i <= parts@.len(),
            views == parts@.map_values(|l: Vec<char>| l@),
            out@ == join(views.take(i as int), sep@),
        decreases parts@.len() - i,
    {
        if i > 0 {
            push_all(&mut out, sep);
        }
        push_all(&mut out, &parts[i]);
        i = i + 1;
        proof {
            assert(views.take(i as int).drop_last() =~= views.take((i - 1) as int));
            assert(views.take(i as int).last() == parts@[i - 1]@);
            if i == 1 {
                assert(views.take(0) =~= Seq::<Seq<char>>::empty());
            }
        }
    }
    assert(views.take(parts@.len() as int) =~= views);
    out
}

/// The text `format!("{:?}", s)` gives for a string: quoted, with escapes.
pub uninterp spec fn debug_text(s: Seq<char>) -> Seq<char>;

/// `Debug` formatting of a string.
#[verifier::external_body]
pub(crate) fn debug_string(s: &str) -> (r: String)
    ensures
        r@ == debug_text(s@),
{
    format!("{s:?}")
}

/// The text `String::from_utf8_lossy` gives for these bytes.
pub uninterp spec fn utf8_lossy_text(bytes: Seq<u8>) -> Seq<char>;

/// `String::from_utf8_lossy`, owned.
#[verifier::external_body]
pub(crate) fn utf8_lossy(bytes: &[u8]) -> (r: String)
    ensures
        r@ == utf8_lossy_text(bytes@),
{
    String::from_utf8_lossy(bytes).into_owned()
}

/// Strings from character vectors.
pub fn strings_of(v: &Vec<Vec<char>>) -> (r: Vec<String>)
    ensures
        strs(r@) == views(v@),
{
    let mut out: Vec<String> = Vec::new();
    let mut j: usize = 0;
    while j < v.len()
        invariant
            j <= v@.len(),
            strs(out@) == views(v@).take(j as int),
        decreases v@.len() - j,
    {
        let ghost before = out@;
        let s = string_of(v[j].as_slice());
        out.push(s);
        proof {
            assert(strs(out@) =~= strs(before).push(s@));
            assert(views(v@).take(j + 1) =~= views(v@).take(j as int).push(v@[j as int]@));
        }
        j = j + 1;
    }
    proof {
        assert(views(v@).take(j as int) =~= views(v@));
    }
    out
}

/// `str::replace` of a non-empty pattern: occurrences replaced left to
/// right, without overlap.
pub open spec fn replace_all(s: Seq<char>, from: Seq<char>, to: Seq<char>) -> Seq<char>
    decreases s.len(),
{
    if from.len() == 0 || s.len() < from.len() {
        s
    } else if has_prefix(s, from) {
        to + replace_all(s.subrange(from.len() as int, s.len() as int), from, to)
    } else {
        seq![s[0]] + replace_all(s.drop_first(), from, to)
    }
}

/// `str::replace` on character slices (non-empty pattern).
pub fn replace_all_of(s: &[char], from: &[char], to: &[char]) -> (r: Vec<char>)
    requires
        from@.len() > 0,
    ensures
        r@ == replace_all(s@, from@, to@),
{
    let mut out: Vec<char> = Vec::new();
    let mut i: usize = 0;
    assert(s@.subrange(0, s@.len() as int) =~= s@);
    while i < s.len()
        invariant
            i <= s@.len(),
            from@.len() > 0,
            out@ + replace_all(s@.subrange(i as int, s@.len() as int), from@, to@) == replace_all(s@, from@, to@),
        decreases s@.len() - i,
    {
        let ghost rest = s@.subrange(i as int, s@.len() as int);
        if s.len() - i < from.len() {
            proof {
                assert(replace_all(rest, from@, to@) == rest);
            }
            let tail = copy_range(s, i, s.len());
            let ghost before = out@;
            push_all(&mut out, &tail);
            proof {
                assert(out@ + replace_all(s@.subrange(s@.len() as int, s@.len() as int), from@, to@) =~= before + rest);
            }
            i = s.len();
        } else if occurs_at_exec(s, from, i) {
            proof {
                assert(rest.subrange(0, from@.len() as int) =~= s@.subrange(i as int, i + from@.len()));
                assert(rest.subrange(from@.len() as int, rest.len() as int) =~= s@.subrange(i + from@.len(), s@.len() as int));
            }
            let ghost before = out@;
            push_all(&mut out, to);
            proof {
                assert(out@ + replace_all(s@.subrange(i + from@.len(), s@.len() as int), from@, to@) =~= before + replace_all(rest, from@, to@));
            }
            i = i + from.len();
        } else {
            proof {
                assert(rest.subrange(0, from@.len() as int) =~= s@.subrange(i as int, i + from@.len()));
                assert(rest.drop_first() =~= s@.subrange(i + 1, s@.len() as int));
            }
            let ghost before = out@;
            out.push(s[i]);
            proof {
                assert(out@ + replace_all(s@.subrange(i + 1, s@.len() as int), from@, to@) =~= before + replace_all(rest, from@, to@));
            }
            i = i + 1;
        }
    }
    proof {
        assert(out@ + replace_all(s@.subrange(s@.len() as int, s@.len() as int), from@, to@) =~= out@);
    }
    out
}

} // verus!
