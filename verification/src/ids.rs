//! Message-ID normalization and filesystem-safe stems.
use crate::text::{
    lead_count, lemma_strip_end_is_prefix, lemma_strip_start_is_suffix, trail_count,
    CharClass, chars_of, in_class, copy_range, ends_with_str, has_suffix, lemma_strip_end_len,
    lemma_strip_start_len, string_of, strip_both, strip_both_of, strip_end, strip_end_of,
    strip_start, trim, trim_end, trim_of,
};
use sha2::Digest;
use vstd::prelude::*;
use vstd::utf8::encode_utf8;

verus! {

broadcast use vstd::string::group_string_axioms;

// ───────────────────────── normalization ─────────────────────────

pub open spec fn ellipsis() -> Seq<char> {
    seq!['.', '.', '.']
}

/// One cleanup round: strip white space and list junk from both ends, then
/// drop a trailing `...` together with the white space before it.
pub open spec fn id_step(s: Seq<char>) -> Seq<char> {
    let t = strip_both(CharClass::IdJunk, s);
    if has_suffix(t, ellipsis()) {
        trim_end(t.subrange(0, t.len() - 3))
    } else {
        t
    }
}

/// Repeat [`id_step`] until it changes nothing.
pub open spec fn id_fix(s: Seq<char>) -> Seq<char>
    decreases s.len(),
{
    if id_step(s).len() < s.len() {
        id_fix(id_step(s))
    } else {
        s
    }
}

/// Canonical Message-ID: trim Unicode white space, then clean up to a fixed point.
pub open spec fn normalized_id(s: Seq<char>) -> Seq<char> {
    id_fix(trim(s))
}

pub proof fn lemma_id_step_shrinks(s: Seq<char>)
    ensures
        id_step(s).len() <= s.len(),
        id_step(s).len() == s.len() ==> id_step(s) == s,
{
    let a = strip_start(CharClass::IdJunk, s);
    let t = strip_end(CharClass::IdJunk, a);
    lemma_strip_start_len(CharClass::IdJunk, s);
    lemma_strip_end_len(CharClass::IdJunk, a);
    if has_suffix(t, ellipsis()) {
        lemma_strip_end_len(CharClass::Space, t.subrange(0, t.len() - 3));
    }
}

/// The result of [`id_fix`] is a fixed point of [`id_step`].
pub proof fn lemma_id_fix_fixed(s: Seq<char>)
    ensures
        id_step(id_fix(s)) == id_fix(s),
    decreases s.len(),
{
    lemma_id_step_shrinks(s);
    if id_step(s).len() < s.len() {
        lemma_id_fix_fixed(id_step(s));
    }
}

/// A string that the cleanup round leaves alone has no white space at its ends.
proof fn lemma_step_fixed_trimmed(r: Seq<char>)
    requires
        id_step(r) == r,
    ensures
        trim(r) == r,
{
    let a = strip_start(CharClass::IdJunk, r);
    let t = strip_end(CharClass::IdJunk, a);
    lemma_strip_start_len(CharClass::IdJunk, r);
    lemma_strip_end_len(CharClass::IdJunk, a);
    if has_suffix(t, ellipsis()) {
        lemma_strip_end_len(CharClass::Space, t.subrange(0, t.len() - 3));
        assert(false);
    }
    assert(t == r);
    assert(a == r);
    if r.len() > 0 {
        lemma_strip_start_len(CharClass::IdJunk, r.drop_first());
        lemma_strip_end_len(CharClass::IdJunk, r.drop_last());
        assert(!in_class(CharClass::IdJunk, r[0]));
        assert(!in_class(CharClass::IdJunk, r.last()));
    }
    assert(strip_start(CharClass::Space, r) == r);
    assert(strip_end(CharClass::IdJunk, r) == r);
    assert(strip_end(CharClass::Space, r) == r);
}

/// Normalizing a normalized Message-ID changes nothing.
pub proof fn lemma_normalized_id_idempotent(s: Seq<char>)
    ensures
        normalized_id(normalized_id(s)) == normalized_id(s),
{
    let r = normalized_id(s);
    lemma_id_fix_fixed(trim(s));
    lemma_step_fixed_trimmed(r);
    assert(trim(r) == r);
    lemma_id_step_shrinks(r);
}

/// `n` is a contiguous piece of `s`.
pub open spec fn is_infix(n: Seq<char>, s: Seq<char>) -> bool {
    exists|i: int, j: int| 0 <= i <= j <= s.len() && n == #[trigger] s.subrange(i, j)
}

/// Where the ends of `strip_both(k, s)` sit in `s`.
proof fn strip_both_bounds(k: CharClass, s: Seq<char>) -> (r: (int, int))
    ensures
        0 <= r.0 <= r.1 <= s.len(),
        strip_both(k, s) == s.subrange(r.0, r.1),
{
    lemma_strip_start_is_suffix(k, s);
    let lc = lead_count(k, s) as int;
    let a = strip_start(k, s);
    lemma_strip_end_is_prefix(k, a);
    let tc = trail_count(k, a) as int;
    assert(a.subrange(0, a.len() - tc) =~= s.subrange(lc, s.len() - tc));
    (lc, s.len() - tc)
}

/// Where the ends of `id_step(s)` sit in `s`.
proof fn id_step_bounds(s: Seq<char>) -> (r: (int, int))
    ensures
        0 <= r.0 <= r.1 <= s.len(),
        id_step(s) == s.subrange(r.0, r.1),
{
    let (a, b) = strip_both_bounds(CharClass::IdJunk, s);
    let t = strip_both(CharClass::IdJunk, s);
    if has_suffix(t, ellipsis()) {
        let u = t.subrange(0, t.len() - 3);
        lemma_strip_end_is_prefix(CharClass::Space, u);
        let tc = trail_count(CharClass::Space, u) as int;
        assert(u.subrange(0, u.len() - tc) =~= s.subrange(a, b - 3 - tc));
        (a, b - 3 - tc)
    } else {
        (a, b)
    }
}

/// Where the ends of `id_fix(s)` sit in `s`.
proof fn id_fix_bounds(s: Seq<char>) -> (r: (int, int))
    ensures
        0 <= r.0 <= r.1 <= s.len(),
        id_fix(s) == s.subrange(r.0, r.1),
    decreases s.len(),
{
    if id_step(s).len() < s.len() {
        let (a, b) = id_step_bounds(s);
        let (c, d) = id_fix_bounds(id_step(s));
        assert(s.subrange(a, b).subrange(c, d) =~= s.subrange(a + c, a + d));
        (a + c, a + d)
    } else {
        assert(s.subrange(0, s.len() as int) =~= s);
        (0, s.len() as int)
    }
}

/// A string whose first and last characters are not list junk is left alone
/// by the cleanup round's strip.
proof fn lemma_strip_both_keeps(k: CharClass, s: Seq<char>)
    requires
        s.len() > 0,
        !in_class(k, s[0]),
        !in_class(k, s.last()),
    ensures
        strip_both(k, s) == s,
{
    assert(strip_start(k, s) == s);
    assert(strip_end(k, s) == s);
}

/// A string the cleanup round leaves alone has no list junk at its ends and
/// no trailing `...`.
proof fn lemma_fixed_ends(n: Seq<char>)
    requires
        id_step(n) == n,
    ensures
        n.len() > 0 ==> !in_class(CharClass::IdJunk, n[0]) && !in_class(CharClass::IdJunk, n.last()),
        !has_suffix(n, ellipsis()),
{
    let t = strip_start(CharClass::IdJunk, n);
    let u = strip_end(CharClass::IdJunk, t);
    lemma_strip_start_len(CharClass::IdJunk, n);
    lemma_strip_end_len(CharClass::IdJunk, t);
    if has_suffix(u, ellipsis()) {
        lemma_strip_end_len(CharClass::Space, u.subrange(0, u.len() - 3));
        assert(false);
    }
    assert(u == n);
    assert(t == n);
    if n.len() > 0 {
        lemma_strip_start_len(CharClass::IdJunk, n.drop_first());
        lemma_strip_end_len(CharClass::IdJunk, n.drop_last());
    }
}

/// The normalized id is a contiguous piece of the raw one.
proof fn lemma_normalized_infix(s: Seq<char>)
    ensures
        is_infix(normalized_id(s), s),
{
    let (a, b) = strip_both_bounds(CharClass::Space, s);
    let (c, d) = id_fix_bounds(trim(s));
    assert(s.subrange(a, b).subrange(c, d) =~= s.subrange(a + c, a + d));
    assert(normalized_id(s) == s.subrange(a + c, a + d));
}

/// An id written `<...>` is its own normal form.
proof fn lemma_bracketed_kept(s: Seq<char>)
    requires
        s.len() > 0,
        s[0] == '<',
        s.last() == '>',
    ensures
        normalized_id(s) == s,
{
    lemma_strip_both_keeps(CharClass::Space, s);
    lemma_strip_both_keeps(CharClass::IdJunk, s);
    if has_suffix(s, ellipsis()) {
        assert(s.subrange(s.len() - 3, s.len() as int)[2] == s.last());
    }
    assert(id_step(s) == s);
}

/// What normalizing a Message-ID `s` gives, `n`:
/// - normalizing `n` again changes nothing;
/// - `n` is a contiguous piece of `s`;
/// - neither end of `n` is white space or list punctuation
///   (`,` `;` `"` `'` `` ` `` `|`);
/// - `n` does not end in `...`;
/// - an id written `<...>` is left exactly as it is.
pub proof fn lemma_normalized_id_shape(s: Seq<char>)
    ensures
        normalized_id(normalized_id(s)) == normalized_id(s),
        is_infix(normalized_id(s), s),
        normalized_id(s).len() > 0 ==> !in_class(CharClass::IdJunk, normalized_id(s)[0])
            && !in_class(CharClass::IdJunk, normalized_id(s).last()),
        !has_suffix(normalized_id(s), ellipsis()),
        (s.len() > 0 && s[0] == '<' && s.last() == '>') ==> normalized_id(s) == s,
{
    lemma_normalized_id_idempotent(s);
    lemma_normalized_infix(s);
    lemma_id_fix_fixed(trim(s));
    lemma_fixed_ends(normalized_id(s));
    if s.len() > 0 && s[0] == '<' && s.last() == '>' {
        lemma_bracketed_kept(s);
    }
}

fn id_step_exec(s: &[char]) -> (r: Vec<char>)
    ensures
        r@ == id_step(s@),
{
    let t = strip_both_of(CharClass::IdJunk, s);
    if ends_with_str(&t, "...") {
        proof {
            reveal_strlit("...");
            assert("..."@ =~= ellipsis());
        }
        let cut = copy_range(&t, 0, t.len() - 3);
        strip_end_of(CharClass::Space, &cut)
    } else {
        proof {
            reveal_strlit("...");
            assert("..."@ =~= ellipsis());
        }
        t
    }
}

/// Normalize a Message-ID given as characters.
pub fn normalize_chars(v: &[char]) -> (r: Vec<char>)
    ensures
        r@ == normalized_id(v@),
{
    let mut s = trim_of(v);
    loop
        invariant
            normalized_id(v@) == id_fix(s@),
        decreases s@.len(),
    {
        let t = id_step_exec(&s);
        proof {
            lemma_id_step_shrinks(s@);
        }
        if t.len() == s.len() {
            return s;
        }
        s = t;
    }
}

/// Canonical Message-ID form for lookups, tools, front matter, roots, and stems.
///
/// Trims Unicode white space, then strips trailing list junk (commas,
/// semicolons, quotes, backticks, pipes) and a trailing `...`, repeating until
/// nothing changes. Angle brackets and the interior of the id are kept.
pub fn normalize_message_id(id: &str) -> (r: String)
    ensures
        r@ == normalized_id(id@),
{
    let v = chars_of(id);
    let n = normalize_chars(&v);
    string_of(&n)
}

// ───────────────────────── percent encoding ─────────────────────────

/// RFC 3986 unreserved bytes: `A-Z a-z 0-9 - _ . ~`.
pub open spec fn unreserved(b: u8) -> bool {
    ||| (0x41 <= b && b <= 0x5a)
    ||| (0x61 <= b && b <= 0x7a)
    ||| (0x30 <= b && b <= 0x39)
    ||| b == 0x2d
    ||| b == 0x5f
    ||| b == 0x2e
    ||| b == 0x7e
}

/// Uppercase hex digit for `n < 16`.
pub open spec fn hex_upper(n: u8) -> char {
    if n < 10 {
        ((n + 48) as u8) as char
    } else {
        ((n + 55) as u8) as char
    }
}

/// Lowercase hex digit for `n < 16`.
pub open spec fn hex_lower(n: u8) -> char {
    if n < 10 {
        ((n + 48) as u8) as char
    } else {
        ((n + 87) as u8) as char
    }
}

/// One byte of a percent-encoded string.
pub open spec fn pct_byte(b: u8) -> Seq<char> {
    if unreserved(b) {
        seq![b as char]
    } else {
        seq!['%', hex_upper(b / 16), hex_upper(b % 16)]
    }
}

/// Percent-encode a byte sequence, leaving unreserved bytes alone.
pub open spec fn pct_encode(bs: Seq<u8>) -> Seq<char>
    decreases bs.len(),
{
    if bs.len() == 0 {
        seq![]
    } else {
        pct_encode(bs.drop_last()) + pct_byte(bs.last())
    }
}

fn hex_upper_exec(n: u8) -> (c: char)
    requires
        n < 16,
    ensures
        c == hex_upper(n),
{
    if n < 10 {
        (n + 48) as char
    } else {
        (n + 55) as char
    }
}

fn hex_lower_exec(n: u8) -> (c: char)
    requires
        n < 16,
    ensures
        c == hex_lower(n),
{
    if n < 10 {
        (n + 48) as char
    } else {
        (n + 87) as char
    }
}

/// Percent-encode a byte slice into characters.
pub fn pct_encode_bytes(bytes: &[u8]) -> (r: Vec<char>)
    ensures
        r@ == pct_encode(bytes@),
{
    let mut out: Vec<char> = Vec::new();
    let mut i: usize = 0;
    while i < bytes.len()
        invariant
            i <= bytes@.len(),
            out@ == pct_encode(bytes@.take(i as int)),
        decreases bytes@.len() - i,
    {
        let b = bytes[i];
        if (0x41 <= b && b <= 0x5a) || (0x61 <= b && b <= 0x7a) || (0x30 <= b && b <= 0x39) || b
            == 0x2d || b == 0x5f || b == 0x2e || b == 0x7e {
            out.push(b as char);
        } else {
            out.push('%');
            out.push(hex_upper_exec(b / 16));
            out.push(hex_upper_exec(b % 16));
        }
        i = i + 1;
        proof {
            assert(bytes@.take(i as int).drop_last() =~= bytes@.take((i - 1) as int));
        }
    }
    assert(bytes@.take(bytes@.len() as int) =~= bytes@);
    out
}

/// Percent-encode a normalized id (RFC 3986 unreserved characters left alone).
///
/// Works on the UTF-8 bytes of the text; hex digits are uppercase (`%3C`).
pub fn percent_encode_id(normalized: &str) -> (r: String)
    ensures
        r@ == pct_encode(encode_utf8(normalized@)),
{
    let bytes = normalized.as_bytes();
    let v = pct_encode_bytes(bytes);
    string_of(&v)
}

// ───────────────────────── hashing ─────────────────────────

/// The SHA-256 digest of a byte sequence.
pub uninterp spec fn sha256_of(data: Seq<u8>) -> Seq<u8>;

/// `sha2::Sha256::digest`: the 32-byte SHA-256 digest of `data`.
#[verifier::external_body]
fn sha256_digest(data: &[u8]) -> (d: Vec<u8>)
    ensures
        d@ == sha256_of(data@),
        d@.len() == 32,
{
    sha2::Sha256::digest(data).to_vec()
}

/// Lowercase hex rendering of a byte sequence (two digits per byte).
pub open spec fn hex_lower_seq(bs: Seq<u8>) -> Seq<char>
    decreases bs.len(),
{
    if bs.len() == 0 {
        seq![]
    } else {
        hex_lower_seq(bs.drop_last()) + seq![hex_lower(bs.last() / 16), hex_lower(bs.last() % 16)]
    }
}

pub proof fn lemma_hex_lower_len(bs: Seq<u8>)
    ensures
        hex_lower_seq(bs).len() == 2 * bs.len(),
    decreases bs.len(),
{
    if bs.len() > 0 {
        lemma_hex_lower_len(bs.drop_last());
    }
}

fn hex_lower_bytes(bytes: &[u8]) -> (r: Vec<char>)
    ensures
        r@ == hex_lower_seq(bytes@),
{
    let mut out: Vec<char> = Vec::new();
    let mut i: usize = 0;
    while i < bytes.len()
        invariant
            i <= bytes@.len(),
            out@ == hex_lower_seq(bytes@.take(i as int)),
        decreases bytes@.len() - i,
    {
        let b = bytes[i];
        out.push(hex_lower_exec(b / 16));
        out.push(hex_lower_exec(b % 16));
        i = i + 1;
        proof {
            assert(bytes@.take(i as int).drop_last() =~= bytes@.take((i - 1) as int));
        }
    }
    assert(bytes@.take(bytes@.len() as int) =~= bytes@);
    out
}

/// Lowercase hex SHA-256 digest (64 chars, no `0x` prefix).
pub fn sha256_hex_lower(bytes: &[u8]) -> (r: String)
    ensures
        r@ == hex_lower_seq(sha256_of(bytes@)),
        r@.len() == 64,
{
    let d = sha256_digest(bytes);
    let h = hex_lower_bytes(&d);
    proof {
        lemma_hex_lower_len(d@);
    }
    string_of(&h)
}

// ───────────────────────── stems ─────────────────────────

/// Longest percent-encoded stem kept as is; longer ids are hashed.
pub const MAX_ENCODED_STEM: usize = 200;

/// Filename stem for an id: its percent-encoded normalized form, or the
/// lowercase SHA-256 hex of the normalized UTF-8 bytes when that is too long.
pub open spec fn file_stem(id: Seq<char>) -> Seq<char> {
    let n = normalized_id(id);
    let e = pct_encode(encode_utf8(n));
    if e.len() > MAX_ENCODED_STEM {
        hex_lower_seq(sha256_of(encode_utf8(n)))
    } else {
        e
    }
}

/// Filename stem (no `.md`) for messages and threads, as characters.
pub fn file_stem_chars(id: &str) -> (r: Vec<char>)
    ensures
        r@ == file_stem(id@),
        pct_encode(encode_utf8(normalized_id(id@))).len() > MAX_ENCODED_STEM ==> r@.len() == 64,
{
    let n = normalize_message_id(id);
    let bytes = n.as_str().as_bytes();
    let enc = pct_encode_bytes(bytes);
    if enc.len() > MAX_ENCODED_STEM {
        let d = sha256_digest(bytes);
        proof {
            lemma_hex_lower_len(d@);
        }
        hex_lower_bytes(&d)
    } else {
        enc
    }
}

/// Filename stem (no `.md`) for messages and threads.
///
/// Always normalizes first. If the percent-encoded form is longer than 200
/// characters, uses the 64-char lowercase SHA-256 hex of the normalized bytes.
pub fn file_stem_for_id(id: &str) -> (r: String)
    ensures
        r@ == file_stem(id@),
        pct_encode(encode_utf8(normalized_id(id@))).len() > MAX_ENCODED_STEM ==> r@.len() == 64,
{
    let v = file_stem_chars(id);
    string_of(&v)
}

/// A raw id and its normalized form map to the same stem.
pub proof fn lemma_file_stem_ignores_normalization(id: Seq<char>)
    ensures
        file_stem(normalized_id(id)) == file_stem(id),
{
    lemma_normalized_id_idempotent(id);
}

} // verus!
