//! Public lore.kernel.org links for Message-IDs.
use crate::ids::{lemma_normalized_id_idempotent, normalize_chars, normalized_id};
use crate::text::{CharClass, chars_of, push_all, push_str, string_of, strip_end, strip_end_of, strip_start, strip_start_of};
use vstd::prelude::*;

verus! {

/// Default lore archive prefix when `lore_base_url` is omitted.
pub const DEFAULT_LORE_BASE: &'static str = "https://lore.kernel.org/";

/// Lore path segment: the normalized id without leading `<` / trailing `>`.
pub open spec fn lore_segment(message_id: Seq<char>) -> Seq<char> {
    strip_end(CharClass::Gt, strip_start(CharClass::Lt, normalized_id(message_id)))
}

/// `{base without trailing slashes}/{segment}/`.
pub open spec fn lore_url(lore_base: Seq<char>, message_id: Seq<char>) -> Seq<char> {
    strip_end(CharClass::Slash, lore_base) + seq!['/'] + lore_segment(message_id) + seq!['/']
}

/// `[label](url)`.
pub open spec fn markdown_link(label: Seq<char>, url: Seq<char>) -> Seq<char> {
    seq!['['] + label + seq![']', '('] + url + seq![')']
}

pub fn lore_segment_chars(message_id: &[char]) -> (r: Vec<char>)
    ensures
        r@ == lore_segment(message_id@),
{
    let n = normalize_chars(message_id);
    let a = strip_start_of(CharClass::Lt, &n);
    strip_end_of(CharClass::Gt, &a)
}

/// Lore permalink for a Message-ID, as characters.
pub fn lore_url_chars(lore_base: &[char], message_id: &[char]) -> (r: Vec<char>)
    ensures
        r@ == lore_url(lore_base@, message_id@),
{
    let mut out = strip_end_of(CharClass::Slash, lore_base);
    out.push('/');
    let seg = lore_segment_chars(message_id);
    push_all(&mut out, &seg);
    out.push('/');
    out
}

/// Build a lore permalink for a Message-ID.
///
/// Lore URLs use the Message-ID without surrounding angle brackets. The base may
/// carry trailing slashes; the id may be raw (leading space) or normalized.
pub fn lore_url_for_message_id(lore_base: &str, message_id: &str) -> (r: String)
    ensures
        r@ == lore_url(lore_base@, message_id@),
{
    let b = chars_of(lore_base);
    let m = chars_of(message_id);
    let u = lore_url_chars(&b, &m);
    string_of(&u)
}

/// Path segment lore uses for a Message-ID: normalized, without `<` / `>`.
pub fn lore_message_id_path_segment(message_id: &str) -> (r: String)
    ensures
        r@ == lore_segment(message_id@),
{
    let m = chars_of(message_id);
    let s = lore_segment_chars(&m);
    string_of(&s)
}

/// Markdown link to a lore message: `[label](url)`.
pub fn lore_markdown_link(lore_base: &str, message_id: &str, label: &str) -> (r: String)
    ensures
        r@ == markdown_link(label@, lore_url(lore_base@, message_id@)),
{
    let b = chars_of(lore_base);
    let m = chars_of(message_id);
    let url = lore_url_chars(&b, &m);
    let mut out: Vec<char> = Vec::new();
    out.push('[');
    push_str(&mut out, label);
    out.push(']');
    out.push('(');
    push_all(&mut out, &url);
    out.push(')');
    proof {
        assert(out@ =~= markdown_link(label@, url@));
    }
    string_of(&out)
}


/// A raw id (as stored, with its leading space or trailing junk) and its
/// normalized form give the same lore permalink.
pub proof fn lemma_lore_url_ignores_normalization(lore_base: Seq<char>, message_id: Seq<char>)
    ensures
        lore_url(lore_base, normalized_id(message_id)) == lore_url(lore_base, message_id),
{
    lemma_normalized_id_idempotent(message_id);
}

} // verus!
