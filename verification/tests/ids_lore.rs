use lore_weekly::ids::{
    file_stem_for_id, normalize_message_id, percent_encode_id, sha256_hex_lower,
};
use lore_weekly::lore::{
    lore_markdown_link, lore_message_id_path_segment, lore_url_for_message_id, DEFAULT_LORE_BASE,
};

#[test]
fn normalize_trims_ascii_and_preserves_brackets() {
    assert_eq!(normalize_message_id(" <abc@def.com>"), "<abc@def.com>");
    assert_eq!(normalize_message_id("<abc@def.com> "), "<abc@def.com>");
    assert_eq!(normalize_message_id("  <x@y>  "), "<x@y>");
}

#[test]
fn normalize_trims_unicode_whitespace() {
    assert_eq!(normalize_message_id("\u{00A0}<id@host>\u{00A0}"), "<id@host>");
}

#[test]
fn normalize_strips_trailing_comma_junk() {
    assert_eq!(
        normalize_message_id("<20260108004016.3907158-1-cel@kernel.org>,"),
        "<20260108004016.3907158-1-cel@kernel.org>"
    );
    assert_eq!(normalize_message_id(" <abc@def.com>, "), "<abc@def.com>");
    assert_eq!(normalize_message_id("<a@b>;"), "<a@b>");
}

#[test]
fn file_stem_percent_encodes_typical_id() {
    assert_eq!(file_stem_for_id(" <abc@def.com>"), "%3Cabc%40def.com%3E");
    assert_eq!(file_stem_for_id("<abc@def.com>"), "%3Cabc%40def.com%3E");
}

#[test]
fn long_id_uses_sha256_lowercase_hex() {
    let long = format!("<{}@example.com>", "a".repeat(300));
    let stem = file_stem_for_id(&long);
    assert_eq!(stem.len(), 64);
    assert!(
        stem.chars().all(|c| c.is_ascii_hexdigit() && !c.is_ascii_uppercase()),
        "expected lowercase hex, got {stem}"
    );
    assert_eq!(stem, sha256_hex_lower(normalize_message_id(&long).as_bytes()));
}

#[test]
fn percent_encode_leaves_unreserved() {
    assert_eq!(percent_encode_id("abc-._~XYZ09"), "abc-._~XYZ09");
}

#[test]
fn normalize_is_idempotent_on_examples() {
    for raw in [" <a@b>, ", "\u{00A0}<id@host>;", "<x@y>", "  plain  "] {
        let once = normalize_message_id(raw);
        assert_eq!(normalize_message_id(&once), once);
    }
}

#[test]
fn sha256_of_empty_input() {
    assert_eq!(
        sha256_hex_lower(b""),
        "e3b0c44298fc1c149afbf4c8996fb92427ae41e4649b934ca495991b7852b855"
    );
}

#[test]
fn percent_encode_escapes_reserved_and_non_ascii() {
    assert_eq!(percent_encode_id("a b/c"), "a%20b%2Fc");
    assert_eq!(percent_encode_id("é"), "%C3%A9");
}

#[test]
fn lore_url_strips_brackets_and_space() {
    let url = lore_url_for_message_id(
        "https://lore.kernel.org/list/",
        " <20260720-tcp-read-sock-v2-6-29545d034f3c@kernel.org>",
    );
    assert_eq!(
        url,
        "https://lore.kernel.org/list/20260720-tcp-read-sock-v2-6-29545d034f3c@kernel.org/"
    );
}

#[test]
fn lore_url_base_without_trailing_slash() {
    let url = lore_url_for_message_id("https://lore.kernel.org/list", "<abc@def.com>");
    assert_eq!(url, "https://lore.kernel.org/list/abc@def.com/");
}

#[test]
fn markdown_link() {
    let md = lore_markdown_link(DEFAULT_LORE_BASE, "<x@y>", "2026-07-18 Alice — subject");
    assert_eq!(md, "[2026-07-18 Alice — subject](https://lore.kernel.org/x@y/)");
}

#[test]
fn lore_segment_drops_brackets() {
    assert_eq!(lore_message_id_path_segment(" <a@b>, "), "a@b");
}

#[test]
fn normalized_ids_are_clean_pieces_of_the_raw_id() {
    assert_eq!(normalize_message_id("<a@b>"), "<a@b>");
    assert_eq!(normalize_message_id("<a;b@c|d>"), "<a;b@c|d>");
    assert_eq!(normalize_message_id("  'abc@d', "), "abc@d");
    assert_eq!(normalize_message_id("foo@bar ..."), "foo@bar");
    assert_eq!(normalize_message_id("`<x@y>`|;"), "<x@y>");
    let n = normalize_message_id(" \"<m@h>...\", ");
    assert_eq!(n, "<m@h>");
    assert_eq!(normalize_message_id(&n), n);
}

#[test]
fn long_ids_hash_to_64_hex_characters_and_ignore_normalization() {
    let long = format!("<{}@example.com>", "x".repeat(300));
    let a = file_stem_for_id(&long);
    let b = file_stem_for_id(&format!("  {long}, "));
    assert_eq!(a.len(), 64);
    assert_eq!(a, b);
}
