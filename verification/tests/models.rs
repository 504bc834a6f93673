use lore_weekly::content_cleaner::clean_email_body;
use lore_weekly::models::{email_message_from_headers, words_of};

#[test]
fn message_from_headers_fills_the_gaps() {
    let m = email_message_from_headers(
        None,
        Some("Subj".to_string()),
        None,
        Some("<p@x>".to_string()),
        Some("  <a@x>\t<b@x>\n <c@x> ".to_string()),
        Some("hello\n".to_string()),
        1_700_000_000,
        Some(1_700_000_000_123),
    );
    assert_eq!(m.message_id, "unknown-1700000000123");
    assert_eq!(m.subject, "Subj");
    assert_eq!(m.from, "");
    assert_eq!(m.date, 1_700_000_000);
    assert_eq!(m.in_reply_to.as_deref(), Some("<p@x>"));
    assert_eq!(m.references, vec!["<a@x>", "<b@x>", "<c@x>"]);
    assert_eq!(m.body, clean_email_body("hello\n"));

    let m = email_message_from_headers(Some("<id@x>".into()), None, Some("A".into()), None, None, None, -5, None);
    assert_eq!(m.message_id, "<id@x>");
    assert!(m.references.is_empty());
    assert_eq!(m.body, clean_email_body(""));
    let m = email_message_from_headers(None, None, None, None, None, None, -5, Some(-5_000_000_000));
    assert_eq!(m.message_id, "unknown--5000000000");
}

#[test]
fn words_split_as_split_whitespace_does() {
    for s in ["", "  ", "a", " a  b\tc\n", "x\u{a0}y\u{2003}z ", "a\u{85}b"] {
        let cs: Vec<char> = s.chars().collect();
        let got: Vec<String> = words_of(&cs).into_iter().map(|w| w.into_iter().collect()).collect();
        let want: Vec<String> = s.split_whitespace().map(|w| w.to_string()).collect();
        assert_eq!(got, want, "{s:?}");
    }
}
