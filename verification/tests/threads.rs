use lore_weekly::email_index::{EmailIndex, EmailRow};
use lore_weekly::threads::{compile_grep_pattern, grep_thread, highlight_matches};

fn row(mid: &str, subj: &str, date: &str, irt: Option<&str>, refs: &str) -> EmailRow {
    EmailRow {
        message_id: mid.into(),
        subject: subj.into(),
        from_addr: "a@b".into(),
        date: date.into(),
        in_reply_to: irt.map(|s| s.to_string()),
        references_json: refs.into(),
    }
}

fn index(rows: Vec<EmailRow>) -> EmailIndex {
    match EmailIndex::from_rows(rows) {
        Ok(ix) => ix,
        Err(_) => panic!("rows should load"),
    }
}

#[test]
fn highlights_all_ranges() {
    let re = compile_grep_pattern("foo|bar").unwrap();
    let s = highlight_matches("x foo y bar z", &re, true);
    assert_eq!(s, "x \x1b[32mfoo\x1b[0m y \x1b[32mbar\x1b[0m z");
}

#[test]
fn no_color_is_identity() {
    let re = compile_grep_pattern("foo").unwrap();
    assert_eq!(highlight_matches("a foo b", &re, false), "a foo b");
}

#[test]
fn invalid_grep_pattern() {
    match compile_grep_pattern("(") {
        Err(e) => assert_eq!(e, "Invalid regex: ("),
        Ok(_) => panic!("should not compile"),
    }
}

#[test]
fn threads_group_and_order_by_latest() {
    let ix = index(vec![
        row(" <root@x>", "Root", "2026-01-01T00:00:00+00:00", None, "[]"),
        row(" <other@x>", "Other", "2026-01-02T00:00:00+00:00", None, "[]"),
        row(" <child@x>", "Re: Root", "2026-01-03T00:00:00+00:00", Some(" <root@x>"), r#"[" <root@x>"]"#),
    ]);
    let threads = ix.threads();
    assert_eq!(threads.len(), 2);
    assert_eq!(threads[0].root_id, "<root@x>");
    assert_eq!(threads[0].subject, "Root");
    assert_eq!(threads[0].message_indices.len(), 2);
    assert_eq!(threads[1].root_id, "<other@x>");
}

#[test]
fn compose_and_grep_thread() {
    let ix = index(vec![
        row(" <id@example.com>", "Hello", "2026-07-18T12:00:00+00:00", None, "[]"),
        row(" <re@example.com>", "Re: Hello", "2026-07-19T12:00:00+00:00", Some("<id@example.com>"), "[]"),
    ]);
    let bodies = vec![
        ("<id@example.com>".to_string(), "body-one\n".to_string()),
        ("<re@example.com>".to_string(), "no newline".to_string()),
    ];
    let threads = ix.threads();
    assert_eq!(threads.len(), 1);
    let text = ix.compose_thread_text(&threads[0], &bodies);
    assert!(text.contains("body-one"), "compose text was: {text:?}");
    assert!(text.contains("Subject: Hello"));
    assert_eq!(text, "Subject: Hello\nbody-one\n\n\nSubject: Re: Hello\nno newline\n");
    let re = compile_grep_pattern("Hello").unwrap();
    let (out, n) = grep_thread(&re, &threads[0], &text, false);
    assert_eq!(n, 2);
    assert_eq!(out, "\n=== Hello (<id@example.com>) ===\nSubject: Hello\nSubject: Re: Hello\n");
}
