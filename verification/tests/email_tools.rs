use lore_weekly::agent::session::SessionFailReason;
use lore_weekly::email_index::{thread_root_id, EmailIndex, EmailMeta, EmailRow, IndexLoadError};
use lore_weekly::summarize::{
    in_window_messages, require_outputs_path, select_active_threads, thread_step, ThreadStep,
    WeekRunTally,
};
use lore_weekly::tools::mail::{
    format_email, get_email_lookup, grep_emails_start, list_thread_messages, GetEmailArgs,
    GrepEmailsArgs, ListThreadMessagesArgs,
};
use lore_weekly::tools::related::{
    normalize_root_set, normalize_subject, search_related_threads, subject_tokens,
    SearchRelatedThreadsArgs,
};
use lore_weekly::week::{week_window, WeekDate};

const LORE: &str = "https://lore.kernel.org/linux-nfs/";

fn row(mid: &str, subj: &str, date: &str, irt: Option<&str>, refs: &str) -> EmailRow {
    EmailRow {
        message_id: mid.into(),
        subject: subj.into(),
        from_addr: "a@b".into(),
        date: date.into(),
        in_reply_to: irt.map(|s| s.to_string()),
        references_json: refs.into(),
    }
}

fn index(rows: Vec<EmailRow>) -> EmailIndex {
    match EmailIndex::from_rows(rows) {
        Ok(ix) => ix,
        Err(_) => panic!("rows should load"),
    }
}

fn week() -> WeekDate {
    WeekDate::from_ymd(2026, 7, 20).unwrap()
}

#[test]
fn leading_space_pk_load_body_and_compose() {
    let ix = index(vec![row(" <id@example.com>", "Hello", "2026-07-18T12:00:00+00:00", None, "[]")]);
    assert_eq!(ix.len(), 1);
    let meta = ix.get("<id@example.com>").unwrap();
    assert_eq!(meta.message_id, "<id@example.com>");
    assert_eq!(meta.message_id_raw, " <id@example.com>");
    assert!(ix.get(" <id@example.com>").is_some());

    // Bodies are keyed by the normalized id, as the database hands them over.
    let bodies = vec![("<id@example.com>".to_string(), "body-one\n".to_string())];
    let threads = ix.threads();
    assert_eq!(threads.len(), 1);
    let text = ix.compose_thread_text(&threads[0], &bodies);
    assert!(text.contains("body-one"), "compose text was: {text:?}");
    assert!(text.contains("Subject: Hello"));
}

#[test]
fn collision_keeps_earliest_raw_pk() {
    let ix = index(vec![
        row(" <same@x>", "first", "2026-01-01T00:00:00+00:00", None, "[]"),
        row("  <same@x>", "second", "2026-01-02T00:00:00+00:00", None, "[]"),
    ]);
    assert_eq!(ix.len(), 1);
    let meta = ix.get("<same@x>").unwrap();
    assert_eq!(meta.message_id_raw, " <same@x>");
    assert_eq!(meta.subject, "first");
}

#[test]
fn thread_root_normalizes_parent() {
    let ix = index(vec![
        row(" <root@x>", "Root", "2026-01-01T00:00:00+00:00", None, "[]"),
        row(" <child@x>", "Re: Root", "2026-01-02T00:00:00+00:00", Some(" <root@x>"), r#"[" <root@x>"]"#),
    ]);
    let threads = ix.threads();
    assert_eq!(threads.len(), 1);
    assert_eq!(threads[0].root_id, "<root@x>");
    assert_eq!(threads[0].message_indices.len(), 2);
    let child = ix.get("<child@x>").unwrap();
    assert_eq!(thread_root_id(child), "<root@x>");
    assert!(ix.replies_to("<child@x>").unwrap().message_id == "<root@x>");
    assert!(ix.replies_to("<root@x>").is_none());
}

#[test]
fn bad_rows_are_reported() {
    match EmailIndex::from_rows(vec![row(" <a@x>", "s", "yesterday", None, "[]")]) {
        Err(IndexLoadError::InvalidDate { message_id, date }) => {
            assert_eq!(message_id, " <a@x>");
            assert_eq!(date, "yesterday");
        }
        _ => panic!("expected a date error"),
    }
    match EmailIndex::from_rows(vec![row(" <a@x>", "s", "2026-01-01T00:00:00+00:00", None, "nope")]) {
        Err(IndexLoadError::InvalidReferences { message_id }) => assert_eq!(message_id, " <a@x>"),
        _ => panic!("expected a references error"),
    }
}

#[test]
fn thread_root_id_self() {
    let msg = EmailMeta {
        message_id: "<a@b>".into(),
        message_id_raw: " <a@b>".into(),
        subject: "s".into(),
        from: "f".into(),
        date: 1767225600,
        in_reply_to: None,
        references: vec![],
    };
    assert_eq!(thread_root_id(&msg), "<a@b>");
}

fn seed_one() -> EmailIndex {
    index(vec![row(" <get@test.com>", "Hello", "2026-07-18T12:00:00+00:00", None, "[]")])
}

fn get_email(ix: &EmailIndex, id: &str) -> Result<String, String> {
    let m = get_email_lookup(ix, &GetEmailArgs { message_id: id.into() })?;
    Ok(format_email(m, LORE, "line one\nline two\n"))
}

#[test]
fn get_email_accepts_raw_or_normalized() {
    let ix = seed_one();
    let a = get_email(&ix, "<get@test.com>").unwrap();
    let b = get_email(&ix, " <get@test.com>").unwrap();
    assert!(a.contains("Message-ID: <get@test.com>"));
    assert!(!a.contains("Message-ID:  <"));
    assert!(a.contains("Lore: https://lore.kernel.org/linux-nfs/get@test.com/"));
    assert!(a.contains("line one"));
    assert!(a.contains("Date: 2026-07-18T12:00:00+00:00"));
    assert!(a.contains("Thread-Root-ID: <get@test.com>"));
    assert_eq!(a, b);
}

#[test]
fn get_email_missing_errors() {
    let ix = seed_one();
    let err = get_email(&ix, "<nope@x>").unwrap_err();
    assert!(err.contains("unknown message_id"));
    assert_eq!(err, "unknown message_id after normalize: \"<nope@x>\"");
    assert_eq!(get_email(&ix, "  ").unwrap_err(), "message_id is required");
}

fn seed_thread() -> EmailIndex {
    index(vec![
        row(" <old@t>", "Old other", "2026-01-01T00:00:00+00:00", None, "[]"),
        row(" <root@t>", "Root", "2026-07-15T10:00:00+00:00", None, "[]"),
        row(" <child@t>", "Re: Root", "2026-07-18T11:00:00+00:00", Some(" <root@t>"), r#"[" <root@t>"]"#),
    ])
}

fn list_args(root: Option<&str>) -> ListThreadMessagesArgs {
    ListThreadMessagesArgs { thread_root_id: root.map(|s| s.to_string()), date_from: None, date_to: None }
}

#[test]
fn list_defaults_to_focus() {
    let ix = seed_thread();
    let focus = Some("<root@t>".to_string());
    let out = list_thread_messages(&ix, &focus, LORE, week_window(week()), &list_args(None)).unwrap();
    assert!(out.contains("Messages: 2"));
    assert!(out.contains("message_id=<root@t>"));
    assert!(out.contains("message_id=<child@t>"));
    assert!(out.contains("in_week=true"));
    assert!(out.contains("lore=https://lore.kernel.org/linux-nfs/root@t/"));
    assert!(!out.contains("message_id_raw"));
    assert!(!out.contains("message_id= <"));
    assert!(out.find("<root@t> file_stem").unwrap() < out.find("<child@t> file_stem").unwrap());
}

#[test]
fn list_requires_root_without_focus() {
    let ix = seed_thread();
    let err = list_thread_messages(&ix, &None, LORE, week_window(week()), &list_args(None)).unwrap_err();
    assert!(err.contains("thread_root_id is required"));
}

#[test]
fn list_reports_empty_thread() {
    let ix = seed_thread();
    let out = list_thread_messages(&ix, &None, LORE, week_window(week()), &list_args(Some(" <nope@t>, ")))
        .unwrap();
    assert_eq!(out, "No messages found for thread_root_id=<nope@t> (with optional date filter).");
}

fn seed_grep() -> EmailIndex {
    index(vec![
        row(" <a@t>", "client hang fix", "2026-07-16T10:00:00+00:00", None, "[]"),
        row(" <b@t>", "Re: client hang fix", "2026-07-17T10:00:00+00:00", Some(" <a@t>"), r#"[" <a@t>"]"#),
        row(" <c@t>", "Other", "2026-07-18T10:00:00+00:00", None, "[]"),
    ])
}

fn body_of(m: &EmailMeta) -> &'static str {
    match m.message_id.as_str() {
        "<a@t>" => "unique_token_alpha appears here\n",
        "<b@t>" => "reply without the marker\n",
        _ => "unique_token_alpha in other thread\n",
    }
}

fn grep(ix: &EmailIndex, focus: Option<&str>, args: GrepEmailsArgs) -> Result<String, String> {
    let focus = focus.map(|s| s.to_string());
    let mut run = grep_emails_start(ix, &focus, week_window(week()), &args)?;
    let cands: Vec<usize> = run.candidates().to_vec();
    for i in cands {
        if !run.next_body() {
            break;
        }
        let m = &ix.emails()[i];
        run.scan(m, LORE, body_of(m));
    }
    Ok(run.finish())
}

fn grep_args(pattern: &str, root: Option<&str>) -> GrepEmailsArgs {
    GrepEmailsArgs {
        pattern: pattern.into(),
        thread_root_id: root.map(|s| s.to_string()),
        date_from: None,
        date_to: None,
        max_matches: None,
    }
}

#[test]
fn grep_focus_scopes_and_defaults_week() {
    let ix = seed_grep();
    let out = grep(&ix, Some("<a@t>"), grep_args("unique_token_alpha", None)).unwrap();
    assert!(out.contains("message_id=<a@t>"));
    assert!(!out.contains("message_id=<c@t>"), "cross-thread should not match under focus");
    assert!(out.contains("focused=true"));
    assert!(out.contains("Using focus_thread_root=<a@t>"));
}

#[test]
fn grep_cross_thread_finds_both() {
    let ix = seed_grep();
    let mut args = grep_args("unique_token_alpha", None);
    args.date_from = WeekDate::from_ymd(2026, 7, 14);
    args.date_to = WeekDate::from_ymd(2026, 7, 20);
    args.max_matches = Some(50);
    let out = grep(&ix, None, args).unwrap();
    assert!(out.contains("message_id=<a@t>"));
    assert!(out.contains("message_id=<c@t>"));
    assert!(out.contains("lore=https://lore.kernel.org/"));
}

#[test]
fn grep_subject_match() {
    let ix = seed_grep();
    let out = grep(&ix, None, grep_args("client hang", Some("<a@t>"))).unwrap();
    assert!(out.contains("[subject]"));
    assert!(out.contains("client hang fix"));
}

#[test]
fn grep_invalid_regex_errors() {
    let ix = seed_grep();
    let err = grep(&ix, None, grep_args("(", None)).unwrap_err();
    assert!(err.contains("invalid regex"));
    assert_eq!(grep(&ix, None, grep_args("", None)).unwrap_err(), "pattern is required");
}

#[test]
fn grep_stops_at_match_cap() {
    let ix = seed_grep();
    let mut args = grep_args("unique_token_alpha", None);
    args.max_matches = Some(1);
    let out = grep(&ix, None, args).unwrap();
    assert!(out.contains("truncated=max_matches"), "{out}");
    assert!(out.contains("match_lines=1"), "{out}");
}

#[test]
fn normalize_strips_re_and_patch() {
    assert_eq!(normalize_subject("Re: [PATCH v2] nfs: fix client hang"), "nfs: fix client hang");
    assert_eq!(normalize_subject("FWD: Hello"), "hello");
}

#[test]
fn subject_tokens_are_distinct_and_skip_stopwords() {
    let mut t = subject_tokens("Re: client hang on the mount, client HANG");
    t.sort();
    assert_eq!(t, vec!["client", "hang", "mount"]);
}

fn related_args(subject: &str, limit: usize) -> SearchRelatedThreadsArgs {
    SearchRelatedThreadsArgs { subject: subject.into(), limit: Some(limit) }
}

#[test]
fn related_scores_overlap() {
    let ix = index(vec![
        row(" <t1@x>", "[PATCH] client hang on mount", "2026-07-15T00:00:00+00:00", None, "[]"),
        row(" <t2@x>", "Re: client hang on mount more", "2026-07-16T00:00:00+00:00", None, "[]"),
        row(" <t3@x>", "unrelated bakeathon reminder", "2026-07-17T00:00:00+00:00", None, "[]"),
    ]);
    let out = search_related_threads(&ix, &None, &related_args("Re: client hang", 5)).unwrap();
    assert!(out.contains("root_id=<t1@x>") || out.contains("root_id=<t2@x>"));
    if let (Some(p_hang), Some(p_unrel)) = (out.find("t1@x").or(out.find("t2@x")), out.find("t3@x")) {
        assert!(p_hang < p_unrel, "related should rank above unrelated: {out}");
    }
}

#[test]
fn allowed_roots_scopes_search() {
    let ix = index(vec![
        row(" <a@x>", "client hang alpha", "2026-07-15T00:00:00+00:00", None, "[]"),
        row(" <b@x>", "client hang beta", "2026-07-16T00:00:00+00:00", None, "[]"),
    ]);
    let allowed = Some(normalize_root_set(&[" <a@x>, ".to_string()]));
    let out = search_related_threads(&ix, &allowed, &related_args("client hang", 10)).unwrap();
    assert!(out.contains("<a@x>"));
    assert!(!out.contains("<b@x>"));
}

#[test]
fn select_active_respects_half_open_window() {
    let (start, end) = week_window(week());
    assert_eq!(start, 1783987200);
    assert_eq!(end, 1784592000);
    let ix = index(vec![
        row(" <before@t>", "Before", "2026-07-13T23:59:59+00:00", None, "[]"),
        row(" <first@t>", "First", "2026-07-14T00:00:00+00:00", None, "[]"),
        row(" <reply@t>", "Re: Before", "2026-07-20T23:59:59+00:00", Some(" <before@t>"), r#"[" <before@t>"]"#),
        row(" <after@t>", "After", "2026-07-21T00:00:00+00:00", None, "[]"),
    ]);
    let active = select_active_threads(&ix, week());
    let mut roots: Vec<&str> = active.iter().map(|t| t.root_id.as_str()).collect();
    roots.sort();
    assert_eq!(roots, vec!["<before@t>", "<first@t>"]);
    let in_window: Vec<&str> = in_window_messages(&ix, week()).iter().map(|m| m.message_id.as_str()).collect();
    assert_eq!(in_window.len(), 2);
    assert!(in_window.contains(&"<first@t>") && in_window.contains(&"<reply@t>"));
}

#[test]
fn thread_steps_and_tally() {
    let ix = seed_thread();
    let active = select_active_threads(&ix, week());
    assert_eq!(active.len(), 1);
    assert_eq!(active[0].message_indices.len(), 2);
    assert_eq!(thread_step(&active, "<root@t>", false), ThreadStep::Run(0));
    assert_eq!(thread_step(&active, "<root@t>", true), ThreadStep::AlreadyWritten);
    assert_eq!(thread_step(&active, "<gone@t>", false), ThreadStep::Missing);

    let mut tally = WeekRunTally::new();
    tally.record_done(false);
    assert!(tally.finish(true).is_ok());
    assert!(tally.finish(false).is_err());
    tally.record_failure("<x@y>".into(), SessionFailReason::Timeout);
    let err = tally.finish(true).unwrap_err();
    assert!(err.starts_with("thread agents incomplete: failed=1"), "{err}");
    assert!(err.contains("<x@y> (timeout)"), "{err}");
}

#[test]
fn outputs_path_is_required() {
    assert_eq!(require_outputs_path(&None).unwrap_err(), "config.outputs_path is required");
    assert_eq!(require_outputs_path(&Some("/out".into())).unwrap(), "/out");
}
