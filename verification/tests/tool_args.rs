use lore_weekly::agent::tool_build::{
    parse_date, GetEmail, GlobOutputs, GrepEmails, GrepOutputs, ListThreadMessages, ReadOutputFile,
    SearchRelatedThreads,
};
use lore_weekly::tools::dedup::RequestDeduper;
use lore_weekly::week::WeekDate;

#[test]
fn date_argument_parses_or_is_absent() {
    assert_eq!(parse_date(&None), Ok(None));
    assert_eq!(
        parse_date(&Some("2026-01-04".to_string())),
        Ok(Some(WeekDate::from_ymd(2026, 1, 4).unwrap()))
    );
}

#[test]
fn bad_date_argument_is_refused_with_its_reason() {
    assert_eq!(
        parse_date(&Some("2026-13-01".to_string())),
        Err("invalid date \"2026-13-01\": input is out of range".to_string())
    );
    assert_eq!(
        parse_date(&Some("soon".to_string())),
        Err("invalid date \"soon\": input contains invalid characters".to_string())
    );
}

#[test]
fn grep_emails_call_becomes_canonical_args() {
    let call = GrepEmails {
        pattern: "  nfsd  ".to_string(),
        thread_root_id: Some(" abc@def ".to_string()),
        date_from: Some(" 2026-01-01 ".to_string()),
        date_to: None,
        max_matches: Some(5),
    };
    let a = call.into_args().unwrap();
    assert_eq!(a.pattern, "nfsd");
    assert_eq!(a.thread_root_id.as_deref(), Some("abc@def"));
    assert_eq!(a.date_from, Some(WeekDate::from_ymd(2026, 1, 1).unwrap()));
    assert_eq!(a.date_to, None);
    assert_eq!(a.max_matches, Some(5));
}

#[test]
fn grep_emails_call_with_bad_date_is_refused() {
    let call = GrepEmails {
        pattern: "x".to_string(),
        thread_root_id: None,
        date_from: Some("2026-01-01".to_string()),
        date_to: Some("2026-02-30".to_string()),
        max_matches: None,
    };
    assert_eq!(
        call.into_args().err(),
        Some("invalid date \"2026-02-30\": input is out of range".to_string())
    );
}

#[test]
fn list_thread_messages_call_becomes_canonical_args() {
    let call = ListThreadMessages {
        thread_root_id: Some("   ".to_string()),
        date_from: None,
        date_to: Some("2026-07-20".to_string()),
    };
    let a = call.into_args().unwrap();
    assert_eq!(a.thread_root_id, None);
    assert_eq!(a.date_from, None);
    assert_eq!(a.date_to, Some(WeekDate::from_ymd(2026, 7, 20).unwrap()));
    let bad = ListThreadMessages { thread_root_id: None, date_from: Some("x".to_string()), date_to: None };
    assert!(bad.into_args().is_err());
}

#[test]
fn get_email_fingerprint_normalizes_id() {
    let mut d = RequestDeduper::new();
    let a = GetEmail { message_id: " <x@y> ".into() }.canonicalize();
    let b = GetEmail { message_id: "<x@y>".into() }.canonicalize();
    assert!(d.check_or_insert("GetEmail", &a.fingerprint()).is_ok());
    assert!(d.check_or_insert("GetEmail", &b.fingerprint()).is_err());
}

#[test]
fn list_thread_empty_id_collapses_to_none() {
    let mut d = RequestDeduper::new();
    let a = ListThreadMessages { thread_root_id: Some("  ".into()), date_from: None, date_to: None }
        .canonicalize();
    let b = ListThreadMessages { thread_root_id: None, date_from: None, date_to: None }.canonicalize();
    assert!(a.thread_root_id.is_none());
    assert!(d.check_or_insert("ListThreadMessages", &a.fingerprint()).is_ok());
    assert!(d.check_or_insert("ListThreadMessages", &b.fingerprint()).is_err());
}

#[test]
fn fingerprints_are_the_json_of_the_fields() {
    let g = GrepEmails {
        pattern: "nfsd".into(),
        thread_root_id: None,
        date_from: Some("2026-01-01".into()),
        date_to: None,
        max_matches: Some(5),
    };
    assert_eq!(
        g.fingerprint(),
        r#"{"pattern":"nfsd","thread_root_id":null,"date_from":"2026-01-01","date_to":null,"max_matches":5}"#
    );
    let o = GrepOutputs { pattern: "a".into(), glob: Some("*/x".into()), max_matches: None };
    assert_eq!(o.fingerprint(), r#"{"pattern":"a","glob":"*/x","max_matches":null}"#);
    assert_eq!(GlobOutputs { pattern: "p".into() }.fingerprint(), r#"{"pattern":"p"}"#);
    assert_eq!(ReadOutputFile { path: "i.md".into() }.fingerprint(), r#"{"path":"i.md"}"#);
    let s = SearchRelatedThreads { subject: "s".into(), limit: Some(12) };
    assert_eq!(s.fingerprint(), r#"{"subject":"s","limit":12}"#);
    let odd = "q\"b\\c\n\u{1}é";
    assert_eq!(
        GetEmail { message_id: odd.into() }.fingerprint(),
        format!("{{\"message_id\":{}}}", serde_json::to_string(odd).unwrap())
    );
}

#[test]
fn different_calls_are_not_duplicates() {
    let mut d = RequestDeduper::new();
    let a = GrepOutputs { pattern: "x".into(), glob: None, max_matches: None };
    let b = GrepOutputs { pattern: "x".into(), glob: None, max_matches: Some(3) };
    assert!(d.check_or_insert("GrepOutputs", &a.fingerprint()).is_ok());
    assert!(d.check_or_insert("GrepOutputs", &b.fingerprint()).is_ok());
    assert!(d.check_or_insert("GlobOutputs", &a.fingerprint()).is_ok());
    assert!(d.check_or_insert("GrepOutputs", &a.fingerprint()).is_err());
}

#[test]
fn fingerprint_strings_escape_as_serde_json_does() {
    let mut all = String::new();
    for u in 0u32..0x80 {
        all.push(char::from_u32(u).unwrap());
    }
    all.push_str("é€😀\u{2028}");
    assert_eq!(
        GlobOutputs { pattern: all.clone() }.fingerprint(),
        format!("{{\"pattern\":{}}}", serde_json::to_string(&all).unwrap())
    );
}
