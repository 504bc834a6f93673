use lore_weekly::agent::order::{coerce_to_permutation, sanitize_root_id, validate_permutation};
use lore_weekly::agent::session::{
    classify_messages, classify_session_error, SessionFailReason, TokenUsage, UsageStage,
    UsageTotals,
};

fn strings(v: &[&str]) -> Vec<String> {
    v.iter().map(|s| s.to_string()).collect()
}

#[test]
fn validate_permutation_unit() {
    let exp = strings(&["<a>", "<b>"]);
    assert!(validate_permutation(&["<b>".into(), "<a>".into()], &exp).is_ok());
}

#[test]
fn sanitize_strips_trailing_comma() {
    assert_eq!(
        sanitize_root_id("<20251230141838.2547848-1-cel@kernel.org>,"),
        "<20251230141838.2547848-1-cel@kernel.org>"
    );
    assert_eq!(sanitize_root_id("  <a@b>, "), "<a@b>");
}

#[test]
fn coerce_repairs_trailing_commas_and_missing() {
    let exp = strings(&["<a>", "<b>", "<c>"]);
    let catalog = strings(&["<a>", "<b>", "<c>"]);
    let (order, report) =
        coerce_to_permutation(&["<b>,".into(), "<a>".into()], &exp, &catalog).unwrap();
    assert_eq!(order, vec!["<b>", "<a>", "<c>"]);
    assert!(report.appended.contains(&"<c>".to_string()));
    assert!(!report.sanitized_from.is_empty() || order[0] == "<b>");
}

#[test]
fn coerce_drops_unknown_and_dupes() {
    let exp = strings(&["<a>", "<b>"]);
    let catalog = strings(&["<a>", "<b>"]);
    let (order, report) = coerce_to_permutation(
        &["<a>".into(), "<x>".into(), "<a>".into(), "<b>".into()],
        &exp,
        &catalog,
    )
    .unwrap();
    assert_eq!(order, vec!["<a>", "<b>"]);
    assert_eq!(report.dropped_duplicates, 1);
    assert!(report.dropped_unknown.iter().any(|u| u == "<x>"));
}

#[test]
fn strict_validate_rejects_incomplete() {
    let exp = strings(&["<a>", "<b>", "<c>"]);
    assert!(validate_permutation(&["<a>".into(), "<b>".into()], &exp).is_err());
    let ok = validate_permutation(&[" <b>".into(), "<a>".into(), "<c>".into()], &exp).unwrap();
    assert_eq!(ok, vec!["<b>", "<a>", "<c>"]);
}

#[test]
fn coerce_rejects_empty_expected() {
    assert!(coerce_to_permutation(&strings(&["<a>"]), &[], &[]).is_err());
}

#[test]
fn coerce_appends_missing_outside_catalog_sorted() {
    let exp = strings(&["<c>", "<a>", "<b>"]);
    let (order, report) = coerce_to_permutation(&strings(&["<b>"]), &exp, &[]).unwrap();
    assert_eq!(order, vec!["<b>", "<a>", "<c>"]);
    assert_eq!(report.appended, vec!["<a>", "<c>"]);
    assert!(report.structural_change());
}

#[test]
fn clean_order_is_unchanged() {
    let exp = strings(&["<a>", "<b>"]);
    let (order, report) = coerce_to_permutation(&strings(&["<b>", "<a>"]), &exp, &exp).unwrap();
    assert_eq!(order, vec!["<b>", "<a>"]);
    assert!(!report.changed());
}

fn usage(p: u32, c: u32, t: u32) -> TokenUsage {
    TokenUsage { prompt_tokens: p, completion_tokens: c, total_tokens: t, cached_prompt_tokens: None }
}

#[test]
fn usage_totals_accumulate_by_stage() {
    let mut t = UsageTotals::new();
    t.add(UsageStage::Order, usage(10, 2, 12));
    t.add(UsageStage::Thread, usage(20, 5, 25));
    t.add(UsageStage::Thread, usage(1, 1, 2));
    t.add(UsageStage::Week, usage(4, 4, 8));
    let s = t.snapshot();
    assert_eq!(s.prompt, 35);
    assert_eq!(s.completion, 12);
    assert_eq!(s.total, 47);
    assert_eq!(s.order, 12);
    assert_eq!(s.thread, 27);
    assert_eq!(s.week, 8);
    assert_eq!(s.order + s.thread + s.week, s.total);
}

#[test]
fn classify_timeout_through_context() {
    let e = anyhow::Error::msg("agent session timed out after 15m").context("thread agent for <x@y>");
    assert_eq!(classify_session_error(&e), SessionFailReason::Timeout);
}

#[test]
fn classify_no_submit_through_context() {
    let e = anyhow::Error::msg("agent ended without calling submit tool")
        .context("thread agent for <x@y>");
    assert_eq!(classify_session_error(&e), SessionFailReason::NoSubmit);
}

#[test]
fn classify_agent_error() {
    let e = anyhow::Error::msg("boom")
        .context("agent run failed")
        .context("thread agent for <x@y>");
    assert_eq!(classify_session_error(&e), SessionFailReason::AgentError);
}

#[test]
fn classify_first_matching_message_wins() {
    let msgs = strings(&["outer", "agent ended without calling submit tool", "timed out"]);
    assert_eq!(classify_messages(&msgs), SessionFailReason::NoSubmit);
    assert_eq!(classify_messages(&[]), SessionFailReason::AgentError);
}

#[test]
fn fail_reason_names() {
    assert_eq!(SessionFailReason::Timeout.to_string(), "timeout");
    assert_eq!(SessionFailReason::NoSubmit.as_str(), "no submit");
    assert_eq!(UsageStage::Week.as_str(), "week");
}
