use lore_weekly::agent::order::{choose_order_source, OrderSource, SavedOrder};
use lore_weekly::agent::order::{start_thread_order, OrderStart};
use lore_weekly::agent::session::SessionFailReason;
use lore_weekly::summarize::{publishes_html, tally_week_run, ActiveThread, MaterializeResult};
use lore_weekly::week::WeekDate;

fn thread(root: &str) -> ActiveThread {
    ActiveThread { root_id: root.to_string(), subject: "s".to_string(), message_indices: vec![] }
}

fn strings(v: &[&str]) -> Vec<String> {
    v.iter().map(|s| s.to_string()).collect()
}

#[test]
fn single_thread_week_skips_the_ordering_agent() {
    match start_thread_order(&[thread("<a@b>")]) {
        OrderStart::Single { order, notes } => {
            assert_eq!(order, strings(&["<a@b>"]));
            assert_eq!(notes, "single thread; skipped LLM order");
        }
        OrderStart::AskAgent => panic!("one thread needs no agent"),
    }
    assert!(matches!(start_thread_order(&[thread("<a@b>"), thread("<c@d>")]), OrderStart::AskAgent));
}

#[test]
fn a_failed_thread_does_not_stop_the_later_ones() {
    let active = vec![thread("<a>"), thread("<b>"), thread("<c>"), thread("<d>")];
    let order = strings(&["<a>", "<b>", "<x>", "<c>", "<d>"]);
    let written = [false, false, false, true, false];
    let outcome = [
        Some(SessionFailReason::Timeout),
        None,
        None,
        Some(SessionFailReason::AgentError),
        Some(SessionFailReason::NoSubmit),
    ];
    let t = tally_week_run(&active, &order, &written, &outcome);
    assert_eq!(t.threads_ok, 2);
    assert_eq!(t.threads_skipped, 1);
    assert_eq!(
        t.failed,
        vec![
            ("<a>".to_string(), SessionFailReason::Timeout),
            ("<x>".to_string(), SessionFailReason::Missing),
            ("<d>".to_string(), SessionFailReason::NoSubmit),
        ]
    );
    assert!(t.finish(true).is_err());
}

#[test]
fn html_follows_a_published_week_only() {
    let w = WeekDate::from_ymd(2026, 7, 20).unwrap();
    assert!(publishes_html(&MaterializeResult::EmptyWeekComplete { week: w }));
    assert!(!publishes_html(&MaterializeResult::AlreadyComplete { week: w }));
    assert!(!publishes_html(&MaterializeResult::WeekPrepared { week: w, message_count: 3, thread_count: 1 }));
    let finished = |c: bool| MaterializeResult::AgentsFinished {
        week: w,
        threads_ok: 1,
        threads_failed: 0,
        failed_thread_ids: vec![],
        week_complete: c,
        headline: None,
    };
    assert!(publishes_html(&finished(true)));
    assert!(!publishes_html(&finished(false)));
}

#[test]
fn saved_order_comes_before_the_single_thread_shortcut() {
    let one = [thread("<a@b>")];
    match choose_order_source(SavedOrder::Reuse(strings(&["<a@b>"])), &one) {
        OrderSource::Saved { order, rewrite } => {
            assert_eq!(order, strings(&["<a@b>"]));
            assert!(rewrite.is_none());
        }
        _ => panic!("a usable saved order is reused"),
    }
    match choose_order_source(
        SavedOrder::Repaired { order: strings(&["<a@b>"]), notes: "n".to_string() },
        &one,
    ) {
        OrderSource::Saved { rewrite, .. } => assert_eq!(rewrite.as_deref(), Some("n")),
        _ => panic!("a repaired saved order is reused"),
    }
    assert!(matches!(choose_order_source(SavedOrder::Unusable, &one), OrderSource::Single { .. }));
    let two = [thread("<a@b>"), thread("<c@d>")];
    assert!(matches!(choose_order_source(SavedOrder::Unusable, &two), OrderSource::AskAgent));
}
