use lore_weekly::agent::session::{
    classify_messages, session_error_text, session_start_check, SessionFailReason,
    THREAD_AGENT_TIMEOUT_SECS,
};
use lore_weekly::agent::session::{
    session_end, submit_nudge, SessionAction, SessionEnd, SessionNudges, MAX_IDLE_SUBMIT_NUDGES,
};

#[test]
fn idle_nudges_are_capped() {
    let mut n = SessionNudges::new();
    for _ in 0..MAX_IDLE_SUBMIT_NUDGES {
        assert_eq!(n.on_idle(true, false, true), SessionAction::Nudge);
    }
    assert_eq!(n.on_idle(true, false, true), SessionAction::Stop);
    assert_eq!(n.idle_nudges, MAX_IDLE_SUBMIT_NUDGES);
}

#[test]
fn idle_before_first_turn_keeps_waiting() {
    let mut n = SessionNudges::new();
    assert_eq!(n.on_idle(true, false, false), SessionAction::Continue);
    assert_eq!(n.on_idle(false, false, true), SessionAction::WaitBriefly);
    assert_eq!(n.on_idle(true, true, true), SessionAction::Stop);
    assert_eq!(n.idle_nudges, 0);
}

#[test]
fn deadline_nudge_sent_once() {
    let mut n = SessionNudges::new();
    assert_eq!(n.on_tick(false, false), SessionAction::Continue);
    assert_eq!(n.on_tick(false, true), SessionAction::Nudge);
    assert_eq!(n.on_tick(false, true), SessionAction::Continue);
    assert!(n.sent_deadline_nudge);
}

#[test]
fn failed_idle_nudge_stops() {
    assert_eq!(SessionNudges::after_nudge(true, false), SessionAction::Stop);
    assert_eq!(SessionNudges::after_nudge(false, false), SessionAction::Continue);
    assert_eq!(SessionNudges::after_nudge(true, true), SessionAction::Continue);
    assert!(SessionNudges::should_stop(true, false));
    assert!(!SessionNudges::should_stop(false, false));
}

#[test]
fn session_end_priorities() {
    assert_eq!(session_end(true, false, true), SessionEnd::TimedOut);
    assert_eq!(session_end(false, true, true), SessionEnd::Payload);
    assert_eq!(session_end(false, true, false), SessionEnd::RunFailed);
    assert_eq!(session_end(false, false, false), SessionEnd::NoSubmit);
}

#[test]
fn nudge_text_mentions_submit() {
    assert!(submit_nudge().starts_with("You have not called the submit tool yet."));
}

#[test]
fn session_errors_read_as_the_session_reports_them() {
    assert_eq!(
        session_start_check(false, false),
        Err("OpenAIClient required without inference_callback".to_string())
    );
    assert_eq!(session_start_check(true, false), Ok(()));
    assert_eq!(session_start_check(false, true), Ok(()));
    let t = session_error_text(SessionEnd::TimedOut, THREAD_AGENT_TIMEOUT_SECS).unwrap();
    assert_eq!(t, "agent session timed out after 900s");
    assert_eq!(t, format!("agent session timed out after {:?}", std::time::Duration::from_secs(900)));
    assert_eq!(classify_messages(&[t]), SessionFailReason::Timeout);
    let n = session_error_text(SessionEnd::NoSubmit, 900).unwrap();
    assert_eq!(n, "agent ended without calling submit tool");
    assert_eq!(classify_messages(&[n]), SessionFailReason::NoSubmit);
    assert_eq!(session_error_text(SessionEnd::RunFailed, 900), Some("agent run failed".to_string()));
    assert_eq!(session_error_text(SessionEnd::Payload, 900), None);
}
