use lore_weekly::week::{
    assert_week_ended, assert_week_ended_at, in_week_window, parse_week_date, resolve_week, sort_dedup_dates,
    week_dir_date, week_window, ResolveWeekError, ResolveWeekOutcome, WeekDate,
};

fn d(y: i32, m: u32, day: u32) -> WeekDate {
    WeekDate::from_ymd(y, m, day).unwrap()
}

/// Unix seconds of 2026-07-14 00:00:00 UTC.
const JUL_14: i64 = 1783987200;
/// Unix seconds of 2026-07-21 00:00:00 UTC.
const JUL_21: i64 = 1784592000;

#[test]
fn week_window_half_open_for_2026_07_20() {
    let (start, end_excl) = week_window(d(2026, 7, 20));
    assert_eq!(start, JUL_14);
    assert_eq!(end_excl, JUL_21);
}

#[test]
fn week_window_boundaries() {
    let w = d(2026, 7, 20);
    let at_start = JUL_14;
    let late_on_w = JUL_21 - 1;
    let at_end_excl = JUL_21;
    let before = JUL_14 - 1;
    assert!(in_week_window(w, at_start));
    assert!(in_week_window(w, late_on_w));
    assert!(!in_week_window(w, at_end_excl));
    assert!(!in_week_window(w, before));
}

#[test]
fn assert_week_ended_at_rules() {
    let w = d(2026, 7, 20);
    assert!(assert_week_ended_at(w, d(2026, 7, 20)).is_err());
    assert!(assert_week_ended_at(w, d(2026, 7, 19)).is_err());
    assert!(assert_week_ended_at(w, d(2026, 7, 21)).is_ok());
    assert_eq!(
        assert_week_ended_at(w, d(2026, 7, 19)).unwrap_err(),
        "week ending 2026-07-20 has not ended yet (UTC today is 2026-07-19); cannot summarize"
    );
}

#[test]
fn resolve_empty_requires_start_week() {
    let err = resolve_week(None, None, vec![], vec![]).unwrap_err();
    assert!(err.to_string().contains("--start-week"));
}

#[test]
fn resolve_bootstrap_start_week() {
    let (out, _) = resolve_week(None, Some(d(2026, 7, 20)), vec![], vec![]).unwrap();
    assert_eq!(out, ResolveWeekOutcome::Process(d(2026, 7, 20)));
}

#[test]
fn resolve_plus_seven_after_complete() {
    let (out, _) = resolve_week(None, None, vec![d(2026, 7, 13)], vec![]).unwrap();
    assert_eq!(out, ResolveWeekOutcome::Process(d(2026, 7, 20)));
}

#[test]
fn resolve_start_week_conflicts_with_chain() {
    let err = resolve_week(None, Some(d(2026, 1, 1)), vec![d(2026, 7, 13)], vec![]).unwrap_err();
    assert!(err.to_string().contains("bootstrap-only"));
    assert!(matches!(err, ResolveWeekError::StartWeekConflict { .. }));
}

#[test]
fn resolve_start_week_matching_next_ok() {
    let (out, _) = resolve_week(None, Some(d(2026, 7, 20)), vec![d(2026, 7, 13)], vec![]).unwrap();
    assert_eq!(out, ResolveWeekOutcome::Process(d(2026, 7, 20)));
}

#[test]
fn resolve_single_incomplete_resumes_ignores_start() {
    let (out, warnings) =
        resolve_week(None, Some(d(2026, 1, 1)), vec![d(2026, 7, 6)], vec![d(2026, 7, 13)])
            .unwrap();
    assert_eq!(out, ResolveWeekOutcome::Process(d(2026, 7, 13)));
    assert!(warnings.iter().any(|w| w.contains("ignoring --start-week")));
}

#[test]
fn resolve_multiple_incomplete_errors() {
    let err = resolve_week(None, None, vec![], vec![d(2026, 7, 6), d(2026, 7, 13)]).unwrap_err();
    assert!(err.to_string().contains("multiple incomplete"));
    assert!(err.to_string().contains("[2026-07-06, 2026-07-13]"));
}

#[test]
fn resolve_week_flag_already_complete() {
    let (out, _) = resolve_week(Some(d(2026, 7, 13)), None, vec![d(2026, 7, 13)], vec![]).unwrap();
    assert_eq!(out, ResolveWeekOutcome::AlreadyComplete(d(2026, 7, 13)));
}

#[test]
fn resolve_week_flag_incomplete() {
    let (out, warnings) = resolve_week(
        Some(d(2026, 7, 20)),
        Some(d(2026, 1, 1)),
        vec![d(2026, 7, 13)],
        vec![d(2026, 7, 20)],
    )
    .unwrap();
    assert_eq!(out, ResolveWeekOutcome::Process(d(2026, 7, 20)));
    assert!(warnings.iter().any(|w| w.contains("--week takes precedence")));
}

#[test]
fn resolve_week_flag_missing_dir() {
    let (out, _) = resolve_week(Some(d(2026, 8, 3)), None, vec![d(2026, 7, 27)], vec![]).unwrap();
    assert_eq!(out, ResolveWeekOutcome::Process(d(2026, 8, 3)));
}

#[test]
fn resolve_next_after_latest_of_unsorted_complete() {
    let (out, _) =
        resolve_week(None, None, vec![d(2026, 7, 13), d(2026, 6, 29), d(2026, 7, 13)], vec![])
            .unwrap();
    assert_eq!(out, ResolveWeekOutcome::Process(d(2026, 7, 20)));
}

#[test]
fn week_dates_parse_and_print() {
    assert_eq!(parse_week_date("2026-07-20"), Ok(d(2026, 7, 20)));
    assert_eq!(
        parse_week_date("2026-02-30"),
        Err("invalid week date \"2026-02-30\", expected YYYY-MM-DD".to_string())
    );
    assert_eq!(
        parse_week_date("soon"),
        Err("invalid week date \"soon\", expected YYYY-MM-DD".to_string())
    );
    assert_eq!(d(2026, 7, 20).to_string(), "2026-07-20");
    assert_eq!(d(2026, 7, 20).days() - d(2026, 7, 13).days(), 7);
    assert!(WeekDate::from_ymd(2026, 13, 1).is_none());
}

#[test]
fn week_dir_names() {
    assert_eq!(week_dir_date("2026-07-13"), Some(d(2026, 7, 13)));
    assert_eq!(week_dir_date("not-a-date"), None);
    assert_eq!(week_dir_date(".summarize-week.lock"), None);
    assert_eq!(week_dir_date("2026-7-13"), None);
}

#[test]
fn sort_dedup_dates_orders_and_dedups() {
    let v = vec![d(2026, 7, 13), d(2026, 7, 6), d(2026, 7, 13)];
    assert_eq!(sort_dedup_dates(&v), vec![d(2026, 7, 6), d(2026, 7, 13)]);
}

#[test]
fn week_end_check_against_the_clock() {
    assert_eq!(assert_week_ended(d(2000, 1, 2)), Ok(()));
    let e = assert_week_ended(d(9999, 12, 26)).unwrap_err();
    assert!(e.starts_with("week ending 9999-12-26 has not ended yet (UTC today is "), "{e}");
    assert!(e.ends_with("); cannot summarize"), "{e}");
}
