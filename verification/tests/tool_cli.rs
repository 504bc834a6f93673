use lore_weekly::agent::prior::{earlier_week_dir, newest_prior_summaries, prior_summary_rel};
use lore_weekly::agent::order::{
    check_saved_order, submitted_order_notes, SavedOrder, ThreadOrderFile,
};
use lore_weekly::ids::file_stem_for_id;
use lore_weekly::tool_cli::{
    resolve_week_ending, tool_outputs_dir, CtxKind, GetEmailCli, GlobOutputsCli, SubmitWeekOverviewCli,
    ToolCommand,
};
use lore_weekly::tools::submit::{submit_week_overview, SubmitSlot, SubmitWeekOverview, WeekOverviewPayload};
use lore_weekly::week::WeekDate;

fn d(y: i32, m: u32, day: u32) -> WeekDate {
    WeekDate::from_ymd(y, m, day).unwrap()
}

#[test]
fn tool_kinds() {
    let get = ToolCommand::GetEmail(GetEmailCli { message_id: "<x@y>".into() });
    assert_eq!(get.ctx_kind(), Some(CtxKind::Mail));
    let glob = ToolCommand::GlobOutputs(GlobOutputsCli { pattern: "*/thread/*.md".into() });
    assert_eq!(glob.ctx_kind(), Some(CtxKind::Outputs));
    let submit = ToolCommand::SubmitWeekOverview(SubmitWeekOverviewCli {
        headline: "h".into(),
        markdown_body: "b".into(),
    });
    assert_eq!(submit.ctx_kind(), None);
}

#[test]
fn week_ending_falls_back() {
    let today = d(2026, 8, 1);
    assert_eq!(resolve_week_ending(Some(d(2026, 7, 20)), Some(d(2026, 7, 13)), today), d(2026, 7, 20));
    assert_eq!(resolve_week_ending(None, Some(d(2026, 7, 13)), today), d(2026, 7, 13));
    assert_eq!(resolve_week_ending(None, None, today), today);
}

#[test]
fn tool_dirs() {
    let o = Some("/o".to_string());
    let c = Some("/c".to_string());
    let blank = Some(String::new());
    assert_eq!(tool_outputs_dir(CtxKind::Outputs, &o, &c).unwrap(), "/o");
    assert_eq!(tool_outputs_dir(CtxKind::Outputs, &None, &c).unwrap(), "/c");
    assert_eq!(
        tool_outputs_dir(CtxKind::Outputs, &None, &None).unwrap_err(),
        "output tools need --outputs or config.outputs_path: config.outputs_path is required"
    );
    assert!(tool_outputs_dir(CtxKind::Outputs, &None, &blank).unwrap_err().ends_with("is empty"));
    assert_eq!(tool_outputs_dir(CtxKind::Mail, &None, &blank).unwrap(), ".");
    assert_eq!(tool_outputs_dir(CtxKind::Mail, &None, &c).unwrap(), "/c");
}

#[test]
fn week_overview_submit_rules() {
    let mut slot: SubmitSlot<WeekOverviewPayload> = SubmitSlot::new();
    let blank_head = SubmitWeekOverview { headline: " ".into(), markdown_body: "b".into() };
    assert_eq!(submit_week_overview(&mut slot, blank_head), "ERROR: headline must be non-empty");
    let blank_body = SubmitWeekOverview { headline: "H".into(), markdown_body: "\n".into() };
    assert_eq!(submit_week_overview(&mut slot, blank_body), "ERROR: markdown_body must be non-empty");
    let ok = SubmitWeekOverview { headline: "H".into(), markdown_body: "B".into() };
    assert_eq!(submit_week_overview(&mut slot, ok), "submitted");
    let again = SubmitWeekOverview { headline: "H2".into(), markdown_body: "B2".into() };
    assert_eq!(submit_week_overview(&mut slot, again), "ERROR: already submitted");
    assert_eq!(slot.take().unwrap().headline, "H");
}

fn file(ids: &[&str], notes: Option<&str>) -> ThreadOrderFile {
    ThreadOrderFile {
        week_ending: "2026-07-20".into(),
        ordered_root_ids: ids.iter().map(|s| s.to_string()).collect(),
        notes: notes.map(|s| s.to_string()),
    }
}

#[test]
fn saved_order_reuse_repair_or_ignore() {
    let exp: Vec<String> = vec!["<a>".into(), "<b>".into()];
    match check_saved_order(&file(&["<b>", "<a>"], None), &exp) {
        SavedOrder::Reuse(o) => assert_eq!(o, vec!["<b>", "<a>"]),
        _ => panic!("expected reuse"),
    }
    match check_saved_order(&file(&["<b>", "<x>"], Some("why")), &exp) {
        SavedOrder::Repaired { order, notes } => {
            assert_eq!(order, vec!["<b>", "<a>"]);
            assert_eq!(notes, "why [host-repaired order]");
        }
        _ => panic!("expected repair"),
    }
    match check_saved_order(&file(&["<b>"], Some("x [host-repaired order]")), &exp) {
        SavedOrder::Repaired { notes, .. } => assert_eq!(notes, "x [host-repaired order]"),
        _ => panic!("expected repair"),
    }
    assert!(matches!(check_saved_order(&file(&["<a>"], None), &[]), SavedOrder::Unusable));
}

#[test]
fn submitted_notes() {
    assert_eq!(submitted_order_notes(Some("n".into()), true).as_deref(), Some("n [host-repaired order]"));
    assert_eq!(submitted_order_notes(None, true).as_deref(), Some("host-repaired order"));
    assert_eq!(submitted_order_notes(Some("n".into()), false).as_deref(), Some("n"));
    assert_eq!(submitted_order_notes(None, false), None);
}

#[test]
fn prior_summaries_newest_first() {
    let week = d(2026, 7, 20);
    assert_eq!(earlier_week_dir("2026-07-13", week), Some(d(2026, 7, 13)));
    assert_eq!(earlier_week_dir("2026-07-20", week), None);
    assert_eq!(earlier_week_dir("notes", week), None);
    let root = " <abc@def.com>";
    assert_eq!(
        prior_summary_rel("2026-07-13", root),
        format!("2026-07-13/thread/{}.md", file_stem_for_id(root))
    );
    let found = vec![
        (d(2026, 6, 29), "a".to_string()),
        (d(2026, 7, 13), "c".to_string()),
        (d(2026, 7, 6), "b".to_string()),
    ];
    assert_eq!(newest_prior_summaries(&found, 2), vec!["c", "b"]);
    assert_eq!(newest_prior_summaries(&found, 10), vec!["c", "b", "a"]);
    assert!(newest_prior_summaries(&found, 0).is_empty());
}

#[test]
fn resolve_week_explicit_wins() {
    let w = d(2026, 1, 1);
    assert_eq!(resolve_week_ending(Some(w), None, d(2026, 3, 1)), w);
}
