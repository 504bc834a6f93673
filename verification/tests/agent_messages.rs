use lore_weekly::agent::messages::{
    build_order_user_message, build_thread_user_message, build_week_user_message,
    format_host_thread_toc, format_thread_summary, format_week_index, same_week_predecessors,
};
use lore_weekly::email_index::{EmailIndex, EmailRow};
use lore_weekly::summarize::ActiveThread;
use lore_weekly::week::WeekDate;

const LORE: &str = "https://lore.kernel.org/linux-nfs/";

fn row(mid: &str, subj: &str, date: &str, irt: Option<&str>, refs: &str) -> EmailRow {
    EmailRow {
        message_id: mid.into(),
        subject: subj.into(),
        from_addr: "a@b".into(),
        date: date.into(),
        in_reply_to: irt.map(|s| s.to_string()),
        references_json: refs.into(),
    }
}

fn thread_index() -> (EmailIndex, ActiveThread) {
    let ix = match EmailIndex::from_rows(vec![
        row(" <r@x>", "Fix nfsd", "2026-07-15T10:00:00+00:00", None, "[]"),
        row(" <c@x>", "Re: Fix nfsd", "2026-07-16T10:00:00+00:00", Some(" <r@x>"), r#"[" <r@x>"]"#),
    ]) {
        Ok(ix) => ix,
        Err(_) => panic!("rows should load"),
    };
    assert_eq!(ix.emails()[0].message_id, "<r@x>");
    let t = ActiveThread {
        root_id: "<r@x>".to_string(),
        subject: "Fix nfsd".to_string(),
        message_indices: vec![0, 1],
    };
    (ix, t)
}

fn july20() -> WeekDate {
    WeekDate::from_ymd(2026, 7, 20).unwrap()
}

fn strings(v: &[&str]) -> Vec<String> {
    v.iter().map(|s| s.to_string()).collect()
}

fn week() -> WeekDate {
    WeekDate::from_ymd(2026, 1, 4).unwrap()
}

#[test]
fn host_toc_uses_subject_or_falls_back_to_root() {
    let roots = strings(&["<a@b.c>", "<x@y.z>"]);
    let subjects = vec![("<a@b.c>".to_string(), "Fix the thing".to_string())];
    let toc = format_host_thread_toc(&roots, &subjects);
    assert_eq!(
        toc,
        "\n## Discussions this week\n\n\
         - [Fix the thing](thread/%3Ca%40b.c%3E.md)\n\
         - [<x@y.z>](thread/%3Cx%40y.z%3E.md)\n"
    );
}

#[test]
fn host_toc_of_no_threads_is_heading_only() {
    assert_eq!(format_host_thread_toc(&[], &[]), "\n## Discussions this week\n\n");
}

#[test]
fn week_index_layout() {
    let md = format_week_index(week(), "Big \"news\"", "  Overview text.\n\n", "TOC\n");
    assert_eq!(
        md,
        "---\nweek_ending: \"2026-01-04\"\nheadline: \"Big \\\"news\\\"\"\nempty: false\n---\n\n\
         # Big \"news\"\n\n*Week ending 2026-01-04*\n\nOverview text.\nTOC\n"
    );
}

#[test]
fn predecessors_stop_at_current_and_skip_unwritten() {
    let roots = strings(&["<a@b>", "<c@d>", "<e@f>", "<g@h>"]);
    let got = same_week_predecessors(week(), &roots, "<e@f>", &[true, false, true, true]);
    assert_eq!(got, strings(&["2026-01-04/thread/%3Ca%40b%3E.md"]));
}

#[test]
fn predecessors_are_capped_at_ten() {
    let roots: Vec<String> = (0..12).map(|i| format!("<m{i}@x>")).collect();
    let written = vec![true; 12];
    let got = same_week_predecessors(week(), &roots, "<none@x>", &written);
    assert_eq!(got.len(), 10);
    assert_eq!(got[0], "2026-01-04/thread/%3Cm0%40x%3E.md");
    assert_eq!(got[9], "2026-01-04/thread/%3Cm9%40x%3E.md");
}

#[test]
fn week_agent_message_lists_threads_in_order() {
    let roots = strings(&["<a@b>", "<c@d>"]);
    let subjects = vec![("<a@b>".to_string(), "Fix".to_string())];
    assert_eq!(
        build_week_user_message(july20(), &roots, &subjects),
        "Week ending: 2026-07-20\n\
         Window (UTC half-open): [2026-07-14T00:00:00+00:00, 2026-07-21T00:00:00+00:00)\n\
         Threads this week (2):\n\n\
         1. subject=Fix\n   root_id=<a@b>\n   path=2026-07-20/thread/%3Ca%40b%3E.md\n\
         2. subject=(unknown subject)\n   root_id=<c@d>\n   path=2026-07-20/thread/%3Cc%40d%3E.md\n\
         \nRead thread summaries as needed with ReadOutputFile using the paths above.\n\
         SubmitWeekOverview with headline (for the site index) and markdown_body overview.\n\
         Prefer relative links: thread/<stem>.md\n"
    );
}

#[test]
fn order_agent_message_has_catalog_and_required_ids() {
    let (_, t) = thread_index();
    assert_eq!(
        build_order_user_message(july20(), &[t]),
        "Week ending: 2026-07-20\nN_REQUIRED: 1\nOrder these discussions for serial summarization.\n\n\
         Catalog:\n1. root_id=<r@x> messages_this_week=2 subject=Fix nfsd\n\n\
         REQUIRED_ROOT_IDS (exactly 1; copy each line exactly into ordered_root_ids):\n<r@x>\n\n\
         Call SubmitThreadOrder once with ordered_root_ids = a permutation of REQUIRED_ROOT_IDS \
         (same count, no trailing commas).\n"
    );
}

#[test]
fn thread_agent_message_lists_messages_and_prior_work() {
    let (ix, t) = thread_index();
    let prior = strings(&["2026-07-13/thread/%3Cr%40x%3E.md"]);
    assert_eq!(
        build_thread_user_message(july20(), &t, &ix, LORE, 1, 3, &prior, &[]),
        "Week ending: 2026-07-20\n\
         Window (UTC half-open): [2026-07-14T00:00:00+00:00, 2026-07-21T00:00:00+00:00)\n\
         Thread root_id (normalized): <r@x>\nSubject: Fix nfsd\nPosition in week order: 1 of 3\n\
         Messages this week (2):\n\
         \x20 - 2026-07-15 | a@b | <r@x> | Fix nfsd\n\
         \x20 - 2026-07-16 | a@b | <c@x> | Re: Fix nfsd\n\
         Cross-week prior summaries (ReadOutputFile these):\n\
         \x20 - 2026-07-13/thread/%3Cr%40x%3E.md\n\
         Optional deeper history: GlobOutputs \"*/thread/%3Cr%40x%3E.md\"\n\
         Lore base for citations: https://lore.kernel.org/linux-nfs/\n\
         Write the weekly summary, then SubmitThreadSummary.\n"
    );
    let same = strings(&["2026-07-20/thread/%3Cq%40x%3E.md"]);
    let msg = build_thread_user_message(july20(), &t, &ix, LORE, 2, 3, &[], &same);
    assert!(!msg.contains("Cross-week prior summaries"));
    assert!(msg.contains(
        "Same-week predecessors already summarized (ReadOutputFile these):\n  - 2026-07-20/thread/%3Cq%40x%3E.md\n"
    ));
}

#[test]
fn thread_summary_file_layout() {
    let (ix, t) = thread_index();
    let prior = strings(&["p.md"]);
    assert_eq!(
        format_thread_summary(july20(), &t, &ix, LORE, "Title \"T\"", "  body text \n", &prior),
        "---\nthread_root_id: \"<r@x>\"\nweek_ending: \"2026-07-20\"\nsubject: \"Fix nfsd\"\n\
         title: \"Title \\\"T\\\"\"\nmessage_ids_this_week:\n  - \"<r@x>\"\n  - \"<c@x>\"\n\
         prior_summaries:\n  - \"p.md\"\n---\n\n# Title \"T\"\n\n## Summary\n\nbody text\n\n\
         ## Messages this week\n\n\
         - [2026-07-15 a@b — Fix nfsd](https://lore.kernel.org/linux-nfs/r@x/)\n\
         - [2026-07-16 a@b — Re: Fix nfsd](https://lore.kernel.org/linux-nfs/c@x/)\n"
    );
}
