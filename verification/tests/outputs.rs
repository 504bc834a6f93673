use lore_weekly::ids::file_stem_for_id;
use lore_weekly::outputs::{
    catalog_weeks, complete_marker_path, format_empty_week_index, format_message_list_lore,
    format_root_index, headline_of_index, join_path, prior_thread_glob_pattern, root_entries,
    root_index_path, summarize_lock_path, thread_markdown_path, thread_order_path, week_index_path,
    yaml_double_quoted, RootIndexEntry,
};
use lore_weekly::week::WeekDate;

fn d(y: i32, m: u32, day: u32) -> WeekDate {
    WeekDate::from_ymd(y, m, day).unwrap()
}

#[test]
fn paths_match_design_layout() {
    let root = "/tmp/out";
    let w = d(2026, 7, 20);
    assert_eq!(root_index_path(root), "/tmp/out/index.md");
    assert_eq!(week_index_path(root, w), "/tmp/out/2026-07-20/index.md");
    assert_eq!(complete_marker_path(root, w), "/tmp/out/2026-07-20/.complete");
    assert_eq!(thread_order_path(root, w), "/tmp/out/2026-07-20/.thread-order.json");
    assert_eq!(summarize_lock_path(root), "/tmp/out/.summarize-week.lock");
    let msg = " <abc@def.com>";
    assert_eq!(
        thread_markdown_path(root, w, msg),
        format!("/tmp/out/2026-07-20/thread/{}.md", file_stem_for_id(msg))
    );
    assert_eq!(prior_thread_glob_pattern(msg), format!("*/thread/{}.md", file_stem_for_id(msg)));
}

#[test]
fn join_path_inserts_one_separator() {
    assert_eq!(join_path("/tmp/out/", "index.md"), "/tmp/out/index.md");
    assert_eq!(join_path("/tmp/out", "index.md"), "/tmp/out/index.md");
    assert_eq!(join_path("", "index.md"), "index.md");
}

#[test]
fn root_index_uses_configured_title() {
    let md = format_root_index(&[], "linux-fsdevel Weekly Summaries");
    assert!(md.starts_with("# linux-fsdevel Weekly Summaries\n"));
    assert!(!md.contains("## "));
}

#[test]
fn regenerate_root_index_uses_complete_weeks_only() {
    let jul = d(2026, 7, 20);
    let aug = d(2026, 8, 3);
    // Only complete weeks reach the catalog; the open week 2026-08-10 is not listed.
    let weeks = catalog_weeks(&[jul, aug], None);
    assert_eq!(weeks, vec![aug, jul]);
    let read: Vec<Option<String>> = weeks
        .iter()
        .map(|w| {
            let h = if *w == aug { "August open" } else { "Mid July" };
            headline_of_index(&format!("---\nheadline: \"{h}\"\n---\n"))
        })
        .collect();
    let entries = root_entries(&weeks, None, &read);
    assert_eq!(entries.len(), 2);
    assert_eq!(entries[0].week, aug);
    assert_eq!(entries[1].week, jul);
    let md = format_root_index(&entries, "Weekly Summaries");
    assert!(md.contains("## August 2026"));
    assert!(md.contains("## July 2026"));
    assert!(md.contains("August open"));
    assert!(md.contains("Mid July"));
    assert!(!md.contains("2026-08-10"));
    assert!(!md.contains("WIP"));
}

#[test]
fn catalog_adds_current_week_once() {
    let a = d(2026, 7, 13);
    let b = d(2026, 7, 20);
    assert_eq!(catalog_weeks(&[a], Some(b)), vec![b, a]);
    assert_eq!(catalog_weeks(&[a, b], Some(b)), vec![b, a]);
}

#[test]
fn root_entries_prefer_override_then_read_then_placeholder() {
    let a = d(2026, 7, 13);
    let b = d(2026, 7, 20);
    let read = vec![Some("old".to_string()), None];
    let e = root_entries(&[b, a], Some((b, "new")), &read);
    assert_eq!(e[0].headline, "new");
    assert_eq!(e[1].headline, "…");
    let e = root_entries(&[a, b], None, &read);
    assert_eq!(e[0].headline, "old");
}

#[test]
fn headline_read_from_front_matter() {
    assert_eq!(
        headline_of_index("---\nweek_ending: \"2026-07-20\"\nheadline: \"Quiet \\\"week\\\"\"\n---\n# x\n")
            .as_deref(),
        Some("Quiet \"week\"")
    );
    assert_eq!(headline_of_index("# no front matter\n"), None);
}

#[test]
fn root_index_inserts_month_dividers() {
    let md = format_root_index(
        &[
            RootIndexEntry { week: d(2026, 8, 3), headline: "August open".into() },
            RootIndexEntry { week: d(2026, 7, 27), headline: "Late July".into() },
            RootIndexEntry { week: d(2026, 7, 20), headline: "Mid July".into() },
            RootIndexEntry { week: d(2025, 12, 29), headline: "Year wrap".into() },
        ],
        "Weekly Summaries",
    );
    assert_eq!(
        md,
        "# Weekly Summaries\n\
         \n\
         ## August 2026\n\
         \n\
         - [Week ending 2026-08-03](2026-08-03/index.md) — August open\n\
         \n\
         ## July 2026\n\
         \n\
         - [Week ending 2026-07-27](2026-07-27/index.md) — Late July\n\
         - [Week ending 2026-07-20](2026-07-20/index.md) — Mid July\n\
         \n\
         ## December 2025\n\
         \n\
         - [Week ending 2025-12-29](2025-12-29/index.md) — Year wrap\n"
    );
}

#[test]
fn empty_week_index_shape() {
    let s = format_empty_week_index(d(2026, 7, 20));
    assert!(s.contains("empty: true"));
    assert!(s.contains("No mailing list activity"));
    assert!(s.contains("2026-07-14"));
    assert!(s.contains("2026-07-21"));
}

#[test]
fn message_list_uses_lore_urls() {
    let md = format_message_list_lore(
        "https://lore.kernel.org/list/",
        &[(
            "2026-07-18".into(),
            "Alice".into(),
            "Hello".into(),
            " <20260720-tcp-read-sock-v2-6-29545d034f3c@kernel.org>".into(),
        )],
    );
    assert!(md.contains(
        "https://lore.kernel.org/list/20260720-tcp-read-sock-v2-6-29545d034f3c@kernel.org/"
    ));
    assert!(!md.contains("messages/"));
    assert_eq!(
        md,
        "## Messages this week\n\n- [2026-07-18 Alice — Hello](https://lore.kernel.org/list/20260720-tcp-read-sock-v2-6-29545d034f3c@kernel.org/)\n"
    );
}

#[test]
fn yaml_quoting_escapes() {
    assert_eq!(yaml_double_quoted("a\"b\\c"), "\"a\\\"b\\\\c\"");
}
