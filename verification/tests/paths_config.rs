use lore_weekly::tools::related::{normalize_lowered_subject, normalize_subject};
use lore_weekly::config::{default_base_url, default_lore_base_url, Config, ListConfig, OpenAIConfig};
use lore_weekly::content_cleaner::clean_email_body;
use lore_weekly::rel_path::path_starts_with;
use lore_weekly::tools::paths::{
    output_rel_path, path_glob_match, relative_display, segment_match, OutputPathError,
};

#[test]
fn glob_segment_star() {
    assert!(path_glob_match("*/thread/foo.md", "2026-07-20/thread/foo.md"));
    assert!(!path_glob_match("*/thread/foo.md", "2026-07-20/messages/foo.md"));
    assert!(path_glob_match("**/*.md", "a/b/c.md"));
    assert!(path_glob_match("2026-07-20/**", "2026-07-20/thread/x.md"));
}

#[test]
fn glob_edges() {
    assert!(path_glob_match("./*.md", "index.md"));
    assert!(!path_glob_match("*.md", "a/index.md"));
    assert!(path_glob_match("**", "a/b"));
    assert!(segment_match(b"a*c", b"abbbc"));
    assert!(!segment_match(b"a*c", b"abbb"));
    assert!(segment_match(b"*", b""));
}

fn comps(v: Vec<Vec<char>>) -> Vec<String> {
    v.into_iter().map(|c| c.into_iter().collect()).collect()
}

#[test]
fn rejects_absolute_and_dotdot() {
    assert_eq!(output_rel_path("/etc/passwd").unwrap_err(), OutputPathError::Absolute);
    assert_eq!(output_rel_path("../secret").unwrap_err(), OutputPathError::ParentDir);
    assert_eq!(output_rel_path("a/../../x").unwrap_err(), OutputPathError::ParentDir);
    assert_eq!(output_rel_path("   ").unwrap_err(), OutputPathError::Empty);
}

#[test]
fn allows_relative_existing_and_missing() {
    assert_eq!(
        comps(output_rel_path("2026-07-20/thread/foo.md").unwrap()),
        vec!["2026-07-20", "thread", "foo.md"]
    );
    assert_eq!(
        comps(output_rel_path(" ./2026-07-20//thread/missing.md ").unwrap()),
        vec!["2026-07-20", "thread", "missing.md"]
    );
}

fn config(base_url: &str, site: Option<&str>, image: Option<&str>) -> Config {
    Config {
        openai: OpenAIConfig { api_base: "https://example".into(), model_name: "m".into(), api_key: "k".into() },
        git_repo_path: "/repo".into(),
        db_path: "db.sqlite".into(),
        base_url: base_url.into(),
        lore_base_url: default_lore_base_url(),
        outputs_path: None,
        html_outputs_path: None,
        html_site_url: site.map(|s| s.to_string()),
        html_og_image: image.map(|s| s.to_string()),
        list: ListConfig::default(),
    }
}

#[test]
fn list_section_defaults_when_omitted() {
    let c = config(&default_base_url(), None, None);
    assert_eq!(c.list.title, "Mailing List Weekly Summaries");
    assert_eq!(c.list.name, "this mailing list");
    assert!(c.list.focus.is_empty());
    assert_eq!(c.list.short_title(), "Mailing List Weekly Summaries");
    assert_eq!(c.lore_base_url, "https://lore.kernel.org/");
}

#[test]
fn list_section_overrides() {
    let list = ListConfig {
        title: "Example Mailing List Weekly Summaries".into(),
        short_title: Some("Example Weekly Summaries".into()),
        name: "the example mailing list".into(),
        focus: "Focus heavily on core development and important bug fixes.".into(),
    };
    assert_eq!(list.short_title(), "Example Weekly Summaries");
    assert!(list.thread_system_prompt().contains("the example mailing list"));
    assert!(list.week_system_prompt().contains("core development"));
    assert_eq!(
        list.thread_system_prompt(),
        "You are a technical journalist covering the example mailing list. Adopt a journalistic tone in your responses."
    );
}

#[test]
fn blank_short_title_falls_back() {
    let mut list = ListConfig::default();
    list.short_title = Some("   ".into());
    assert_eq!(list.short_title(), "Mailing List Weekly Summaries");
}

#[test]
fn html_public_url_ignores_slash_base_url() {
    let c = config("/", None, None);
    assert_eq!(c.html_public_url(), None);
    assert_eq!(c.html_og_image_url(), None);
}

#[test]
fn html_public_url_falls_back_to_absolute_base_url() {
    let c = config("https://ex/weekly/", None, None);
    assert_eq!(c.html_public_url(), Some("https://ex/weekly/"));
}

#[test]
fn html_site_url_wins_over_base_url() {
    let c = config(
        "https://ex/weekly/",
        Some("https://public.example/weekly/"),
        Some("https://public.example/og.png"),
    );
    assert_eq!(c.html_public_url(), Some("https://public.example/weekly/"));
    assert_eq!(c.html_og_image_url(), Some("https://public.example/og.png"));
}

#[test]
fn html_og_image_rejects_relative() {
    let c = config("/", None, Some("og.png"));
    assert_eq!(c.html_og_image_url(), None);
}

#[test]
fn cleaner_omits_diffs() {
    let body = "Hello\ndiff --git a/x b/x\n+added\n-- \nsig";
    assert_eq!(clean_email_body(body), "Hello\n[... Patch diff omitted for brevity ...]\n-- \nsig");
}

#[test]
fn cleaner_trims_long_quotes() {
    let mut lines: Vec<String> = (0..12).map(|i| format!("> q{i}")).collect();
    lines.push("reply".into());
    let body = lines.join("\n");
    assert_eq!(
        clean_email_body(&body),
        "> q0\n> q1\n[... Trimmed large quote block ...]\n> q11\nreply"
    );
}

#[test]
fn cleaner_keeps_short_quotes() {
    assert_eq!(clean_email_body("> a\n> b\nok\n"), "> a\n> b\nok");
}

fn display_by_path(root: &str, path: &str, shown: &str) -> String {
    std::path::Path::new(path)
        .strip_prefix(std::path::Path::new(root))
        .map(|p| p.to_string_lossy().replace('\\', "/"))
        .unwrap_or_else(|_| shown.to_string())
}

#[test]
fn relative_display_strips_the_root() {
    assert_eq!(
        relative_display("/out", "/out/2026-01-04/thread/x.md", "/raw"),
        "2026-01-04/thread/x.md"
    );
    assert_eq!(relative_display("/out", "/out", "/raw"), "");
    assert_eq!(relative_display("/out", "/out/a//b/", "/raw"), "a//b");
    assert_eq!(relative_display("/out", "/out/a\\b", "/raw"), "a/b");
    assert_eq!(relative_display("", "/a/b", "/raw"), "/a/b");
}

#[test]
fn relative_display_outside_root_shows_the_given_path() {
    assert_eq!(relative_display("/out", "/other/x.md", "/raw/x.md"), "/raw/x.md");
    assert_eq!(relative_display("/out", "/outer/x.md", "/raw"), "/raw");
    assert_eq!(relative_display("/out", "out/x.md", "/raw"), "/raw");
}

#[test]
fn relative_display_agrees_with_path_strip_prefix() {
    let roots = ["", "/", "/out", "/out/", "out", "./out", ".", "/out/./w", "//out"];
    let paths = [
        "", "/", "/out", "/out/x", "/out//x/./y/", "out/x", "./out/x", "./x", ".",
        "/out/w/t.md", "//out/a", "/outx/y", "a/./b/.", "/out/../x",
    ];
    for r in roots {
        for p in paths {
            assert_eq!(
                relative_display(r, p, "?"),
                display_by_path(r, p, "?"),
                "root {r:?} path {p:?}"
            );
            assert_eq!(
                path_starts_with(p, r),
                std::path::Path::new(p).starts_with(r),
                "root {r:?} path {p:?}"
            );
        }
    }
}

#[test]
fn glob_star_also_matches_a_literal_star_in_the_path() {
    assert!(segment_match(b"*a", b"*ba"));
    assert!(segment_match(b"a*", b"a*"));
    assert!(segment_match(b"*", b"**"));
    assert!(!segment_match(b"*a", b"*b"));
    assert!(path_glob_match("*/thread/*a.md", "2026-07-20/thread/*ba.md"));
    assert!(!path_glob_match("*/thread/*a.md", "2026-07-20/thread/*b.md"));
}

#[test]
fn lowered_subjects_lose_reply_and_patch_noise() {
    assert_eq!(normalize_lowered_subject("re: fwd: [patch v2 1/3] nfs: fix"), "nfs: fix");
    assert_eq!(normalize_subject("Re: [PATCH] NFS: Fix"), "nfs: fix");
}
