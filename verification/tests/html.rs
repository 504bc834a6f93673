use lore_weekly::html::links::{encode_rel_href, rewrite_href, rewrite_page_hrefs};
use lore_weekly::html::markdown::{
    convert_markdown_document, markdown_to_html_body, page_description, page_title, prepare_events, MdEvent,
    rewrite_internal_href, strip_front_matter, FrontMatter, DESC_MAX_CHARS,
};
use lore_weekly::html::page::{
    classify_page, escape_html, path_depth, stylesheet_href, wrap_page, PageKind, PageMeta,
};
use lore_weekly::html::render::html_dir_from_config;
use lore_weekly::html::unfurl::{
    absolute_page_url, article_published_time, normalize_site_prefix, unfurl_meta_html,
};

const FALLBACK_TITLE: &str = "Mailing List Weekly Summaries";

/// Front matter and title of a markdown document, as the HTML export reads them.
fn fm_and_title(md: &str, fallback: &str) -> (FrontMatter, String) {
    let (fm, title, _) = convert_markdown_document(md, fallback);
    (fm, title)
}

fn meta() -> PageMeta {
    PageMeta {
        site_title: "Example Weekly".to_string(),
        description: "About this page".to_string(),
        site_url: None,
        og_image: None,
        week_ending: None,
    }
}

#[test]
fn rewrites_relative_md_links() {
    assert_eq!(rewrite_internal_href("thread/foo.md"), "thread/foo.html");
    assert_eq!(rewrite_internal_href("2026-07-20/index.md"), "2026-07-20/index.html");
    assert_eq!(rewrite_internal_href("../index.md#top"), "../index.html#top");
    assert_eq!(rewrite_internal_href("index.md"), "index.html");
}

#[test]
fn does_not_collapse_index_to_directory_url() {
    let href = rewrite_internal_href("2026-07-20/index.md");
    assert!(!href.ends_with('/'));
    assert!(!href.ends_with("2026-07-20"));
    assert!(href.ends_with("index.html"));
}

#[test]
fn leaves_external_and_hash_links() {
    let lore = "https://lore.kernel.org/list/abc@def/";
    assert_eq!(rewrite_internal_href(lore), lore);
    assert_eq!(rewrite_internal_href("mailto:a@b"), "mailto:a@b");
    assert_eq!(rewrite_internal_href("#section"), "#section");
}

#[test]
fn rewrite_keeps_query_and_non_md() {
    assert_eq!(rewrite_internal_href("a.md?x=1#y"), "a.html?x=1#y");
    assert_eq!(rewrite_internal_href("style.css"), "style.css");
}

#[test]
fn strips_front_matter_and_uses_headline() {
    let md = "---\nheadline: \"Quiet week\"\nempty: false\n---\n\n# Quiet week\n\nHello.\n";
    let (fm, title, html) = convert_markdown_document(md, FALLBACK_TITLE);
    assert_eq!(fm.headline.as_deref(), Some("Quiet week"));
    assert_eq!(title, "Quiet week");
    assert!(!html.contains("headline:"));
    assert!(!html.contains("---"));
    assert!(html.contains("<h1>Quiet week</h1>"));
    assert!(html.contains("<p>Hello.</p>"));
}

#[test]
fn title_prefers_title_field() {
    let md = "---\ntitle: \"Thread title\"\nheadline: \"Week headline\"\n---\n\n# Heading\n";
    let (_, title) = fm_and_title(md, FALLBACK_TITLE);
    assert_eq!(title, "Thread title");
}

#[test]
fn description_skips_headline_when_it_is_the_title() {
    let md = "---\nheadline: \"Quiet week\"\nweek_ending: \"2026-07-20\"\n---\n\n# Quiet week\n\n*Week ending 2026-07-20*\n\nTrond submitted a pull of twelve fixes.\n";
    let (fm, title) = fm_and_title(md, FALLBACK_TITLE);
    let desc = page_description(&fm, strip_front_matter(md).1, &title, FALLBACK_TITLE);
    assert_eq!(fm.week_ending.as_deref(), Some("2026-07-20"));
    assert_eq!(title, "Quiet week");
    assert_eq!(desc, "Trond submitted a pull of twelve fixes.");
    assert_ne!(desc, title);
}

#[test]
fn description_uses_subject_when_no_usable_paragraph() {
    let md = "---\nsubject: \"[GIT PULL] client bugfixes\"\n---\n\n# Client Bugfixes\n\n## Summary\n";
    let (fm, title) = fm_and_title(md, FALLBACK_TITLE);
    let desc = page_description(&fm, strip_front_matter(md).1, &title, FALLBACK_TITLE);
    assert_eq!(desc, "[GIT PULL] client bugfixes");
}

#[test]
fn description_strips_markdown_links() {
    let md = "See [the thread](https://lore.kernel.org/list/id/) on the list.\n";
    let (fm, title) = fm_and_title(md, FALLBACK_TITLE);
    let desc = page_description(&fm, md, &title, FALLBACK_TITLE);
    assert!(desc.contains("the thread"), "{desc}");
    assert!(!desc.contains("]("), "{desc}");
    assert!(!desc.contains("https://"), "{desc}");
    assert_eq!(desc, "See the thread on the list.");
}

#[test]
fn description_truncates_long_paragraph() {
    let word = "abcdefghij ";
    let long = word.repeat(30);
    let md = format!("# Title\n\n{long}\n");
    let (fm, title) = fm_and_title(&md, FALLBACK_TITLE);
    let desc = page_description(&fm, strip_front_matter(&md).1, &title, FALLBACK_TITLE);
    assert!(desc.ends_with('…'), "{desc}");
    assert!(desc.chars().count() <= DESC_MAX_CHARS + 1, "{}", desc.chars().count());
    assert!(!desc.contains("headline:"));
}

#[test]
fn description_falls_back_to_site_title() {
    let md = "# Heading only\n";
    let (fm, title) = fm_and_title(md, FALLBACK_TITLE);
    assert_eq!(title, "Heading only");
    let desc = page_description(&fm, strip_front_matter(md).1, &title, "Weekly Summaries");
    assert_eq!(desc, "Weekly Summaries");
}

#[test]
fn title_falls_back_when_nothing_given() {
    let fm = FrontMatter::empty();
    assert_eq!(page_title(&fm, "no heading here\n", ""), FALLBACK_TITLE);
    assert_eq!(page_title(&fm, "text\n", "Site"), "Site");
}

#[test]
fn stylesheet_href_by_depth() {
    assert_eq!(stylesheet_href("index.md"), "style.css");
    assert_eq!(stylesheet_href("2026-07-20/index.md"), "../style.css");
    assert_eq!(stylesheet_href("2026-07-20/thread/foo.md"), "../../style.css");
    assert_eq!(path_depth("2026-07-20/thread/foo.md"), 2);
}

#[test]
fn crumbs_use_explicit_index_html() {
    let week = wrap_page("Week", "2026-07-20/index.md", "<p>x</p>\n", &meta());
    assert!(week.contains("href=\"../index.html\""), "{week}");
    assert!(!week.contains("href=\"../\""), "{week}");
    assert!(week.contains("href=\"../style.css\""), "{week}");

    let thread = wrap_page("Thread", "2026-07-20/thread/foo.md", "<p>x</p>\n", &meta());
    assert!(thread.contains("href=\"../../index.html\""), "{thread}");
    assert!(thread.contains("href=\"../index.html\""), "{thread}");
    assert!(thread.contains("href=\"../../style.css\""), "{thread}");
    assert!(!thread.contains("href=\"/"), "{thread}");
}

#[test]
fn classifies_layout_paths() {
    assert_eq!(classify_page("index.md"), PageKind::Root);
    assert_eq!(
        classify_page("2026-07-20/index.md"),
        PageKind::Week { week: "2026-07-20".into() }
    );
    assert_eq!(
        classify_page("2026-07-20/thread/abc.md"),
        PageKind::Thread { week: "2026-07-20".into() }
    );
    assert_eq!(classify_page("notes/other.md"), PageKind::Other);
}

#[test]
fn escapes_html_specials() {
    assert_eq!(escape_html("a&b<c>\"d'"), "a&amp;b&lt;c&gt;&quot;d&#39;");
}

#[test]
fn html_dir_from_config_treats_blank_as_none() {
    assert!(html_dir_from_config(&None).is_none());
    assert!(html_dir_from_config(&Some(String::new())).is_none());
    assert!(html_dir_from_config(&Some("   ".into())).is_none());
    assert_eq!(html_dir_from_config(&Some("/tmp/site".into())), Some("/tmp/site"));
    assert_eq!(html_dir_from_config(&Some("  /tmp/site ".into())), Some("/tmp/site"));
}

#[test]
fn joins_and_encodes_thread_path() {
    let url =
        absolute_page_url("http://host/weekly/", "2026-07-20/thread/%3Cfoo%40bar.com%3E.md")
            .unwrap();
    assert_eq!(url, "http://host/weekly/2026-07-20/thread/%253Cfoo%2540bar.com%253E.html");
}

#[test]
fn joins_root_index() {
    let url = absolute_page_url("https://ex/weekly", "index.md").unwrap();
    assert_eq!(url, "https://ex/weekly/index.html");
}

#[test]
fn rejects_non_http_prefix() {
    assert!(absolute_page_url("/", "index.md").is_none());
    assert!(absolute_page_url("weekly/", "index.md").is_none());
    assert!(normalize_site_prefix("ftp://x/").is_none());
    assert_eq!(normalize_site_prefix(" https://x/a// ").as_deref(), Some("https://x/a"));
}

#[test]
fn omits_url_and_image_when_unset() {
    let html = unfurl_meta_html("Title", "Desc", "Site", "website", None, None, None);
    assert!(html.contains("property=\"og:title\""));
    assert!(html.contains("property=\"og:description\""));
    assert!(html.contains("name=\"twitter:card\" content=\"summary\""));
    assert!(!html.contains("og:url"));
    assert!(!html.contains("rel=\"canonical\""));
    assert!(!html.contains("og:image"));
    assert!(!html.contains("article:published_time"));
}

#[test]
fn emits_canonical_image_and_article_time() {
    let html = unfurl_meta_html(
        "Title",
        "Desc",
        "Site",
        "article",
        Some("https://ex/weekly/2026-07-20/index.html"),
        Some("https://ex/og.png"),
        Some("2026-07-20T00:00:00Z"),
    );
    assert!(html.contains("rel=\"canonical\" href=\"https://ex/weekly/2026-07-20/index.html\""));
    assert!(html.contains("property=\"og:url\" content=\"https://ex/weekly/2026-07-20/index.html\""));
    assert!(html.contains("property=\"og:image\" content=\"https://ex/og.png\""));
    assert!(html.contains("name=\"twitter:card\" content=\"summary_large_image\""));
    assert!(html.contains("property=\"article:published_time\" content=\"2026-07-20T00:00:00Z\""));
    assert!(html.contains("property=\"og:type\" content=\"article\""));
}

#[test]
fn escapes_quotes_in_meta() {
    let html =
        unfurl_meta_html(r#"Say "hello""#, r#"A & B <tag>"#, "Site", "website", None, None, None);
    assert!(html.contains("Say &quot;hello&quot;"));
    assert!(html.contains("A &amp; B &lt;tag&gt;"));
    assert!(!html.contains(r#"content="Say "hello""#));
}

#[test]
fn published_time_only_for_iso_date() {
    assert_eq!(article_published_time(Some("2026-07-20")).as_deref(), Some("2026-07-20T00:00:00Z"));
    assert_eq!(article_published_time(Some("soon")), None);
    assert_eq!(article_published_time(None), None);
}

#[test]
fn encode_rel_href_double_encodes_percent() {
    assert_eq!(
        encode_rel_href("2026-07-20/thread/%3Cfoo%40bar.com%3E.html"),
        "2026-07-20/thread/%253Cfoo%2540bar.com%253E.html"
    );
}

fn known(paths: &[&str]) -> Vec<String> {
    paths.iter().map(|p| p.to_string()).collect()
}

#[test]
fn encodes_percent_in_existing_filename() {
    let stem = "%3C57c6f8f6464f7ba0c0455875d4c53a0f9bf01a2c.camel%40kernel.org%3E.html";
    let file = format!("2026-01-15/thread/{stem}");
    let k = known(&["2026-01-15/index.html", &file]);
    let href = format!("thread/{stem}");
    let out = rewrite_href(&href, "2026-01-15/index.html", &k);
    assert_eq!(
        out,
        "thread/%253C57c6f8f6464f7ba0c0455875d4c53a0f9bf01a2c.camel%2540kernel.org%253E.html"
    );
    assert!(!out.contains("thread/%3C"), "{out}");
}

#[test]
fn maps_raw_message_id_href_to_encoded_file() {
    let k = known(&["2026-01-15/index.html", "2026-01-15/thread/%3Cfoo%40bar.com%3E.html"]);
    let out = rewrite_href("thread/<foo@bar.com>.html", "2026-01-15/index.html", &k);
    assert_eq!(out, "thread/%253Cfoo%2540bar.com%253E.html");
}

#[test]
fn maps_raw_md_link_to_encoded_file() {
    let k = known(&["2026-01-15/thread/%3Cfoo%40bar.com%3E.html"]);
    let out = rewrite_href("thread/<foo@bar.com>.md", "2026-01-15/index.html", &k);
    assert_eq!(out, "thread/%253Cfoo%2540bar.com%253E.html");
}

#[test]
fn leaves_external_and_plain_paths() {
    let k = known(&["index.html", "2026-01-15/index.html", "style.css"]);
    let page = "index.html";
    assert_eq!(
        rewrite_href("https://lore.kernel.org/list/x/", page, &k),
        "https://lore.kernel.org/list/x/"
    );
    assert_eq!(rewrite_href("2026-01-15/index.html", page, &k), "2026-01-15/index.html");
    assert_eq!(rewrite_href("#top", page, &k), "#top");
}

#[test]
fn preserves_hash_on_fixed_href() {
    let k = known(&["2026-01-15/thread/%3Cfoo%40bar.com%3E.html"]);
    let out = rewrite_href("thread/%3Cfoo%40bar.com%3E.html#sec", "2026-01-15/index.html", &k);
    assert_eq!(out, "thread/%253Cfoo%2540bar.com%253E.html#sec");
}

#[test]
fn rewrites_hrefs_in_page_html() {
    let k = known(&["2026-01-15/index.html", "2026-01-15/thread/%3Cfoo%40bar.com%3E.html"]);
    let html = r#"<a href="thread/%3Cfoo%40bar.com%3E.html">x</a>"#;
    let out = rewrite_page_hrefs(html, "2026-01-15/index.html", &k);
    assert!(out.contains("href=\"thread/%253Cfoo%2540bar.com%253E.html\""), "{out}");
}

#[test]
fn relative_links_climb_and_unknown_stay() {
    let k = known(&["index.html", "2026-01-15/index.html"]);
    assert_eq!(rewrite_href("../index.html", "2026-01-15/thread/x.html", &k), "../index.html");
    assert_eq!(rewrite_href("../../index.html", "2026-01-15/thread/x.html", &k), "../../index.html");
    assert_eq!(rewrite_href("../index.md", "2026-01-15/index.html", &k), "../index.html");
    assert_eq!(rewrite_href("missing.html", "index.html", &k), "missing.html");
    assert_eq!(rewrite_href("../../x.html", "index.html", &k), "../../x.html");
    assert_eq!(rewrite_href("/abs.html", "index.html", &k), "/abs.html");
    let html = "<a href=\"unterminated";
    assert_eq!(rewrite_page_hrefs(html, "index.html", &k), html);
}

#[test]
fn inline_code_becomes_code_element() {
    let html = markdown_to_html_body("Use `[start, end)` as the window.");
    assert!(html.contains("<code>[start, end)</code>"), "inline code missing: {html}");
    assert!(!html.contains("`<code>"));
}

#[test]
fn converted_body_rewrites_md_hrefs() {
    let html = markdown_to_html_body("[Week](2026-07-20/index.md)");
    assert!(html.contains("href=\"2026-07-20/index.html\""), "{html}");
    assert!(!html.contains(".md\""));
    let html = markdown_to_html_body("[x](https://lore.kernel.org/list/id/)");
    assert!(html.contains("https://lore.kernel.org/list/id/"), "{html}");
}

#[test]
fn raw_html_is_escaped() {
    let html = markdown_to_html_body("before <script>alert(1)</script> after");
    assert!(!html.contains("<script>"), "{html}");
    assert!(html.contains("&lt;script&gt;"), "{html}");
}

#[test]
fn markdown_body_renders_tables_strikethrough_and_images() {
    let html = markdown_to_html_body("| a | b |\n|---|---|\n| 1 | 2 |\n\n~~old~~ ![p](img/x.md)\n");
    assert!(html.contains("<table>"), "{html}");
    assert!(html.contains("<del>old</del>"), "{html}");
    assert!(html.contains("src=\"img/x.html\""), "{html}");
}

#[test]
fn crlf_front_matter_keeps_the_whole_body() {
    let (fm, body) = strip_front_matter("---\r\nheadline: \"H\"\r\n---\r\nBody here\r\n");
    assert_eq!(fm.headline.as_deref(), Some("H"));
    assert_eq!(body, "Body here\r\n");
    let (_, body) = strip_front_matter("---\r\na: b\r\n---\n¡Hola\n");
    assert_eq!(body, "¡Hola\n");
    let (_, body) = strip_front_matter("---\r\na: b\r\n---\r\n");
    assert_eq!(body, "");
}

#[test]
fn page_header_shows_site_title_and_head_carries_unfurl_tags() {
    let m = PageMeta {
        site_title: "Example <Weekly>".to_string(),
        description: "Twelve fixes".to_string(),
        site_url: Some("https://example.com/weekly/".to_string()),
        og_image: Some("https://example.com/og.png".to_string()),
        week_ending: Some("2026-07-20".to_string()),
    };
    let page = wrap_page("Week", "2026-07-20/index.md", "<p>x</p>\n", &m);
    assert!(page.contains("<p class=\"site-title\"><a href=\"../index.html\">Example &lt;Weekly&gt;</a></p>"), "{page}");
    assert!(!page.contains("NFS Weekly Summaries"));
    let head = &page[..page.find("</head>").unwrap()];
    assert!(head.contains("<meta property=\"og:title\" content=\"Week\">"), "{head}");
    assert!(head.contains("<meta name=\"description\" content=\"Twelve fixes\">"), "{head}");
    assert!(head.contains("<meta property=\"og:type\" content=\"article\">"), "{head}");
    assert!(head.contains("<meta property=\"og:site_name\" content=\"Example &lt;Weekly&gt;\">"), "{head}");
    assert!(head.contains("<link rel=\"canonical\" href=\"https://example.com/weekly/2026-07-20/index.html\">"), "{head}");
    assert!(head.contains("<meta property=\"og:image\" content=\"https://example.com/og.png\">"), "{head}");
    assert!(head.contains("<meta property=\"article:published_time\" content=\"2026-07-20T00:00:00Z\">"), "{head}");
    assert!(head.contains("<meta name=\"twitter:card\" content=\"summary_large_image\">"), "{head}");

    let root = wrap_page("Catalog", "index.md", "", &meta());
    assert!(root.contains("<meta property=\"og:type\" content=\"website\">"), "{root}");
    assert!(!root.contains("og:url"));
    assert!(!root.contains("article:published_time"));
    assert!(root.contains(">Example Weekly</a></p>"));
}

#[test]
fn prepared_events_point_at_html_and_escape_raw_html() {
    let ev = vec![
        MdEvent::Link("thread/a.md#x".to_string()),
        MdEvent::Image("https://x/y.md".to_string()),
        MdEvent::Html("<script>".to_string()),
        MdEvent::Text("plain".to_string()),
        MdEvent::Other,
    ];
    let p = prepare_events(ev);
    assert_eq!(p.len(), 5);
    assert!(matches!(&p[0], MdEvent::Link(d) if d == "thread/a.html#x"));
    assert!(matches!(&p[1], MdEvent::Image(d) if d == "https://x/y.md"));
    assert!(matches!(&p[2], MdEvent::Text(s) if s == "<script>"));
    assert!(matches!(&p[3], MdEvent::Text(s) if s == "plain"));
    assert!(matches!(&p[4], MdEvent::Other));
}

#[test]
fn rendered_body_keeps_link_titles_and_kinds() {
    let html = markdown_to_html_body("[a](x.md \"T\") <b>hi</b> ![i](p/q.md)\n\n<div>raw</div>\n");
    assert!(html.contains("<a href=\"x.html\" title=\"T\">a</a>"), "{html}");
    assert!(html.contains("&lt;b&gt;hi&lt;/b&gt;"), "{html}");
    assert!(html.contains("<img src=\"p/q.html\" alt=\"i\""), "{html}");
    assert!(html.contains("&lt;div&gt;raw&lt;/div&gt;"), "{html}");
}
