//! HTML5 document shell with relative CSS and breadcrumb hrefs.
use crate::rel_path::{comps, comps_of, depth, depth_of, normals, normals_of};
use crate::text::{chars_of, push_all, push_str, string_of, views};
use super::unfurl::{
    absolute_page_url, article_published_time, opt_str_view, opt_string_view, page_url, published_time,
    unfurl_html, unfurl_meta_html,
};
use vstd::prelude::*;

verus! {

broadcast use vstd::string::group_string_axioms;

/// Where a markdown page sits in the output layout.
#[derive(Debug, Clone, PartialEq, Eq)]
pub enum PageKind {
    Root,
    Week { week: String },
    Thread { week: String },
    Other,
}

/// [`PageKind`] with its week as characters.
pub enum PageKindView {
    Root,
    Week(Seq<char>),
    Thread(Seq<char>),
    Other,
}

impl View for PageKind {
    type V = PageKindView;

    open spec fn view(&self) -> PageKindView {
        match self {
            PageKind::Root => PageKindView::Root,
            PageKind::Week { week } => PageKindView::Week(week@),
            PageKind::Thread { week } => PageKindView::Thread(week@),
            PageKind::Other => PageKindView::Other,
        }
    }
}

/// `index.md` alone is the root catalog, `W/index.md` a week index and
/// `W/thread/NAME` a thread page (normal components only).
pub open spec fn page_kind(rel_md: Seq<char>) -> PageKindView {
    let ns = normals(comps(rel_md));
    if ns.len() == 1 && ns[0] == "index.md"@ {
        PageKindView::Root
    } else if ns.len() == 2 && ns[1] == "index.md"@ {
        PageKindView::Week(ns[0])
    } else if ns.len() == 3 && ns[1] == "thread"@ {
        PageKindView::Thread(ns[0])
    } else {
        PageKindView::Other
    }
}

/// `"../"` repeated `n` times.
pub open spec fn ups(n: nat) -> Seq<char>
    decreases n,
{
    if n == 0 {
        seq![]
    } else {
        ups((n - 1) as nat) + "../"@
    }
}

fn push_ups(out: &mut Vec<char>, n: usize)
    ensures
        final(out)@ == old(out)@ + ups(n as nat),
{
    let mut i: usize = 0;
    while i < n
        invariant
            i <= n,
            out@ == old(out)@ + ups(i as nat),
        decreases n - i,
    {
        push_str(out, "../");
        i = i + 1;
        proof {
            assert(ups(i as nat) == ups((i - 1) as nat) + "../"@);
        }
    }
}

/// Depth of the file's parent directory (normal components only).
pub fn path_depth(rel: &str) -> (n: usize)
    ensures
        n == depth(rel@),
{
    let v = chars_of(rel);
    depth_of(&v)
}

/// Relative stylesheet href for a page: one `../` per parent directory level.
pub open spec fn stylesheet_for(rel_md: Seq<char>) -> Seq<char> {
    ups(depth(rel_md)) + "style.css"@
}

/// Relative href to `{html_root}/style.css` from a markdown-relative path.
pub fn stylesheet_href(rel_md: &str) -> (r: String)
    ensures
        r@ == stylesheet_for(rel_md@),
{
    let d = path_depth(rel_md);
    let mut out: Vec<char> = Vec::new();
    push_ups(&mut out, d);
    push_str(&mut out, "style.css");
    string_of(&out)
}

/// Classify a markdown-relative path by layout position.
pub fn classify_page(rel_md: &str) -> (k: PageKind)
    ensures
        k@ == page_kind(rel_md@),
{
    let v = chars_of(rel_md);
    let cs = comps_of(&v);
    let ns = normals_of(&cs, cs.len());
    proof {
        assert(views(cs@).take(cs@.len() as int) =~= views(cs@));
    }
    let idx = chars_of("index.md");
    let thr = chars_of("thread");
    if ns.len() == 1 && crate::text::chars_eq(&ns[0], &idx) {
        PageKind::Root
    } else if ns.len() == 2 && crate::text::chars_eq(&ns[1], &idx) {
        PageKind::Week { week: string_of(&ns[0]) }
    } else if ns.len() == 3 && crate::text::chars_eq(&ns[1], &thr) {
        PageKind::Thread { week: string_of(&ns[0]) }
    } else {
        PageKind::Other
    }
}

// ───────────────────────── escaping ─────────────────────────

/// HTML escape of one character.
pub open spec fn esc_char(c: char) -> Seq<char> {
    if c == '&' {
        "&amp;"@
    } else if c == '<' {
        "&lt;"@
    } else if c == '>' {
        "&gt;"@
    } else if c == '"' {
        "&quot;"@
    } else if c == '\'' {
        "&#39;"@
    } else {
        seq![c]
    }
}

/// HTML escape of text (`& < > " '`).
pub open spec fn escape(s: Seq<char>) -> Seq<char>
    decreases s.len(),
{
    if s.len() == 0 {
        seq![]
    } else {
        escape(s.drop_last()) + esc_char(s.last())
    }
}

/// Append the HTML escape of `v` to `out`.
pub fn push_escaped(out: &mut Vec<char>, v: &[char])
    ensures
        final(out)@ == old(out)@ + escape(v@),
{
    let mut i: usize = 0;
    while i < v.len()
        invariant
            i <= v@.len(),
            out@ == old(out)@ + escape(v@.take(i as int)),
        decreases v@.len() - i,
    {
        let c = v[i];
        if c == '&' {
            push_str(out, "&amp;");
        } else if c == '<' {
            push_str(out, "&lt;");
        } else if c == '>' {
            push_str(out, "&gt;");
        } else if c == '"' {
            push_str(out, "&quot;");
        } else if c == '\'' {
            push_str(out, "&#39;");
        } else {
            out.push(c);
        }
        i = i + 1;
        proof {
            assert(v@.take(i as int).drop_last() =~= v@.take((i - 1) as int));
        }
    }
    assert(v@.take(v@.len() as int) =~= v@);
}

/// Escape text for HTML content or a double-quoted attribute value.
pub fn escape_html(s: &str) -> (r: String)
    ensures
        r@ == escape(s@),
{
    let v = chars_of(s);
    let mut out: Vec<char> = Vec::new();
    push_escaped(&mut out, &v);
    string_of(&out)
}

// ───────────────────────── breadcrumbs and shell ─────────────────────────

/// Breadcrumb entries: optional href and label.
pub open spec fn crumbs_for(kind: PageKindView) -> Seq<(Option<Seq<char>>, Seq<char>)> {
    match kind {
        PageKindView::Root => seq![],
        PageKindView::Week(_) => seq![(Some("../index.html"@), "Summaries"@)],
        PageKindView::Thread(week) => seq![
            (Some("../../index.html"@), "Summaries"@),
            (Some("../index.html"@), "Week ending "@ + week),
        ],
        PageKindView::Other => seq![(Some("index.html"@), "Summaries"@)],
    }
}

pub open spec fn crumb_view(c: (Option<String>, String)) -> (Option<Seq<char>>, Seq<char>) {
    (
        match c.0 {
            Some(h) => Some(h@),
            None => None,
        },
        c.1@,
    )
}

fn crumb(href: &str, label: Vec<char>) -> (c: (Option<String>, String))
    ensures
        crumb_view(c) == (Some(href@), label@),
{
    (Some(string_of(&chars_of(href))), string_of(&label))
}

/// Breadcrumb entries for a page kind.
pub fn crumb_items(kind: &PageKind) -> (r: Vec<(Option<String>, String)>)
    ensures
        r@.map_values(|c: (Option<String>, String)| crumb_view(c)) == crumbs_for(kind@),
{
    let r = match kind {
        PageKind::Root => Vec::new(),
        PageKind::Week { .. } => {
            let mut v = Vec::new();
            v.push(crumb("../index.html", chars_of("Summaries")));
            v
        },
        PageKind::Thread { week } => {
            let mut v = Vec::new();
            v.push(crumb("../../index.html", chars_of("Summaries")));
            let mut label = chars_of("Week ending ");
            push_str(&mut label, week.as_str());
            v.push(crumb("../index.html", label));
            v
        },
        PageKind::Other => {
            let mut v = Vec::new();
            v.push(crumb("index.html", chars_of("Summaries")));
            v
        },
    };
    proof {
        assert(r@.map_values(|c: (Option<String>, String)| crumb_view(c)) =~= crumbs_for(kind@));
    }
    r
}

/// One breadcrumb list item (with a separator item before all but the first).
pub open spec fn crumb_html(i: int, c: (Option<Seq<char>>, Seq<char>)) -> Seq<char> {
    let sep = if i > 0 {
        "        <li class=\"crumbs__sep\" aria-hidden=\"true\">/</li>\n"@
    } else {
        seq![]
    };
    sep + match c.0 {
        Some(h) => "        <li><a href=\""@ + escape(h) + "\">"@ + escape(c.1) + "</a></li>\n"@,
        None => "        <li>"@ + escape(c.1) + "</li>\n"@,
    }
}

pub open spec fn crumbs_html(cs: Seq<(Option<Seq<char>>, Seq<char>)>) -> Seq<char>
    decreases cs.len(),
{
    if cs.len() == 0 {
        seq![]
    } else {
        crumbs_html(cs.drop_last()) + crumb_html(cs.len() - 1, cs.last())
    }
}

/// The breadcrumb `<ol>`, empty when there are no crumbs.
pub open spec fn nav_html(cs: Seq<(Option<Seq<char>>, Seq<char>)>) -> Seq<char> {
    if cs.len() == 0 {
        seq![]
    } else {
        "      <ol class=\"crumbs\">\n"@ + crumbs_html(cs) + "      </ol>\n"@
    }
}

/// What a page shows besides its title and body: the site's header title
/// (also its `og:site_name`), the page description, and the configured
/// public prefix, card image and the page's `week_ending`.
pub struct PageMeta {
    pub site_title: String,
    pub description: String,
    pub site_url: Option<String>,
    pub og_image: Option<String>,
    pub week_ending: Option<String>,
}

/// Week and thread pages are articles; the catalog and other pages are not.
pub open spec fn is_article(rel_md: Seq<char>) -> bool {
    page_kind(rel_md) is Week || page_kind(rel_md) is Thread
}

/// The page's `og:type`.
pub open spec fn og_type_of(rel_md: Seq<char>) -> Seq<char> {
    if is_article(rel_md) {
        "article"@
    } else {
        "website"@
    }
}

/// The page's public URL, where a site prefix is configured and usable.
pub open spec fn page_url_of(rel_md: Seq<char>, site_url: Option<Seq<char>>) -> Option<Seq<char>> {
    match site_url {
        Some(u) => page_url(u, rel_md),
        None => None,
    }
}

/// The unfurl tags of a page's `<head>`: description, Open Graph and Twitter
/// Card tags, the canonical URL and `og:image` where configured, and
/// `article:published_time` for an article with a dated `week_ending`.
pub open spec fn page_head(title: Seq<char>, rel_md: Seq<char>, meta: PageMeta) -> Seq<char> {
    unfurl_html(
        title,
        meta.description@,
        meta.site_title@,
        og_type_of(rel_md),
        page_url_of(rel_md, opt_string_view(meta.site_url)),
        opt_string_view(meta.og_image),
        if is_article(rel_md) {
            published_time(opt_string_view(meta.week_ending))
        } else {
            None
        },
    )
}

/// The full HTML5 document for a page: its title, stylesheet and unfurl tags
/// in `<head>`, the site title linking home and the breadcrumbs in the
/// header, then the body.
pub open spec fn page_html(title: Seq<char>, rel_md: Seq<char>, body: Seq<char>, meta: PageMeta) -> Seq<char> {
    "<!DOCTYPE html>\n<html lang=\"en\">\n<head>\n  <meta charset=\"utf-8\">\n  <meta name=\"viewport\" content=\"width=device-width, initial-scale=1\">\n  <title>"@
        + escape(title) + "</title>\n  <link rel=\"stylesheet\" href=\""@ + stylesheet_for(rel_md)
        + "\">\n"@ + page_head(title, rel_md, meta)
        + "</head>\n<body>\n  <header class=\"site-header\">\n    <div class=\"site-header__inner\">\n      <p class=\"site-title\"><a href=\""@
        + ups(depth(rel_md)) + "index.html"@ + "\">"@ + escape(meta.site_title@) + "</a></p>\n"@
        + nav_html(crumbs_for(page_kind(rel_md)))
        + "    </div>\n  </header>\n  <main class=\"content\">\n"@ + body
        + "  </main>\n</body>\n</html>\n"@
}

fn page_head_html(title: &str, rel_md: &str, kind: &PageKind, meta: &PageMeta) -> (r: String)
    requires
        kind@ == page_kind(rel_md@),
    ensures
        r@ == page_head(title@, rel_md@, *meta),
{
    let article = match kind {
        PageKind::Week { .. } => true,
        PageKind::Thread { .. } => true,
        _ => false,
    };
    let url = match &meta.site_url {
        Some(u) => absolute_page_url(u.as_str(), rel_md),
        None => None,
    };
    let url_ref: Option<&str> = match &url {
        Some(u) => Some(u.as_str()),
        None => None,
    };
    let image_ref: Option<&str> = match &meta.og_image {
        Some(i) => Some(i.as_str()),
        None => None,
    };
    let week_ref: Option<&str> = match &meta.week_ending {
        Some(w) => Some(w.as_str()),
        None => None,
    };
    let published = if article {
        article_published_time(week_ref)
    } else {
        None
    };
    let published_ref: Option<&str> = match &published {
        Some(p) => Some(p.as_str()),
        None => None,
    };
    let og_type = if article {
        "article"
    } else {
        "website"
    };
    proof {
        assert(opt_str_view(url_ref) == page_url_of(rel_md@, opt_string_view(meta.site_url)));
        assert(opt_str_view(image_ref) == opt_string_view(meta.og_image));
        assert(opt_str_view(published_ref) == (if is_article(rel_md@) {
            published_time(opt_string_view(meta.week_ending))
        } else {
            None
        }));
        assert(og_type@ == og_type_of(rel_md@));
    }
    unfurl_meta_html(
        title,
        meta.description.as_str(),
        meta.site_title.as_str(),
        og_type,
        url_ref,
        image_ref,
        published_ref,
    )
}

fn push_crumbs(out: &mut Vec<char>, crumbs: &Vec<(Option<String>, String)>)
    ensures
        final(out)@ == old(out)@ + crumbs_html(
            crumbs@.map_values(|c: (Option<String>, String)| crumb_view(c)),
        ),
{
    let ghost cv = crumbs@.map_values(|c: (Option<String>, String)| crumb_view(c));
    let mut i: usize = 0;
    proof {
        assert(cv.take(0) =~= Seq::<(Option<Seq<char>>, Seq<char>)>::empty());
        assert(out@ =~= old(out)@ + crumbs_html(cv.take(0)));
    }
    while i < crumbs.len()
        invariant
            i <= crumbs@.len(),
            cv == crumbs@.map_values(|c: (Option<String>, String)| crumb_view(c)),
            out@ == old(out)@ + crumbs_html(cv.take(i as int)),
        decreases crumbs@.len() - i,
    {
        let ghost before = out@;
        if i > 0 {
            push_str(out, "        <li class=\"crumbs__sep\" aria-hidden=\"true\">/</li>\n");
        }
        let (href, label) = &crumbs[i];
        let lv = chars_of(label.as_str());
        match href {
            Some(h) => {
                push_str(out, "        <li><a href=\"");
                let hv = chars_of(h.as_str());
                push_escaped(out, &hv);
                push_str(out, "\">");
                push_escaped(out, &lv);
                push_str(out, "</a></li>\n");
            },
            None => {
                push_str(out, "        <li>");
                push_escaped(out, &lv);
                push_str(out, "</li>\n");
            },
        }
        proof {
            assert(cv.take((i + 1) as int).drop_last() =~= cv.take(i as int));
            assert(cv.take((i + 1) as int).last() == cv[i as int]);
            assert(out@ =~= before + crumb_html(i as int, cv[i as int]));
        }
        i = i + 1;
    }
    assert(cv.take(crumbs@.len() as int) =~= cv);
}

/// Wrap a body fragment in a full HTML5 document.
pub fn wrap_page(title: &str, rel_md: &str, body: &str, meta: &PageMeta) -> (r: String)
    ensures
        r@ == page_html(title@, rel_md@, body@, *meta),
{
    let d = path_depth(rel_md);
    let kind = classify_page(rel_md);
    let crumbs = crumb_items(&kind);
    let ghost cv = crumbs@.map_values(|c: (Option<String>, String)| crumb_view(c));
    let mut out: Vec<char> = Vec::new();
    push_str(
        &mut out,
        "<!DOCTYPE html>\n<html lang=\"en\">\n<head>\n  <meta charset=\"utf-8\">\n  <meta name=\"viewport\" content=\"width=device-width, initial-scale=1\">\n  <title>",
    );
    let tv = chars_of(title);
    push_escaped(&mut out, &tv);
    push_str(&mut out, "</title>\n  <link rel=\"stylesheet\" href=\"");
    push_ups(&mut out, d);
    push_str(&mut out, "style.css");
    push_str(&mut out, "\">\n");
    let head = page_head_html(title, rel_md, &kind, meta);
    push_str(&mut out, head.as_str());
    push_str(
        &mut out,
        "</head>\n<body>\n  <header class=\"site-header\">\n    <div class=\"site-header__inner\">\n      <p class=\"site-title\"><a href=\"",
    );
    push_ups(&mut out, d);
    push_str(&mut out, "index.html");
    push_str(&mut out, "\">");
    let sv = chars_of(meta.site_title.as_str());
    push_escaped(&mut out, &sv);
    push_str(&mut out, "</a></p>\n");
    let ghost mid = out@;
    if crumbs.len() > 0 {
        push_str(&mut out, "      <ol class=\"crumbs\">\n");
        push_crumbs(&mut out, &crumbs);
        push_str(&mut out, "      </ol>\n");
    }
    proof {
        assert(out@ =~= mid + nav_html(cv));
    }
    push_str(&mut out, "    </div>\n  </header>\n  <main class=\"content\">\n");
    push_str(&mut out, body);
    push_str(&mut out, "  </main>\n</body>\n</html>\n");
    proof {
        assert(out@ =~= page_html(title@, rel_md@, body@, *meta));
    }
    string_of(&out)
}

} // verus!
