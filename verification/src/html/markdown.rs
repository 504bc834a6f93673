//! The markdown side of the HTML tree: front matter, titles, descriptions,
//! and the `.md` → `.html` link rewriting.
use crate::text::{
    after_prefix, before_suffix, chars_eq, chars_of, copy_range, ends_with_str, find, find_char,
    find_char_from, find_str, has_prefix, has_suffix, is_whitespace, is_ws, lemma_find_char_props,
    lemma_find_from_props, lines, lines_of, push_all, push_str, replace_all, replace_all_of,
    starts_with_str, string_of, trim, trim_end, trim_of, trim_slice, lower_seq, ascii_lowercase,
    is_digit, eq_str, strip_end_of, CharClass,
};
use vstd::prelude::*;
use vstd::string::StrSliceExecFns;
use pulldown_cmark::{html, Event, Options, Parser, Tag};

verus! {

broadcast use vstd::string::group_string_axioms;

pub open spec fn fallback_title() -> Seq<char> {
    "Mailing List Weekly Summaries"@
}

/// Longest description, in characters, before it is cut.
pub const DESC_MAX_CHARS: usize = 240;

// ───────────────────────── links ─────────────────────────

pub open spec fn scheme_char(c: char) -> bool {
    ('a' <= c && c <= 'z') || ('A' <= c && c <= 'Z') || c == '+' || c == '.' || c == '-'
}

/// `href` starts with a URL scheme: a non-empty run of scheme characters before its first `:`.
pub open spec fn has_scheme(href: Seq<char>) -> bool {
    match find_char_from(href, ':', 0) {
        Some(c) => c > 0 && forall|k: int| 0 <= k < c ==> #[trigger] scheme_char(href[k]),
        None => false,
    }
}

/// `s` cut at its first `c`: before it, and from it on (empty when absent).
pub open spec fn cut_at(s: Seq<char>, c: char) -> (Seq<char>, Seq<char>) {
    match find_char_from(s, c, 0) {
        Some(i) => (s.subrange(0, i), s.subrange(i, s.len() as int)),
        None => (s, seq![]),
    }
}

/// The HTML form of a markdown href: a relative `*.md` path becomes
/// `*.html` (query and fragment kept); empty hrefs, fragments and URLs with
/// a scheme stay as they are.
pub open spec fn html_href(href: Seq<char>) -> Seq<char> {
    if href.len() == 0 || href[0] == '#' || has_scheme(href) {
        href
    } else {
        let (path_query, hash) = cut_at(href, '#');
        let (path, query) = cut_at(path_query, '?');
        let new_path = if has_suffix(path, ".md"@) { before_suffix(path, ".md"@) + ".html"@ } else { path };
        new_path + query + hash
    }
}

fn scheme_char_exec(c: char) -> (r: bool)
    ensures
        r == scheme_char(c),
{
    ('a' <= c && c <= 'z') || ('A' <= c && c <= 'Z') || c == '+' || c == '.' || c == '-'
}

fn cut_at_exec(s: &[char], c: char) -> (r: (Vec<char>, Vec<char>))
    ensures
        (r.0@, r.1@) == cut_at(s@, c),
{
    match find_char(s, c, 0) {
        Some(i) => {
            proof {
                lemma_find_char_props(s@, c, 0);
            }
            (copy_range(s, 0, i), copy_range(s, i, s.len()))
        },
        None => (copy_range(s, 0, s.len()), Vec::new()),
    }
}

/// Rewrite a markdown href for HTML output. Relative `*.md` → `*.html`; keep
/// schemes, hashes, and directory-less names as-is. `index.html` is never
/// collapsed to a directory URL.
pub fn rewrite_internal_href(href: &str) -> (r: String)
    ensures
        r@ == html_href(href@),
{
    let h = chars_of(href);
    if h.len() == 0 || h[0] == '#' {
        return string_of(&h);
    }
    match find_char(&h, ':', 0) {
        Some(colon) => {
            proof {
                lemma_find_char_props(h@, ':', 0);
            }
            let mut all = colon > 0;
            let mut k: usize = 0;
            while k < colon
                invariant
                    k <= colon,
                    colon < h@.len(),
                    all == (colon > 0 && forall|j: int| 0 <= j < k ==> #[trigger] scheme_char(h@[j])),
                decreases colon - k,
            {
                if !scheme_char_exec(h[k]) {
                    all = false;
                }
                k = k + 1;
            }
            if all {
                return string_of(&h);
            }
        },
        None => {},
    }
    let (path_query, hash) = cut_at_exec(&h, '#');
    let (path, query) = cut_at_exec(&path_query, '?');
    let mut out: Vec<char> = Vec::new();
    if ends_with_str(&path, ".md") {
        proof {
            reveal_strlit(".md");
        }
        let stem = copy_range(&path, 0, path.len() - 3);
        push_all(&mut out, &stem);
        push_str(&mut out, ".html");
    } else {
        push_all(&mut out, &path);
    }
    push_all(&mut out, &query);
    push_all(&mut out, &hash);
    string_of(&out)
}

// ───────────────────────── front matter ─────────────────────────

#[derive(Debug, Clone)]
pub struct FrontMatter {
    pub title: Option<String>,
    pub headline: Option<String>,
    pub subject: Option<String>,
    pub week_ending: Option<String>,
}

impl FrontMatter {
    pub fn empty() -> (r: FrontMatter)
        ensures
            r.title is None && r.headline is None && r.subject is None && r.week_ending is None,
    {
        FrontMatter { title: None, headline: None, subject: None, week_ending: None }
    }
}

/// A YAML scalar without its quotes: double quotes also undo `\"` and `\\`.
pub open spec fn unquoted(v: Seq<char>) -> Seq<char> {
    if v.len() >= 2 && v[0] == '"' && v.last() == '"' {
        replace_all(replace_all(v.subrange(1, v.len() - 1), "\\\""@, "\""@), "\\\\"@, "\\"@)
    } else if v.len() >= 2 && v[0] == '\'' && v.last() == '\'' {
        v.subrange(1, v.len() - 1)
    } else {
        v
    }
}

pub fn unquote_yaml_scalar(v: &[char]) -> (r: Vec<char>)
    ensures
        r@ == unquoted(v@),
{
    if v.len() >= 2 && v[0] == '"' && v[v.len() - 1] == '"' {
        let inner = copy_range(v, 1, v.len() - 1);
        proof {
            reveal_strlit("\\\"");
            reveal_strlit("\\\\");
            reveal_strlit("\"");
            reveal_strlit("\\");
        }
        let a = replace_all_of(&inner, &chars_of("\\\""), &chars_of("\""));
        replace_all_of(&a, &chars_of("\\\\"), &chars_of("\\"))
    } else if v.len() >= 2 && v[0] == '\'' && v[v.len() - 1] == '\'' {
        copy_range(v, 1, v.len() - 1)
    } else {
        copy_range(v, 0, v.len())
    }
}

/// The value after `key` on a trimmed line, unquoted.
pub open spec fn key_value(line: Seq<char>, key: Seq<char>) -> Seq<char> {
    unquoted(trim(after_prefix(line, key)))
}

/// Front matter fields after the lines `ls[..n]`: for each key, the last
/// line (trimmed) that starts with it; `title:` is checked first, then
/// `headline:`, `subject:`, `week_ending:`.
pub open spec fn fm_after(ls: Seq<Seq<char>>, n: int) -> (Option<Seq<char>>, Option<Seq<char>>, Option<Seq<char>>, Option<Seq<char>>)
    decreases n,
{
    if n <= 0 {
        (None, None, None, None)
    } else {
        let prev = fm_after(ls, n - 1);
        let l = trim(ls[n - 1]);
        if has_prefix(l, "title:"@) {
            (Some(key_value(l, "title:"@)), prev.1, prev.2, prev.3)
        } else if has_prefix(l, "headline:"@) {
            (prev.0, Some(key_value(l, "headline:"@)), prev.2, prev.3)
        } else if has_prefix(l, "subject:"@) {
            (prev.0, prev.1, Some(key_value(l, "subject:"@)), prev.3)
        } else if has_prefix(l, "week_ending:"@) {
            (prev.0, prev.1, prev.2, Some(key_value(l, "week_ending:"@)))
        } else {
            prev
        }
    }
}

pub open spec fn opt_view(o: Option<String>) -> Option<Seq<char>> {
    match o {
        Some(s) => Some(s@),
        None => None,
    }
}

pub open spec fn fm_view(fm: FrontMatter) -> (Option<Seq<char>>, Option<Seq<char>>, Option<Seq<char>>, Option<Seq<char>>) {
    (opt_view(fm.title), opt_view(fm.headline), opt_view(fm.subject), opt_view(fm.week_ending))
}

fn value_after(line: &Vec<char>, n: usize) -> (r: String)
    requires
        n <= line@.len(),
    ensures
        r@ == unquoted(trim(line@.subrange(n as int, line@.len() as int))),
{
    let rest = copy_range(line, n, line.len());
    let t = trim_of(&rest);
    string_of(&unquote_yaml_scalar(&t))
}

/// Parse the simple `key: value` lines of a front matter block.
pub fn parse_front_matter(yaml: &[char]) -> (r: FrontMatter)
    ensures
        fm_view(r) == fm_after(lines(yaml@), lines(yaml@).len() as int),
{
    let ls = lines_of(yaml);
    let ghost lv = lines(yaml@);
    let mut fm = FrontMatter::empty();
    let mut k: usize = 0;
    while k < ls.len()
        invariant
            k <= ls@.len(),
            ls@.map_values(|l: Vec<char>| l@) == lv,
            fm_view(fm) == fm_after(lv, k as int),
        decreases ls@.len() - k,
    {
        let line = trim_of(&ls[k]);
        proof {
            assert(lv[k as int] == ls@[k as int]@);
            reveal_strlit("title:");
            reveal_strlit("headline:");
            reveal_strlit("subject:");
            reveal_strlit("week_ending:");
        }
        if starts_with_str(&line, "title:") {
            fm.title = Some(value_after(&line, 6));
        } else if starts_with_str(&line, "headline:") {
            fm.headline = Some(value_after(&line, 9));
        } else if starts_with_str(&line, "subject:") {
            fm.subject = Some(value_after(&line, 8));
        } else if starts_with_str(&line, "week_ending:") {
            fm.week_ending = Some(value_after(&line, 12));
        }
        k = k + 1;
    }
    fm
}

/// Where the front matter of `rest` (the text after the opening `---` line)
/// closes, with the closing line's length: `\n---\n` first, then
/// `\n---\r\n`, `\r\n---\r\n`, `\r\n---\n`.
pub open spec fn fm_close(rest: Seq<char>) -> Option<(int, int)> {
    if find(rest, close_lf()) is Some {
        Some((find(rest, close_lf())->0, 5))
    } else if find(rest, close_lf_crlf()) is Some {
        Some((find(rest, close_lf_crlf())->0, 6))
    } else if find(rest, close_crlf()) is Some {
        Some((find(rest, close_crlf())->0, 7))
    } else if find(rest, close_crlf_lf()) is Some {
        Some((find(rest, close_crlf_lf())->0, 6))
    } else {
        None
    }
}

/// `\n---\n`
pub open spec fn close_lf() -> Seq<char> {
    seq!['\n', '-', '-', '-', '\n']
}

/// `\n---\r\n`
pub open spec fn close_lf_crlf() -> Seq<char> {
    seq!['\n', '-', '-', '-', '\r', '\n']
}

/// `\r\n---\r\n`
pub open spec fn close_crlf() -> Seq<char> {
    seq!['\r', '\n', '-', '-', '-', '\r', '\n']
}

/// `\r\n---\n`
pub open spec fn close_crlf_lf() -> Seq<char> {
    seq!['\r', '\n', '-', '-', '-', '\n']
}

pub open spec fn crlf() -> Seq<char> {
    seq!['\r', '\n']
}

/// Start of the text after the opening `---` and its line break, if `md` opens a front matter.
pub open spec fn fm_open(md: Seq<char>) -> Option<int> {
    if has_prefix(md, "---"@) {
        let r = after_prefix(md, "---"@);
        if has_prefix(r, crlf()) {
            Some(5)
        } else if has_prefix(r, seq!['\n']) {
            Some(4)
        } else {
            None
        }
    } else {
        None
    }
}

/// The front matter block of `md`, as (yaml, body start), if it has one.
pub open spec fn fm_split(md: Seq<char>) -> Option<(Seq<char>, int)> {
    match fm_open(md) {
        Some(o) => match fm_close(md.subrange(o, md.len() as int)) {
            Some((end, len)) => Some((md.subrange(o, o + end), o + end + len)),
            None => None,
        },
        None => None,
    }
}

/// Where the front matter in `rest` closes, with the closing line's length.
fn front_matter_close(rest: &[char]) -> (r: Option<(usize, usize)>)
    ensures
        match r {
            Some((e, l)) => fm_close(rest@) == Some((e as int, l as int)) && e + l <= rest@.len(),
            None => fm_close(rest@) is None,
        },
{
    let p1: Vec<char> = vec!['\n', '-', '-', '-', '\n'];
    let p2: Vec<char> = vec!['\n', '-', '-', '-', '\r', '\n'];
    let p3: Vec<char> = vec!['\r', '\n', '-', '-', '-', '\r', '\n'];
    let p4: Vec<char> = vec!['\r', '\n', '-', '-', '-', '\n'];
    proof {
        assert(p1@ =~= close_lf());
        assert(p2@ =~= close_lf_crlf());
        assert(p3@ =~= close_crlf());
        assert(p4@ =~= close_crlf_lf());
    }
    let a = crate::text::find_exec(rest, &p1, 0);
    let b = crate::text::find_exec(rest, &p2, 0);
    let c = crate::text::find_exec(rest, &p3, 0);
    let d = crate::text::find_exec(rest, &p4, 0);
    proof {
        lemma_find_from_props(rest@, close_lf(), 0);
        lemma_find_from_props(rest@, close_lf_crlf(), 0);
        lemma_find_from_props(rest@, close_crlf(), 0);
        lemma_find_from_props(rest@, close_crlf_lf(), 0);
    }
    if let Some(i) = a {
        assert(fm_close(rest@) == Some((i as int, 5int)));
        assert(i + 5 <= rest@.len());
        Some((i, 5))
    } else if let Some(i) = b {
        assert(fm_close(rest@) == Some((i as int, 6int)));
        assert(i + 6 <= rest@.len());
        Some((i, 6))
    } else if let Some(i) = c {
        assert(fm_close(rest@) == Some((i as int, 7int)));
        assert(i + 7 <= rest@.len());
        Some((i, 7))
    } else if let Some(i) = d {
        assert(fm_close(rest@) == Some((i as int, 6int)));
        assert(i + 6 <= rest@.len());
        Some((i, 6))
    } else {
        assert(fm_close(rest@) is None);
        None
    }
}

/// Split leading YAML front matter from the markdown body.
pub fn strip_front_matter<'a>(md: &'a str) -> (r: (FrontMatter, &'a str))
    ensures
        match fm_split(md@) {
            Some((yaml, start)) => fm_view(r.0) == fm_after(lines(yaml), lines(yaml).len() as int)
                && r.1@ == md@.subrange(start, md@.len() as int),
            None => fm_view(r.0) == fm_view(FrontMatter { title: None, headline: None, subject: None, week_ending: None })
                && r.1@ == md@,
        },
{
    let m = chars_of(md);
    proof {
        reveal_strlit("---");
    }
    if !starts_with_str(&m, "---") {
        return (FrontMatter::empty(), md);
    }
    let open: usize = if m.len() >= 5 && m[3] == '\r' && m[4] == '\n' {
        5
    } else if m.len() >= 4 && m[3] == '\n' {
        4
    } else {
        proof {
            let r = after_prefix(m@, "---"@);
            if has_prefix(r, crlf()) {
                assert(r.subrange(0, 2)[0] == m@[3]);
                assert(r.subrange(0, 2)[1] == m@[4]);
            }
            if has_prefix(r, seq!['\n']) {
                assert(r.subrange(0, 1)[0] == m@[3]);
            }
            assert(fm_open(m@) is None);
        }
        return (FrontMatter::empty(), md);
    };
    let rest = copy_range(&m, open, m.len());
    proof {
        let r = after_prefix(m@, "---"@);
        if open == 5 {
            assert(r.subrange(0, 2) =~= crlf());
        } else {
            assert(!has_prefix(r, crlf())) by {
                if has_prefix(r, crlf()) {
                    assert(r.subrange(0, 2)[0] == m@[3]);
                }
            }
            assert(r.subrange(0, 1) =~= seq!['\n']);
        }
        assert(fm_open(m@) == Some(open as int));
    }
    let close = front_matter_close(&rest);
    match close {
        None => (FrontMatter::empty(), md),
        Some((end, len)) => {
            let yaml = copy_range(&rest, 0, end);
            let fm = parse_front_matter(&yaml);
            let body = md.substring_char(open + end + len, m.len());
            proof {
                assert(yaml@ == m@.subrange(open as int, open + end));
            }
            (fm, body)
        },
    }
}

// ───────────────────────── rendering ─────────────────────────

/// One event of the markdown parse, as far as the page logic reads it.
pub enum MdEvent {
    /// Start of a link, with its destination.
    Link(String),
    /// Start of an image, with its source.
    Image(String),
    /// Raw HTML, a block or inline.
    Html(String),
    /// Text.
    Text(String),
    /// Any other event.
    Other,
}

/// [`MdEvent`] with its text as characters.
pub enum MdEventView {
    Link(Seq<char>),
    Image(Seq<char>),
    Html(Seq<char>),
    Text(Seq<char>),
    Other,
}

impl View for MdEvent {
    type V = MdEventView;

    open spec fn view(&self) -> MdEventView {
        match self {
            MdEvent::Link(d) => MdEventView::Link(d@),
            MdEvent::Image(d) => MdEventView::Image(d@),
            MdEvent::Html(s) => MdEventView::Html(s@),
            MdEvent::Text(s) => MdEventView::Text(s@),
            MdEvent::Other => MdEventView::Other,
        }
    }
}

pub open spec fn event_views(ev: Seq<MdEvent>) -> Seq<MdEventView> {
    ev.map_values(|e: MdEvent| e@)
}

/// The events pulldown-cmark parses from `md` with tables and strikethrough
/// on or off as given: link and image starts with their destinations, raw
/// HTML (block or inline) and text with their contents, all else `Other`.
pub uninterp spec fn md_events(md: Seq<char>, tables: bool, strikethrough: bool) -> Seq<MdEventView>;

/// The HTML `pulldown_cmark::html::push_html` writes for the events parsed
/// from `md` with these options, taken position by position along `events`
/// (and no further than it reaches): a link or image start facing a `Link`
/// or `Image` entry takes that entry's destination, any event facing a
/// `Text` entry becomes that text, and every other event stays as parsed.
/// So a prepared parse of `md` itself renders every event, the prepared
/// ones in their new form.
pub uninterp spec fn md_render(md: Seq<char>, tables: bool, strikethrough: bool, events: Seq<MdEventView>) -> Seq<char>;

/// Parse markdown into events (`pulldown_cmark::Parser::new_ext`).
#[verifier::external_body]
fn parse_markdown(md: &str, tables: bool, strikethrough: bool) -> (r: Vec<MdEvent>)
    ensures
        event_views(r@) == md_events(md@, tables, strikethrough),
{
    let mut o = Options::empty();
    o.set(Options::ENABLE_TABLES, tables);
    o.set(Options::ENABLE_STRIKETHROUGH, strikethrough);
    Parser::new_ext(md, o).map(|e| match e {
        Event::Start(Tag::Link { dest_url, .. }) => MdEvent::Link(dest_url.to_string()),
        Event::Start(Tag::Image { dest_url, .. }) => MdEvent::Image(dest_url.to_string()),
        Event::Html(s) | Event::InlineHtml(s) => MdEvent::Html(s.to_string()),
        Event::Text(s) => MdEvent::Text(s.to_string()),
        _ => MdEvent::Other,
    }).collect()
}

/// Render the parse of `md` with the entries of `events` in place
/// (`pulldown_cmark::html::push_html`; see [`md_render`]).
#[verifier::external_body]
fn render_markdown(md: &str, tables: bool, strikethrough: bool, events: &Vec<MdEvent>) -> (r: String)
    ensures
        r@ == md_render(md@, tables, strikethrough, event_views(events@)),
{
    let mut o = Options::empty();
    o.set(Options::ENABLE_TABLES, tables);
    o.set(Options::ENABLE_STRIKETHROUGH, strikethrough);
    let evs = Parser::new_ext(md, o).zip(events.iter()).map(|(mut e, m)| {
        if let (Event::Start(Tag::Link { dest_url, .. } | Tag::Image { dest_url, .. }), MdEvent::Link(d) | MdEvent::Image(d)) = (&mut e, m) {
            *dest_url = d.clone().into();
        }
        if let MdEvent::Text(s) = m {
            e = Event::Text(s.clone().into());
        }
        e
    });
    let mut out = String::new();
    html::push_html(&mut out, evs);
    out
}

/// An event as the page wants it: link and image destinations in their
/// HTML form (`html_href`), raw HTML turned into text so it is escaped.
pub open spec fn prepared(e: MdEventView) -> MdEventView {
    match e {
        MdEventView::Link(d) => MdEventView::Link(html_href(d)),
        MdEventView::Image(d) => MdEventView::Image(html_href(d)),
        MdEventView::Html(s) => MdEventView::Text(s),
        other => other,
    }
}

/// Point every link and image at the HTML tree and turn raw HTML into text.
pub fn prepare_events(ev: Vec<MdEvent>) -> (r: Vec<MdEvent>)
    ensures
        event_views(r@) == event_views(ev@).map_values(|e: MdEventView| prepared(e)),
{
    let mut out: Vec<MdEvent> = Vec::new();
    let mut i: usize = 0;
    while i < ev.len()
        invariant
            i <= ev@.len(),
            event_views(out@) == event_views(ev@).take(i as int).map_values(|e: MdEventView| prepared(e)),
        decreases ev@.len() - i,
    {
        let p = match &ev[i] {
            MdEvent::Link(d) => MdEvent::Link(rewrite_internal_href(d.as_str())),
            MdEvent::Image(d) => MdEvent::Image(rewrite_internal_href(d.as_str())),
            MdEvent::Html(s) => MdEvent::Text(s.clone()),
            MdEvent::Text(s) => MdEvent::Text(s.clone()),
            MdEvent::Other => MdEvent::Other,
        };
        proof {
            assert(p@ == prepared(ev@[i as int]@));
        }
        let ghost before = out@;
        out.push(p);
        proof {
            assert(event_views(out@) =~= event_views(before).push(p@));
            assert(event_views(ev@).take(i + 1) =~= event_views(ev@).take(i as int).push(ev@[i as int]@));
        }
        i = i + 1;
    }
    proof {
        assert(event_views(ev@).take(ev@.len() as int) =~= event_views(ev@));
    }
    out
}

/// The HTML fragment of a markdown body: tables and strikethrough on, the
/// parse's events prepared by [`prepared`], then rendered.
pub open spec fn markdown_body_html(md: Seq<char>) -> Seq<char> {
    md_render(md, true, true, md_events(md, true, true).map_values(|e: MdEventView| prepared(e)))
}

/// Markdown body to an HTML fragment: links and images point at the HTML
/// tree, raw HTML is escaped as text.
pub fn markdown_to_html_body(md: &str) -> (r: String)
    ensures
        r@ == markdown_body_html(md@),
{
    let events = parse_markdown(md, true, true);
    let prepared_events = prepare_events(events);
    render_markdown(md, true, true, &prepared_events)
}

/// The markdown body of a document: what follows its front matter, or all of it.
pub open spec fn md_body(md: Seq<char>) -> Seq<char> {
    match fm_split(md) {
        Some((_, start)) => md.subrange(start, md.len() as int),
        None => md,
    }
}

/// The front matter fields of a document (all absent without front matter).
pub open spec fn md_front(md: Seq<char>) -> (Option<Seq<char>>, Option<Seq<char>>, Option<Seq<char>>, Option<Seq<char>>) {
    match fm_split(md) {
        Some((yaml, _)) => fm_after(lines(yaml), lines(yaml).len() as int),
        None => (None, None, None, None),
    }
}

/// Front matter, page title and HTML body of one markdown document.
pub fn convert_markdown_document(md: &str, fallback_title: &str) -> (r: (FrontMatter, String, String))
    ensures
        fm_view(r.0) == md_front(md@),
        r.1@ == title_of(r.0, md_body(md@), fallback_title@),
        r.2@ == markdown_body_html(md_body(md@)),
{
    let (fm, body) = strip_front_matter(md);
    let title = page_title(&fm, body, fallback_title);
    let html = markdown_to_html_body(body);
    (fm, title, html)
}

// ───────────────────────── titles ─────────────────────────

/// The first line whose trimmed form is `# ` and a non-empty title, from `ls[k..]`.
pub open spec fn atx_h1_from(ls: Seq<Seq<char>>, k: int) -> Option<Seq<char>>
    decreases ls.len() - k,
{
    if k < 0 || k >= ls.len() {
        None
    } else if has_prefix(trim(ls[k]), "# "@) && trim(after_prefix(trim(ls[k]), "# "@)).len() > 0 {
        Some(trim(after_prefix(trim(ls[k]), "# "@)))
    } else {
        atx_h1_from(ls, k + 1)
    }
}

/// The first ATX level-one heading of `md`.
pub fn first_atx_h1(md: &str) -> (r: Option<String>)
    ensures
        opt_view(r) == atx_h1_from(lines(md@), 0),
{
    let m = chars_of(md);
    let ls = lines_of(&m);
    let ghost lv = lines(md@);
    let mut k: usize = 0;
    while k < ls.len()
        invariant
            k <= ls@.len(),
            lv == lines(md@),
            ls@.map_values(|l: Vec<char>| l@) == lv,
            atx_h1_from(lv, 0) == atx_h1_from(lv, k as int),
        decreases ls@.len() - k,
    {
        let t = trim_of(&ls[k]);
        proof {
            assert(lv[k as int] == ls@[k as int]@);
            reveal_strlit("# ");
        }
        if starts_with_str(&t, "# ") {
            let rest = copy_range(&t, 2, t.len());
            let title = trim_of(&rest);
            if title.len() > 0 {
                return Some(string_of(&title));
            }
        }
        k = k + 1;
    }
    None
}

/// A field's trimmed value when that is non-empty.
pub open spec fn nonempty_trim(o: Option<Seq<char>>) -> Option<Seq<char>> {
    match o {
        Some(s) => if trim(s).len() > 0 { Some(trim(s)) } else { None },
        None => None,
    }
}

pub fn nonempty_trimmed(s: &Option<String>) -> (r: Option<Vec<char>>)
    ensures
        match r {
            Some(v) => nonempty_trim(opt_view(*s)) == Some(v@),
            None => nonempty_trim(opt_view(*s)) is None,
        },
{
    match s {
        Some(x) => {
            let t = crate::text::trim_str(x.as_str());
            if t.len() > 0 { Some(t) } else { None }
        },
        None => None,
    }
}

/// Page title: front-matter `title`, then `headline`, then the first ATX H1,
/// then the trimmed fallback, then the default title.
pub open spec fn title_of(fm: FrontMatter, body_md: Seq<char>, fallback: Seq<char>) -> Seq<char> {
    if nonempty_trim(opt_view(fm.title)) is Some {
        nonempty_trim(opt_view(fm.title))->0
    } else if nonempty_trim(opt_view(fm.headline)) is Some {
        nonempty_trim(opt_view(fm.headline))->0
    } else if atx_h1_from(lines(body_md), 0) is Some {
        atx_h1_from(lines(body_md), 0)->0
    } else if trim(fallback).len() > 0 {
        trim(fallback)
    } else {
        fallback_title()
    }
}

pub fn page_title(fm: &FrontMatter, body_md: &str, fallback: &str) -> (r: String)
    ensures
        r@ == title_of(*fm, body_md@, fallback@),
{
    if let Some(t) = nonempty_trimmed(&fm.title) {
        return string_of(&t);
    }
    if let Some(t) = nonempty_trimmed(&fm.headline) {
        return string_of(&t);
    }
    match first_atx_h1(body_md) {
        Some(h) => h,
        None => {
            let fb = crate::text::trim_str(fallback);
            if fb.len() > 0 {
                string_of(&fb)
            } else {
                string_of(&chars_of("Mailing List Weekly Summaries"))
            }
        },
    }
}

// ───────────────────────── descriptions ─────────────────────────

pub open spec fn block_skip(t: Seq<char>) -> bool {
    has_prefix(t, "#"@) || t == "---"@ || t == "***"@ || t == "___"@ || t == "* * *"@
}

pub fn is_block_skip(t: &[char]) -> (r: bool)
    ensures
        r == block_skip(t@),
{
    starts_with_str(t, "#") || eq_str(t, "---") || eq_str(t, "***") || eq_str(t, "___") || eq_str(t, "* * *")
}

/// The text of a `- `, `* ` or `+ ` list item.
pub open spec fn list_item(t: Seq<char>) -> Option<Seq<char>> {
    if has_prefix(t, "- "@) {
        Some(after_prefix(t, "- "@))
    } else if has_prefix(t, "* "@) {
        Some(after_prefix(t, "* "@))
    } else if has_prefix(t, "+ "@) {
        Some(after_prefix(t, "+ "@))
    } else {
        None
    }
}

pub fn list_item_text(t: &[char]) -> (r: Option<Vec<char>>)
    ensures
        match r {
            Some(v) => list_item(t@) == Some(v@),
            None => list_item(t@) is None,
        },
{
    proof {
        reveal_strlit("- ");
        reveal_strlit("* ");
        reveal_strlit("+ ");
    }
    if starts_with_str(t, "- ") || starts_with_str(t, "* ") || starts_with_str(t, "+ ") {
        Some(copy_range(t, 2, t.len()))
    } else {
        None
    }
}

/// `week ending YYYY-MM-DD` and nothing else (any letter case).
pub open spec fn week_ending_only(s: Seq<char>) -> bool {
    let lower = lower_seq(s);
    has_prefix(lower, "week ending "@) && {
        let rest = trim(after_prefix(lower, "week ending "@));
        &&& rest.len() == 10
        &&& forall|k: int| 0 <= k < 10 ==> (if k == 4 || k == 7 { #[trigger] rest[k] == '-' } else { is_digit(rest[k]) })
    }
}

pub fn is_week_ending_only(s: &[char]) -> (r: bool)
    ensures
        r == week_ending_only(s@),
{
    let lower = ascii_lowercase(s);
    if !starts_with_str(&lower, "week ending ") {
        return false;
    }
    proof {
        reveal_strlit("week ending ");
    }
    let after = copy_range(&lower, 12, lower.len());
    let rest = trim_of(&after);
    assert(after@ == after_prefix(lower_seq(s@), "week ending "@));
    if rest.len() != 10 {
        return false;
    }
    let mut k: usize = 0;
    while k < 10
        invariant
            k <= 10,
            rest@.len() == 10,
            has_prefix(lower_seq(s@), "week ending "@),
            rest@ == trim(after_prefix(lower_seq(s@), "week ending "@)),
            forall|j: int| 0 <= j < k ==> (if j == 4 || j == 7 { #[trigger] rest@[j] == '-' } else { is_digit(rest@[j]) }),
        decreases 10 - k,
    {
        let c = rest[k];
        if k == 4 || k == 7 {
            if c != '-' {
                return false;
            }
        } else if !('0' <= c && c <= '9') {
            return false;
        }
        k = k + 1;
    }
    true
}

pub open spec fn usable(s: Seq<char>) -> bool {
    trim(s).len() > 0 && !week_ending_only(trim(s))
}

pub fn is_usable_paragraph(s: &[char]) -> (r: bool)
    ensures
        r == usable(s@),
{
    let t = trim_of(s);
    t.len() > 0 && !is_week_ending_only(&t)
}

/// A markdown link `[text](target)` at `start`: its text and the index after it.
pub open spec fn md_link(c: Seq<char>, start: int) -> Option<(Seq<char>, int)> {
    if start < 0 || start >= c.len() || c[start] != '[' {
        None
    } else {
        match find_char_from(c, ']', start + 1) {
            None => None,
            Some(close) => if close + 1 >= c.len() || c[close + 1] != '(' {
                None
            } else {
                match find_char_from(c, ')', close + 2) {
                    None => None,
                    Some(end) => Some((c.subrange(start + 1, close), end + 1)),
                }
            },
        }
    }
}

pub fn parse_md_link(c: &[char], start: usize) -> (r: Option<(Vec<char>, usize)>)
    ensures
        match r {
            Some((text, next)) => md_link(c@, start as int) == Some((text@, next as int)) && start < next <= c@.len(),
            None => md_link(c@, start as int) is None,
        },
{
    if start >= c.len() || c[start] != '[' {
        return None;
    }
    match find_char(c, ']', start + 1) {
        None => None,
        Some(close) => {
            proof {
                lemma_find_char_props(c@, ']', start + 1);
            }
            if close + 1 >= c.len() || c[close + 1] != '(' {
                return None;
            }
            match find_char(c, ')', close + 2) {
                None => None,
                Some(end) => {
                    proof {
                        lemma_find_char_props(c@, ')', close + 2);
                    }
                    Some((copy_range(c, start + 1, close), end + 1))
                },
            }
        },
    }
}

/// `c[i..]` with markdown links (and images) replaced by their text.
pub open spec fn unlink_from(c: Seq<char>, i: int) -> Seq<char>
    decreases c.len() - i,
{
    if i < 0 || i >= c.len() {
        seq![]
    } else {
        let bang = c[i] == '!' && i + 1 < c.len() && c[i + 1] == '[';
        if bang || c[i] == '[' {
            let start = if c[i] == '!' { i + 1 } else { i };
            match md_link(c, start) {
                Some((text, next)) => if i < next <= c.len() {
                    text + unlink_from(c, next)
                } else {
                    seq![c[i]] + unlink_from(c, i + 1)
                },
                None => seq![c[i]] + unlink_from(c, i + 1),
            }
        } else {
            seq![c[i]] + unlink_from(c, i + 1)
        }
    }
}

/// Whitespace runs collapsed to one space, then trimmed.
pub open spec fn collapse_from(s: Seq<char>, prev_space: bool) -> Seq<char>
    decreases s.len(),
{
    if s.len() == 0 {
        seq![]
    } else if is_ws(s[0]) {
        if prev_space {
            collapse_from(s.drop_first(), true)
        } else {
            seq![' '] + collapse_from(s.drop_first(), true)
        }
    } else {
        seq![s[0]] + collapse_from(s.drop_first(), false)
    }
}

pub open spec fn collapsed(s: Seq<char>) -> Seq<char> {
    trim(collapse_from(s, true))
}

pub fn collapse_ws(s: &[char]) -> (r: Vec<char>)
    ensures
        r@ == collapsed(s@),
{
    let mut out: Vec<char> = Vec::new();
    let mut prev_space = true;
    let mut i: usize = 0;
    assert(s@.subrange(0, s@.len() as int) =~= s@);
    while i < s.len()
        invariant
            i <= s@.len(),
            out@ + collapse_from(s@.subrange(i as int, s@.len() as int), prev_space) == collapse_from(s@, true),
        decreases s@.len() - i,
    {
        let ghost rest = s@.subrange(i as int, s@.len() as int);
        proof {
            assert(rest.drop_first() =~= s@.subrange(i + 1, s@.len() as int));
            assert(rest[0] == s@[i as int]);
        }
        let c = s[i];
        let ghost before = out@;
        if is_whitespace(c) {
            if !prev_space {
                out.push(' ');
                prev_space = true;
                proof {
                    assert(out@ =~= before + seq![' ']);
                }
            }
        } else {
            out.push(c);
            prev_space = false;
            proof {
                assert(out@ =~= before + seq![c]);
            }
        }
        i = i + 1;
    }
    proof {
        assert(out@ + collapse_from(s@.subrange(s@.len() as int, s@.len() as int), prev_space) =~= out@);
    }
    trim_of(&out)
}

/// Markdown reduced to plain text: links to their text, emphasis and code
/// marks dropped, whitespace collapsed.
pub open spec fn plain_text(s: Seq<char>) -> Seq<char> {
    collapsed(replace_all(replace_all(replace_all(replace_all(unlink_from(s, 0), "**"@, seq![]), "__"@, seq![]), "`"@, seq![]), "*"@, seq![]))
}

pub fn strip_inline_markdown(s: &[char]) -> (r: Vec<char>)
    ensures
        r@ == plain_text(s@),
{
    let mut tmp: Vec<char> = Vec::new();
    let mut i: usize = 0;
    while i < s.len()
        invariant
            i <= s@.len(),
            tmp@ + unlink_from(s@, i as int) == unlink_from(s@, 0),
        decreases s@.len() - i,
    {
        let c = s[i];
        if (c == '!' && i + 1 < s.len() && s[i + 1] == '[') || c == '[' {
            let start = if c == '!' { i + 1 } else { i };
            match parse_md_link(s, start) {
                Some((text, next)) => {
                    let ghost before = tmp@;
                    push_all(&mut tmp, &text);
                    proof {
                        assert(tmp@ + unlink_from(s@, next as int) =~= before + unlink_from(s@, i as int));
                    }
                    i = next;
                    continue;
                },
                None => {},
            }
        }
        let ghost before = tmp@;
        tmp.push(c);
        proof {
            assert(tmp@ + unlink_from(s@, i + 1) =~= before + unlink_from(s@, i as int));
        }
        i = i + 1;
    }
    proof {
        assert(tmp@ + unlink_from(s@, i as int) =~= tmp@);
        reveal_strlit("**");
        reveal_strlit("__");
        reveal_strlit("`");
        reveal_strlit("*");
    }
    let empty: Vec<char> = Vec::new();
    let a = replace_all_of(&tmp, &chars_of("**"), &empty);
    let b = replace_all_of(&a, &chars_of("__"), &empty);
    let c = replace_all_of(&b, &chars_of("`"), &empty);
    let d = replace_all_of(&c, &chars_of("*"), &empty);
    proof {
        assert(empty@ =~= Seq::<char>::empty());
    }
    collapse_ws(&d)
}

/// Index of the last whitespace among `s[..n]`.
pub open spec fn last_space_before(s: Seq<char>, n: int) -> Option<int>
    decreases n,
{
    if n <= 0 {
        None
    } else if is_ws(s[n - 1]) {
        Some(n - 1)
    } else {
        last_space_before(s, n - 1)
    }
}

/// At most `max` characters: a longer text is cut at the last whitespace
/// within its first `max` characters (or after them), trailing whitespace
/// dropped and `…` appended.
pub open spec fn truncated(s: Seq<char>, max: int) -> Seq<char> {
    if s.len() <= max {
        s
    } else {
        let cut = match last_space_before(s, max) {
            Some(k) => if k > 0 { k } else { max },
            None => max,
        };
        trim_end(s.subrange(0, cut)) + "…"@
    }
}

pub fn truncate_desc(s: &[char], max: usize) -> (r: Vec<char>)
    ensures
        r@ == truncated(s@, max as int),
{
    if s.len() <= max {
        return copy_range(s, 0, s.len());
    }
    let mut n: usize = max;
    while n > 0 && !is_whitespace(s[n - 1])
        invariant
            n <= max,
            max < s@.len(),
            last_space_before(s@, max as int) == last_space_before(s@, n as int),
        decreases n,
    {
        n = n - 1;
    }
    let cut = if n > 0 && n - 1 > 0 { n - 1 } else { max };
    let head = copy_range(s, 0, cut);
    let mut out = crate::text::strip_end_of(CharClass::Space, &head);
    push_str(&mut out, "…");
    out
}

/// The first usable paragraph from the lines `ls[k..]`, with `para` the
/// paragraph text gathered so far: blank lines, headings and rules end a
/// paragraph; a list item counts on its own when no paragraph is open.
pub open spec fn paragraph_from(ls: Seq<Seq<char>>, k: int, para: Seq<char>) -> Option<Seq<char>>
    decreases ls.len() - k,
{
    if k < 0 || k >= ls.len() {
        if para.len() > 0 && usable(plain_text(para)) { Some(plain_text(para)) } else { None }
    } else {
        let t = trim(ls[k]);
        if t.len() == 0 || block_skip(t) {
            if para.len() > 0 && usable(plain_text(para)) {
                Some(plain_text(para))
            } else {
                paragraph_from(ls, k + 1, seq![])
            }
        } else if list_item(t) is Some {
            if para.len() == 0 && usable(plain_text(list_item(t)->0)) {
                Some(plain_text(list_item(t)->0))
            } else {
                paragraph_from(ls, k + 1, para)
            }
        } else {
            paragraph_from(ls, k + 1, if para.len() > 0 { para + " "@ + t } else { t })
        }
    }
}

/// The first substantial paragraph of `md`, as plain text.
pub fn first_substantial_paragraph(md: &str) -> (r: Option<Vec<char>>)
    ensures
        match r {
            Some(v) => paragraph_from(lines(md@), 0, seq![]) == Some(v@),
            None => paragraph_from(lines(md@), 0, seq![]) is None,
        },
{
    let m = chars_of(md);
    let ls = lines_of(&m);
    let ghost lv = lines(md@);
    let mut para: Vec<char> = Vec::new();
    let mut k: usize = 0;
    while k < ls.len()
        invariant
            k <= ls@.len(),
            lv == lines(md@),
            ls@.map_values(|l: Vec<char>| l@) == lv,
            paragraph_from(lv, 0, seq![]) == paragraph_from(lv, k as int, para@),
        decreases ls@.len() - k,
    {
        let t = trim_of(&ls[k]);
        proof {
            assert(lv[k as int] == ls@[k as int]@);
        }
        if t.len() == 0 || is_block_skip(&t) {
            if para.len() > 0 {
                let stripped = strip_inline_markdown(&para);
                if is_usable_paragraph(&stripped) {
                    return Some(stripped);
                }
            }
            para = Vec::new();
            proof {
                assert(para@ =~= Seq::<char>::empty());
            }
            k = k + 1;
            continue;
        }
        match list_item_text(&t) {
            Some(item) => {
                if para.len() == 0 {
                    let stripped = strip_inline_markdown(&item);
                    if is_usable_paragraph(&stripped) {
                        return Some(stripped);
                    }
                }
                k = k + 1;
                continue;
            },
            None => {},
        }
        let ghost old_para = para@;
        if para.len() > 0 {
            para.push(' ');
        }
        push_all(&mut para, &t);
        proof {
            reveal_strlit(" ");
            assert(para@ =~= (if old_para.len() > 0 { old_para + " "@ + t@ } else { t@ }));
        }
        k = k + 1;
    }
    if para.len() > 0 {
        let stripped = strip_inline_markdown(&para);
        if is_usable_paragraph(&stripped) {
            return Some(stripped);
        }
    }
    None
}

/// The first candidate from `c[k..]` that is present and differs from `t`.
pub open spec fn first_differing(c: Seq<Option<Seq<char>>>, t: Seq<char>, k: int) -> Option<Seq<char>>
    decreases c.len() - k,
{
    if k < 0 || k >= c.len() {
        None
    } else if c[k] is Some && c[k]->0 != t {
        c[k]
    } else {
        first_differing(c, t, k + 1)
    }
}

/// The first candidate from `c[k..]` that is present.
pub open spec fn first_present(c: Seq<Option<Seq<char>>>, k: int) -> Option<Seq<char>>
    decreases c.len() - k,
{
    if k < 0 || k >= c.len() {
        None
    } else if c[k] is Some {
        c[k]
    } else {
        first_present(c, k + 1)
    }
}

/// Unfurl / meta description: the first of front-matter `headline`, first
/// substantial paragraph, front-matter `subject` that is non-empty and
/// differs from the (trimmed) title, else the first non-empty of them, else
/// the site title (or the default title); cut to `DESC_MAX_CHARS`.
pub open spec fn description_of(fm: FrontMatter, body_md: Seq<char>, title: Seq<char>, site_title: Seq<char>) -> Seq<char> {
    let cands = seq![
        nonempty_trim(opt_view(fm.headline)),
        paragraph_from(lines(body_md), 0, seq![]),
        nonempty_trim(opt_view(fm.subject)),
    ];
    let raw = match first_differing(cands, trim(title), 0) {
        Some(x) => x,
        None => match first_present(cands, 0) {
            Some(x) => x,
            None => if trim(site_title).len() > 0 { trim(site_title) } else { fallback_title() },
        },
    };
    truncated(raw, DESC_MAX_CHARS as int)
}

pub fn page_description(fm: &FrontMatter, body_md: &str, title: &str, site_title: &str) -> (r: String)
    ensures
        r@ == description_of(*fm, body_md@, title@, site_title@),
{
    let headline = nonempty_trimmed(&fm.headline);
    let paragraph = first_substantial_paragraph(body_md);
    let subject = nonempty_trimmed(&fm.subject);
    let t = crate::text::trim_str(title);
    let cands: Vec<Option<Vec<char>>> = vec![headline, paragraph, subject];
    let ghost cs = seq![
        nonempty_trim(opt_view(fm.headline)),
        paragraph_from(lines(body_md@), 0, seq![]),
        nonempty_trim(opt_view(fm.subject)),
    ];
    proof {
        assert(cs.len() == 3);
        assert forall|k: int| 0 <= k < 3 implies #[trigger] cs[k] == (match cands@[k] { Some(v) => Some(v@), None => None::<Seq<char>> }) by {}
    }
    let mut diff: Option<usize> = None;
    let mut k: usize = 0;
    while k < 3
        invariant
            k <= 3,
            cands@.len() == 3,
            cs.len() == 3,
            t@ == trim(title@),
            forall|j: int| 0 <= j < 3 ==> #[trigger] cs[j] == (match cands@[j] { Some(v) => Some(v@), None => None::<Seq<char>> }),
            match diff {
                Some(p) => p < 3 && first_differing(cs, t@, 0) == cs[p as int] && cs[p as int] is Some,
                None => first_differing(cs, t@, 0) == first_differing(cs, t@, k as int),
            },
        decreases 3 - k,
    {
        if diff.is_none() {
            match &cands[k] {
                Some(v) => {
                    if !chars_eq(v, &t) {
                        diff = Some(k);
                    }
                },
                None => {},
            }
        }
        k = k + 1;
    }
    let mut present: Option<usize> = None;
    let mut j: usize = 0;
    while j < 3
        invariant
            j <= 3,
            cands@.len() == 3,
            cs.len() == 3,
            forall|i: int| 0 <= i < 3 ==> #[trigger] cs[i] == (match cands@[i] { Some(v) => Some(v@), None => None::<Seq<char>> }),
            match present {
                Some(p) => p < 3 && first_present(cs, 0) == cs[p as int] && cs[p as int] is Some,
                None => first_present(cs, 0) == first_present(cs, j as int),
            },
        decreases 3 - j,
    {
        if present.is_none() && cands[j].is_some() {
            present = Some(j);
        }
        j = j + 1;
    }
    let pick = if diff.is_some() { diff } else { present };
    let raw: Vec<char> = match pick {
        Some(p) => match &cands[p] {
            Some(v) => copy_range(v, 0, v.len()),
            None => Vec::new(),
        },
        None => {
            let fb = crate::text::trim_str(site_title);
            if fb.len() > 0 { fb } else { chars_of("Mailing List Weekly Summaries") }
        },
    };
    proof {
        let raw_spec = match first_differing(cs, trim(title@), 0) {
            Some(x) => x,
            None => match first_present(cs, 0) {
                Some(x) => x,
                None => if trim(site_title@).len() > 0 { trim(site_title@) } else { fallback_title() },
            },
        };
        assert(raw@ == raw_spec);
    }
    let out = truncate_desc(&raw, DESC_MAX_CHARS);
    string_of(&out)
}

} // verus!
