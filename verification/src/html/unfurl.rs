//! Open Graph / Twitter Card / description tags for classic link unfurls.
use super::links::{encode_comps, encoded_path};
use super::page::{escape, push_escaped};
use crate::rel_path::{comps, comps_of, is_normal, is_normal_exec};
use crate::text::{
    CharClass, chars_of, copy_range, eq_str, find_char_from, has_prefix, is_digit, push_all,
    push_str, starts_with_str, string_of, strip_end, strip_end_of, trim, trim_of, views,
};
use vstd::prelude::*;

verus! {

broadcast use vstd::string::group_string_axioms;

pub open spec fn opt_str_view(o: Option<&str>) -> Option<Seq<char>> {
    match o {
        Some(s) => Some(s@),
        None => None,
    }
}

pub open spec fn opt_string_view(o: Option<String>) -> Option<Seq<char>> {
    match o {
        Some(s) => Some(s@),
        None => None,
    }
}

/// Starts with `http://` or `https://`.
pub open spec fn is_http(s: Seq<char>) -> bool {
    has_prefix(s, "http://"@) || has_prefix(s, "https://"@)
}

pub fn is_http_exec(s: &[char]) -> (r: bool)
    ensures
        r == is_http(s@),
{
    starts_with_str(s, "http://") || starts_with_str(s, "https://")
}

/// The trimmed site URL without trailing slashes, if it is an absolute
/// `http(s)` prefix.
pub open spec fn site_prefix(site_url: Seq<char>) -> Option<Seq<char>> {
    let s = strip_end(CharClass::Slash, trim(site_url));
    if !is_http(s) {
        None
    } else if s == "http:"@ || s == "https:"@ || s == "http://"@ || s == "https://"@ {
        None
    } else {
        Some(s)
    }
}

fn site_prefix_chars(site_url: &str) -> (r: Option<Vec<char>>)
    ensures
        match r {
            Some(v) => site_prefix(site_url@) == Some(v@),
            None => site_prefix(site_url@) is None,
        },
{
    let t = chars_of(site_url);
    let t = trim_of(&t);
    let s = strip_end_of(CharClass::Slash, &t);
    if !is_http_exec(&s) {
        return None;
    }
    if eq_str(&s, "http:") || eq_str(&s, "https:") || eq_str(&s, "http://") || eq_str(
        &s,
        "https://",
    ) {
        return None;
    }
    Some(s)
}

/// Strip trailing slashes from an `http(s)` prefix. Returns `None` if the
/// value is not a usable absolute URL.
pub fn normalize_site_prefix(site_url: &str) -> (r: Option<String>)
    ensures
        opt_string_view(r) == site_prefix(site_url@),
{
    match site_prefix_chars(site_url) {
        Some(v) => Some(string_of(&v)),
        None => None,
    }
}

/// Index of the last `.` in `s`, if any.
pub open spec fn last_dot(s: Seq<char>) -> Option<int>
    decreases s.len(),
{
    if s.len() == 0 {
        None
    } else if s.last() == '.' {
        Some(s.len() - 1)
    } else {
        last_dot(s.drop_last())
    }
}

/// A file name with its extension replaced by `html` (`Path::with_extension`):
/// the stem is the part before the last `.` unless that `.` starts the name.
pub open spec fn html_name(name: Seq<char>) -> Seq<char> {
    match last_dot(name) {
        Some(k) => if k > 0 {
            name.subrange(0, k) + ".html"@
        } else {
            name + ".html"@
        },
        None => name + ".html"@,
    }
}

/// Components with the final normal file name given the `html` extension.
pub open spec fn html_comps(cs: Seq<Seq<char>>) -> Seq<Seq<char>> {
    if cs.len() > 0 && is_normal(cs.last()) {
        cs.drop_last().push(html_name(cs.last()))
    } else {
        cs
    }
}

fn last_dot_exec(s: &[char]) -> (r: Option<usize>)
    ensures
        match r {
            Some(k) => last_dot(s@) == Some(k as int),
            None => last_dot(s@) is None,
        },
{
    let mut i = s.len();
    assert(s@.take(i as int) =~= s@);
    while i > 0
        invariant
            i <= s@.len(),
            last_dot(s@) == last_dot(s@.take(i as int)),
        decreases i,
    {
        if s[i - 1] == '.' {
            return Some(i - 1);
        }
        proof {
            assert(s@.take(i as int).drop_last() =~= s@.take((i - 1) as int));
        }
        i = i - 1;
    }
    None
}

fn html_name_exec(name: &[char]) -> (r: Vec<char>)
    ensures
        r@ == html_name(name@),
{
    proof {
        lemma_last_dot_bound(name@);
    }
    let mut out = match last_dot_exec(name) {
        Some(k) => {
            if k > 0 {
                copy_range(name, 0, k)
            } else {
                copy_range(name, 0, name.len())
            }
        },
        None => copy_range(name, 0, name.len()),
    };
    push_str(&mut out, ".html");
    proof {
        assert(name@.subrange(0, name@.len() as int) =~= name@);
    }
    out
}

/// Absolute public URL of a markdown-relative page (`*.md` → `*.html`, each
/// component percent-encoded).
pub open spec fn page_url(site_url: Seq<char>, rel_md: Seq<char>) -> Option<Seq<char>> {
    match site_prefix(site_url) {
        None => None,
        Some(prefix) => {
            let enc = encoded_path(html_comps(comps(rel_md)));
            if enc.len() == 0 {
                Some(prefix)
            } else {
                Some(prefix + seq!['/'] + enc)
            }
        },
    }
}

pub proof fn lemma_last_dot_bound(s: Seq<char>)
    ensures
        last_dot(s) matches Some(k) ==> 0 <= k < s.len(),
    decreases s.len(),
{
    if s.len() > 0 && s.last() != '.' {
        lemma_last_dot_bound(s.drop_last());
    }
}

/// Absolute public URL for a markdown-relative page (`*.md` → `*.html`).
/// Path segments are encoded the same way as in-page hrefs.
pub fn absolute_page_url(site_url: &str, rel_md: &str) -> (r: Option<String>)
    ensures
        opt_string_view(r) == page_url(site_url@, rel_md@),
{
    let prefix = match site_prefix_chars(site_url) {
        Some(p) => p,
        None => return None,
    };
    let v = chars_of(rel_md);
    let mut cs = comps_of(&v);
    let ghost c0 = views(cs@);
    let n = cs.len();
    if n > 0 && is_normal_exec(&cs[n - 1]) {
        proof {
            lemma_last_dot_bound(cs@[n - 1]@);
        }
        let last = html_name_exec(&cs[n - 1]);
        let ghost lv = last@;
        cs.set(n - 1, last);
        proof {
            assert(views(cs@) =~= c0.drop_last().push(lv));
        }
    }
    let enc = encode_comps(&cs);
    if enc.len() == 0 {
        Some(string_of(&prefix))
    } else {
        let mut out = prefix;
        out.push('/');
        push_all(&mut out, &enc);
        Some(string_of(&out))
    }
}

/// `YYYY-MM-DD`: ten characters, dashes at 4 and 7, ASCII digits elsewhere.
pub open spec fn iso_date_shape(w: Seq<char>) -> bool {
    w.len() == 10 && forall|i: int|
        0 <= i < 10 ==> if i == 4 || i == 7 {
            w[i] == '-'
        } else {
            is_digit(#[trigger] w[i])
        }
}

pub fn iso_date_shape_exec(w: &[char]) -> (r: bool)
    ensures
        r == iso_date_shape(w@),
{
    if w.len() != 10 {
        return false;
    }
    let mut i: usize = 0;
    while i < 10
        invariant
            i <= 10,
            w@.len() == 10,
            forall|j: int|
                0 <= j < i ==> if j == 4 || j == 7 {
                    w@[j] == '-'
                } else {
                    is_digit(#[trigger] w@[j])
                },
        decreases 10 - i,
    {
        let c = w[i];
        if i == 4 || i == 7 {
            if c != '-' {
                return false;
            }
        } else if !('0' <= c && c <= '9') {
            return false;
        }
        i = i + 1;
    }
    true
}

/// `YYYY-MM-DD` → `YYYY-MM-DDT00:00:00Z` (after trimming); other values give nothing.
pub open spec fn published_time(week_ending: Option<Seq<char>>) -> Option<Seq<char>> {
    match week_ending {
        None => None,
        Some(raw) => {
            let w = trim(raw);
            if w.len() == 0 || !iso_date_shape(w) {
                None
            } else {
                Some(w + "T00:00:00Z"@)
            }
        },
    }
}

/// `YYYY-MM-DD` → `YYYY-MM-DDT00:00:00Z`. Other values are ignored.
pub fn article_published_time(week_ending: Option<&str>) -> (r: Option<String>)
    ensures
        opt_string_view(r) == published_time(opt_str_view(week_ending)),
{
    match week_ending {
        None => None,
        Some(raw) => {
            let w = chars_of(raw);
            let w = trim_of(&w);
            if w.len() == 0 || !iso_date_shape_exec(&w) {
                None
            } else {
                let mut out = w;
                push_str(&mut out, "T00:00:00Z");
                Some(string_of(&out))
            }
        },
    }
}

/// The trimmed value if it is an `http(s)` URL.
pub open spec fn http_value(o: Option<Seq<char>>) -> Option<Seq<char>> {
    match o {
        None => None,
        Some(s) => if is_http(trim(s)) {
            Some(trim(s))
        } else {
            None
        },
    }
}

fn http_url(o: Option<&str>) -> (r: Option<Vec<char>>)
    ensures
        match r {
            Some(v) => http_value(opt_str_view(o)) == Some(v@),
            None => http_value(opt_str_view(o)) is None,
        },
{
    match o {
        None => None,
        Some(s) => {
            let t = chars_of(s);
            let t = trim_of(&t);
            if is_http_exec(&t) {
                Some(t)
            } else {
                None
            }
        },
    }
}

/// The trimmed value when it is non-empty.
pub open spec fn nonblank(o: Option<Seq<char>>) -> Option<Seq<char>> {
    match o {
        None => None,
        Some(s) => if trim(s).len() > 0 {
            Some(trim(s))
        } else {
            None
        },
    }
}

/// One `<meta>` line with an escaped `content` value.
pub open spec fn meta_line(open: Seq<char>, value: Seq<char>) -> Seq<char> {
    open + escape(value) + "\">\n"@
}

/// The `<head>` snippet built by [`unfurl_meta_html`].
pub open spec fn unfurl_html(
    title: Seq<char>,
    description: Seq<char>,
    site_name: Seq<char>,
    og_type: Seq<char>,
    page_url: Option<Seq<char>>,
    og_image: Option<Seq<char>>,
    published_time: Option<Seq<char>>,
) -> Seq<char> {
    let image = http_value(og_image);
    let card = if image is Some {
        "summary_large_image"@
    } else {
        "summary"@
    };
    meta_line("  <meta name=\"description\" content=\""@, description) + meta_line(
        "  <meta property=\"og:title\" content=\""@,
        title,
    ) + meta_line("  <meta property=\"og:description\" content=\""@, description) + meta_line(
        "  <meta property=\"og:type\" content=\""@,
        og_type,
    ) + meta_line("  <meta property=\"og:site_name\" content=\""@, site_name) + match http_value(
        page_url,
    ) {
        Some(u) => meta_line("  <link rel=\"canonical\" href=\""@, u) + meta_line(
            "  <meta property=\"og:url\" content=\""@,
            u,
        ),
        None => seq![],
    } + match image {
        Some(i) => meta_line("  <meta property=\"og:image\" content=\""@, i) + meta_line(
            "  <meta name=\"twitter:image\" content=\""@,
            i,
        ),
        None => seq![],
    } + match nonblank(published_time) {
        Some(t) => meta_line("  <meta property=\"article:published_time\" content=\""@, t),
        None => seq![],
    } + "  <meta name=\"twitter:card\" content=\""@ + card + "\">\n"@ + meta_line(
        "  <meta name=\"twitter:title\" content=\""@,
        title,
    ) + meta_line("  <meta name=\"twitter:description\" content=\""@, description)
}

fn push_meta(out: &mut Vec<char>, open: &str, value: &[char])
    ensures
        final(out)@ == old(out)@ + meta_line(open@, value@),
{
    push_str(out, open);
    push_escaped(out, value);
    push_str(out, "\">\n");
}

/// `<head>` snippet: description, Open Graph, Twitter Card, optional canonical.
pub fn unfurl_meta_html(
    title: &str,
    description: &str,
    site_name: &str,
    og_type: &str,
    page_url: Option<&str>,
    og_image: Option<&str>,
    published_time: Option<&str>,
) -> (r: String)
    ensures
        r@ == unfurl_html(
            title@,
            description@,
            site_name@,
            og_type@,
            opt_str_view(page_url),
            opt_str_view(og_image),
            opt_str_view(published_time),
        ),
{
    let tv = chars_of(title);
    let dv = chars_of(description);
    let sv = chars_of(site_name);
    let ov = chars_of(og_type);
    let image = http_url(og_image);
    let mut out: Vec<char> = Vec::new();
    push_meta(&mut out, "  <meta name=\"description\" content=\"", &dv);
    push_meta(&mut out, "  <meta property=\"og:title\" content=\"", &tv);
    push_meta(&mut out, "  <meta property=\"og:description\" content=\"", &dv);
    push_meta(&mut out, "  <meta property=\"og:type\" content=\"", &ov);
    push_meta(&mut out, "  <meta property=\"og:site_name\" content=\"", &sv);
    let ghost a = out@;
    match http_url(page_url) {
        Some(u) => {
            push_meta(&mut out, "  <link rel=\"canonical\" href=\"", &u);
            push_meta(&mut out, "  <meta property=\"og:url\" content=\"", &u);
        },
        None => {},
    }
    let ghost b = out@;
    match &image {
        Some(i) => {
            push_meta(&mut out, "  <meta property=\"og:image\" content=\"", i);
            push_meta(&mut out, "  <meta name=\"twitter:image\" content=\"", i);
        },
        None => {},
    }
    let ghost c = out@;
    match published_time {
        Some(t) => {
            let tv2 = chars_of(t);
            let tt = trim_of(&tv2);
            if tt.len() > 0 {
                push_meta(&mut out, "  <meta property=\"article:published_time\" content=\"", &tt);
            }
        },
        None => {},
    }
    let ghost d = out@;
    push_str(&mut out, "  <meta name=\"twitter:card\" content=\"");
    if image.is_some() {
        push_str(&mut out, "summary_large_image");
    } else {
        push_str(&mut out, "summary");
    }
    push_str(&mut out, "\">\n");
    push_meta(&mut out, "  <meta name=\"twitter:title\" content=\"", &tv);
    push_meta(&mut out, "  <meta name=\"twitter:description\" content=\"", &dv);
    proof {
        assert(out@ =~= unfurl_html(
            title@,
            description@,
            site_name@,
            og_type@,
            opt_str_view(page_url),
            opt_str_view(og_image),
            opt_str_view(published_time),
        ));
    }
    string_of(&out)
}

} // verus!
