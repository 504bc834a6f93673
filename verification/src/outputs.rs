//! Output paths and generated pages of the weekly editions.
//!
//! Message bodies are not written under the outputs directory; citations use
//! lore permalinks. Paths are `/`-separated strings.
use crate::ids::{file_stem, file_stem_for_id};
use crate::lore::{lore_url, lore_url_for_message_id};
use crate::numfmt::decimal;
use crate::text::{after_prefix, chars_of, has_prefix, is_ctrl, lines, push_str, replace_all, string_of, trim, trim_slice};
use crate::week::{MAX_DAY, MIN_DAY, WeekDate, format_ymd, ymd_format_text};
use vstd::prelude::*;

verus! {

broadcast use {vstd::string::group_string_axioms, vstd::seq_lib::group_to_multiset_ensures};

/// `Path::join` of a relative path: `rel` alone under an empty base, else
/// the two joined by one `/`.
pub open spec fn path_join(base: Seq<char>, rel: Seq<char>) -> Seq<char> {
    if base.len() == 0 {
        rel
    } else if base.last() == '/' {
        base + rel
    } else {
        base + "/"@ + rel
    }
}

pub fn join_path(base: &str, rel: &str) -> (r: String)
    ensures
        r@ == path_join(base@, rel@),
{
    let mut out = chars_of(base);
    if out.len() > 0 && out[out.len() - 1] != '/' {
        out.push('/');
    }
    push_str(&mut out, rel);
    let s = string_of(&out);
    proof {
        reveal_strlit("/");
        assert(s@ =~= path_join(base@, rel@));
    }
    s
}

/// `{outputs}/{YYYY-MM-DD}`.
pub fn week_dir(outputs_path: &str, w: WeekDate) -> (r: String)
    ensures
        r@ == path_join(outputs_path@, ymd_format_text(w.day())),
{
    let name = format_ymd(w.days());
    join_path(outputs_path, name.as_str())
}

/// Root catalog: `{outputs}/index.md`.
pub fn root_index_path(outputs_path: &str) -> (r: String)
    ensures
        r@ == path_join(outputs_path@, "index.md"@),
{
    join_path(outputs_path, "index.md")
}

/// Exclusive lock file: `{outputs}/.summarize-week.lock`.
pub fn summarize_lock_path(outputs_path: &str) -> (r: String)
    ensures
        r@ == path_join(outputs_path@, ".summarize-week.lock"@),
{
    join_path(outputs_path, ".summarize-week.lock")
}

/// `{outputs}/{W}/index.md`.
pub fn week_index_path(outputs_path: &str, w: WeekDate) -> (r: String)
    ensures
        r@ == path_join(path_join(outputs_path@, ymd_format_text(w.day())), "index.md"@),
{
    let d = week_dir(outputs_path, w);
    join_path(d.as_str(), "index.md")
}

/// `{outputs}/{W}/.complete`.
pub fn complete_marker_path(outputs_path: &str, w: WeekDate) -> (r: String)
    ensures
        r@ == path_join(path_join(outputs_path@, ymd_format_text(w.day())), ".complete"@),
{
    let d = week_dir(outputs_path, w);
    join_path(d.as_str(), ".complete")
}

/// `{outputs}/{W}/.thread-order.json`.
pub fn thread_order_path(outputs_path: &str, w: WeekDate) -> (r: String)
    ensures
        r@ == path_join(path_join(outputs_path@, ymd_format_text(w.day())), ".thread-order.json"@),
{
    let d = week_dir(outputs_path, w);
    join_path(d.as_str(), ".thread-order.json")
}

/// `{outputs}/{W}/thread`.
pub fn thread_dir(outputs_path: &str, w: WeekDate) -> (r: String)
    ensures
        r@ == path_join(path_join(outputs_path@, ymd_format_text(w.day())), "thread"@),
{
    let d = week_dir(outputs_path, w);
    join_path(d.as_str(), "thread")
}

/// `{outputs}/{W}/thread/{stem}.md` for a thread root id (any form; normalized inside).
pub fn thread_markdown_path(outputs_path: &str, w: WeekDate, thread_root_id: &str) -> (r: String)
    ensures
        r@ == path_join(
            path_join(path_join(outputs_path@, ymd_format_text(w.day())), "thread"@),
            file_stem(thread_root_id@) + ".md"@,
        ),
{
    let d = thread_dir(outputs_path, w);
    let mut name = chars_of(file_stem_for_id(thread_root_id).as_str());
    push_str(&mut name, ".md");
    let n = string_of(&name);
    join_path(d.as_str(), n.as_str())
}

/// Glob pattern (relative to the outputs directory) for every week's file
/// of a thread: `*/thread/{stem}.md`.
pub fn prior_thread_glob_pattern(thread_root_id: &str) -> (r: String)
    ensures
        r@ == "*/thread/"@ + file_stem(thread_root_id@) + ".md"@,
{
    let mut out: Vec<char> = Vec::new();
    push_str(&mut out, "*/thread/");
    let stem = file_stem_for_id(thread_root_id);
    push_str(&mut out, stem.as_str());
    push_str(&mut out, ".md");
    string_of(&out)
}

// ───────────────────────── YAML scalars ─────────────────────────

pub open spec fn hex_digit(n: int) -> char {
    if n < 10 {
        ((n + 48) as u32) as char
    } else {
        ((n + 87) as u32) as char
    }
}

/// The escape of one character inside a double-quoted YAML scalar.
pub open spec fn yaml_escape(c: char) -> Seq<char> {
    if c == '\\' {
        "\\\\"@
    } else if c == '"' {
        "\\\""@
    } else if c == '\n' {
        "\\n"@
    } else if c == '\r' {
        "\\r"@
    } else if c == '\t' {
        "\\t"@
    } else if is_ctrl(c) {
        let u = c as u32 as int;
        "\\u"@ + seq![hex_digit(u / 4096), hex_digit((u / 256) % 16), hex_digit((u / 16) % 16), hex_digit(u % 16)]
    } else {
        seq![c]
    }
}

pub open spec fn yaml_escaped(s: Seq<char>) -> Seq<char>
    decreases s.len(),
{
    if s.len() == 0 {
        seq![]
    } else {
        yaml_escaped(s.drop_last()) + yaml_escape(s.last())
    }
}

pub(crate) fn hex_char(n: u32) -> (c: char)
    requires
        n < 16,
    ensures
        c == hex_digit(n as int),
{
    if n < 10 {
        (n + 48) as u8 as char
    } else {
        (n + 87) as u8 as char
    }
}

/// Escape a string for a double-quoted YAML scalar (quotes included).
pub fn yaml_double_quoted(s: &str) -> (r: String)
    ensures
        r@ == "\""@ + yaml_escaped(s@) + "\""@,
{
    let cs = chars_of(s);
    let mut out: Vec<char> = Vec::new();
    out.push('"');
    proof {
        reveal_strlit("\"");
        assert(cs@.take(0) =~= Seq::<char>::empty());
        assert(out@ =~= "\""@ + yaml_escaped(cs@.take(0)));
    }
    let mut i: usize = 0;
    while i < cs.len()
        invariant
            i <= cs@.len(),
            out@ == "\""@ + yaml_escaped(cs@.take(i as int)),
        decreases cs@.len() - i,
    {
        let c = cs[i];
        let ghost before = out@;
        if c == '\\' {
            push_str(&mut out, "\\\\");
        } else if c == '"' {
            push_str(&mut out, "\\\"");
        } else if c == '\n' {
            push_str(&mut out, "\\n");
        } else if c == '\r' {
            push_str(&mut out, "\\r");
        } else if c == '\t' {
            push_str(&mut out, "\\t");
        } else if crate::text::is_control(c) {
            let u = c as u32;
            push_str(&mut out, "\\u");
            out.push(hex_char(u / 4096 % 16));
            out.push(hex_char((u / 256) % 16));
            out.push(hex_char((u / 16) % 16));
            out.push(hex_char(u % 16));
            proof {
                assert(u <= 0x9f);
                assert(u / 4096 % 16 == u / 4096);
            }
        } else {
            out.push(c);
        }
        proof {
            assert(cs@.take(i + 1).drop_last() =~= cs@.take(i as int));
            assert(cs@.take(i + 1).last() == c);
            assert(out@ =~= before + yaml_escape(c));
        }
        i = i + 1;
    }
    out.push('"');
    proof {
        assert(cs@.take(i as int) =~= cs@);
    }
    let r = string_of(&out);
    proof {
        reveal_strlit("\"");
        assert(r@ =~= "\""@ + yaml_escaped(s@) + "\""@);
    }
    r
}

// ───────────────────────── week pages ─────────────────────────

pub open spec fn empty_week_text(w: int) -> Seq<char> {
    "---\nweek_ending: "@ + "\""@ + yaml_escaped(ymd_format_text(w)) + "\""@
        + "\nheadline: \"No activity\"\nempty: true\n---\n\n# No mailing list activity in this week.\n\nNo messages in the database fell within the UTC window\n`["@
        + ymd_format_text(w - 6) + " 00:00:00 UTC, "@ + ymd_format_text(w + 1) + " 00:00:00 UTC)`.\n"@
}

/// Empty-week `W/index.md` content.
pub fn format_empty_week_index(w: WeekDate) -> (r: String)
    requires
        MIN_DAY <= w.day() - 6,
        w.day() + 1 <= MAX_DAY,
    ensures
        r@ == empty_week_text(w.day()),
{
    let d = w.days();
    let week_s = format_ymd(d);
    let q = yaml_double_quoted(week_s.as_str());
    let start = format_ymd(d - 6);
    let end = format_ymd(d + 1);
    let mut out: Vec<char> = Vec::new();
    push_str(&mut out, "---\nweek_ending: ");
    push_str(&mut out, q.as_str());
    push_str(&mut out, "\nheadline: \"No activity\"\nempty: true\n---\n\n# No mailing list activity in this week.\n\nNo messages in the database fell within the UTC window\n`[");
    push_str(&mut out, start.as_str());
    push_str(&mut out, " 00:00:00 UTC, ");
    push_str(&mut out, end.as_str());
    push_str(&mut out, " 00:00:00 UTC)`.\n");
    let r = string_of(&out);
    proof {
        assert(r@ =~= empty_week_text(w.day()));
    }
    r
}

/// The text of `NaiveDate::format("%B %Y")` (full month name and year).
pub uninterp spec fn month_year_text(day: int) -> Seq<char>;

/// `NaiveDate::format("%B %Y")` for a date in range.
#[verifier::external_body]
fn month_year_string(days: i32) -> (s: String)
    requires
        MIN_DAY <= days <= MAX_DAY,
    ensures
        s@ == month_year_text(days as int),
{
    match chrono::NaiveDate::from_num_days_from_ce_opt(days) {
        Some(d) => d.format("%B %Y").to_string(),
        None => String::new(),
    }
}

/// One line in the root catalog.
#[derive(Debug, Clone)]
pub struct RootIndexEntry {
    pub week: WeekDate,
    pub headline: String,
}

pub open spec fn default_site_title() -> Seq<char> {
    "Mailing List Weekly Summaries"@
}

pub open spec fn catalog_line(e: RootIndexEntry) -> Seq<char> {
    "- [Week ending "@ + ymd_format_text(e.week.day()) + "]("@ + ymd_format_text(e.week.day())
        + "/index.md) — "@ + e.headline@ + "\n"@
}

/// The catalog block of entry `k`: a month heading when the month changes, then its line.
pub open spec fn catalog_block(es: Seq<RootIndexEntry>, k: int) -> Seq<char> {
    let month = month_year_text(es[k].week.day());
    let heading = if k == 0 {
        "## "@ + month + "\n\n"@
    } else if month_year_text(es[k - 1].week.day()) != month {
        "\n## "@ + month + "\n\n"@
    } else {
        seq![]
    };
    heading + catalog_line(es[k])
}

pub open spec fn catalog_blocks(es: Seq<RootIndexEntry>, n: int) -> Seq<char>
    decreases n,
{
    if n <= 0 {
        seq![]
    } else {
        catalog_blocks(es, n - 1) + catalog_block(es, n - 1)
    }
}

pub open spec fn root_index_text(es: Seq<RootIndexEntry>, site_title: Seq<char>) -> Seq<char> {
    let title = if trim(site_title).len() == 0 { default_site_title() } else { trim(site_title) };
    "# "@ + title + "\n\n"@ + (if es.len() == 0 {
        "_No editions yet._\n"@
    } else {
        catalog_blocks(es, es.len() as int)
    })
}

/// Render the root `index.md`: the given entries (newest first) under a
/// heading for each week-ending month.
pub fn format_root_index(entries: &[RootIndexEntry], site_title: &str) -> (r: String)
    ensures
        r@ == root_index_text(entries@, site_title@),
{
    let t = trim_slice(site_title);
    let mut out: Vec<char> = Vec::new();
    push_str(&mut out, "# ");
    if t.is_empty() {
        push_str(&mut out, "Mailing List Weekly Summaries");
    } else {
        push_str(&mut out, t);
    }
    push_str(&mut out, "\n\n");
    if entries.len() == 0 {
        push_str(&mut out, "_No editions yet._\n");
        let r = string_of(&out);
        proof {
            assert(r@ =~= root_index_text(entries@, site_title@));
        }
        return r;
    }
    let ghost head = out@;
    let mut last_month: Vec<char> = Vec::new();
    let mut k: usize = 0;
    while k < entries.len()
        invariant
            k <= entries@.len(),
            out@ == head + catalog_blocks(entries@, k as int),
            k > 0 ==> last_month@ == month_year_text(entries@[k - 1].week.day()),
        decreases entries@.len() - k,
    {
        let e = &entries[k];
        let month = month_year_string(e.week.days());
        let mc = chars_of(month.as_str());
        let ghost before = out@;
        if k == 0 {
            push_str(&mut out, "## ");
            push_str(&mut out, month.as_str());
            push_str(&mut out, "\n\n");
        } else if !crate::text::chars_eq(&last_month, &mc) {
            push_str(&mut out, "\n## ");
            push_str(&mut out, month.as_str());
            push_str(&mut out, "\n\n");
        }
        let w = format_ymd(e.week.days());
        push_str(&mut out, "- [Week ending ");
        push_str(&mut out, w.as_str());
        push_str(&mut out, "](");
        push_str(&mut out, w.as_str());
        push_str(&mut out, "/index.md) — ");
        push_str(&mut out, e.headline.as_str());
        push_str(&mut out, "\n");
        proof {
            assert(out@ =~= before + catalog_block(entries@, k as int));
        }
        last_month = mc;
        k = k + 1;
    }
    let r = string_of(&out);
    proof {
        assert(r@ =~= root_index_text(entries@, site_title@));
    }
    r
}

pub open spec fn message_item_text(lore_base: Seq<char>, it: (String, String, String, String)) -> Seq<char> {
    "- ["@ + it.0@ + " "@ + it.1@ + " — "@ + it.2@ + "]("@ + lore_url(lore_base, it.3@) + ")\n"@
}

pub open spec fn message_items_text(lore_base: Seq<char>, items: Seq<(String, String, String, String)>) -> Seq<char>
    decreases items.len(),
{
    if items.len() == 0 {
        seq![]
    } else {
        message_items_text(lore_base, items.drop_last()) + message_item_text(lore_base, items.last())
    }
}

/// Host-built markdown list of a thread's messages `(date label, from,
/// subject, message id)`, each linking to its lore permalink.
pub fn format_message_list_lore(lore_base: &str, items: &[(String, String, String, String)]) -> (r: String)
    ensures
        r@ == "## Messages this week\n\n"@ + message_items_text(lore_base@, items@),
{
    let mut out: Vec<char> = Vec::new();
    push_str(&mut out, "## Messages this week\n\n");
    let ghost head = out@;
    let mut k: usize = 0;
    while k < items.len()
        invariant
            k <= items@.len(),
            out@ == head + message_items_text(lore_base@, items@.take(k as int)),
        decreases items@.len() - k,
    {
        let ghost before = out@;
        push_str(&mut out, "- [");
        push_str(&mut out, items[k].0.as_str());
        push_str(&mut out, " ");
        push_str(&mut out, items[k].1.as_str());
        push_str(&mut out, " — ");
        push_str(&mut out, items[k].2.as_str());
        push_str(&mut out, "](");
        let url = lore_url_for_message_id(lore_base, items[k].3.as_str());
        push_str(&mut out, url.as_str());
        push_str(&mut out, ")\n");
        proof {
            assert(items@.take(k + 1).drop_last() =~= items@.take(k as int));
            assert(items@.take(k + 1).last() == items@[k as int]);
            assert(out@ =~= before + message_item_text(lore_base@, items@[k as int]));
        }
        k = k + 1;
    }
    proof {
        assert(items@.take(k as int) =~= items@);
    }
    string_of(&out)
}

// ───────────────────────── headlines ─────────────────────────

/// The value of a `headline:` line: a double-quoted value loses its quotes
/// and its `\"`, `\\` escapes; any other value stays as it is.
pub open spec fn headline_value(v: Seq<char>) -> Seq<char> {
    if v.len() >= 2 && v[0] == '"' && v.last() == '"' {
        replace_all(replace_all(v.subrange(1, v.len() - 1), "\\\""@, "\""@), "\\\\"@, "\\"@)
    } else {
        v
    }
}

/// The headline among the lines `ls[k..20]`: the first trimmed line that starts with `headline:`.
pub open spec fn headline_from(ls: Seq<Seq<char>>, k: int) -> Option<Seq<char>>
    decreases 20 - k,
{
    if k >= 20 || k >= ls.len() || k < 0 {
        None
    } else if has_prefix(trim(ls[k]), "headline:"@) {
        Some(headline_value(trim(after_prefix(trim(ls[k]), "headline:"@))))
    } else {
        headline_from(ls, k + 1)
    }
}

/// The headline in the front matter of a week's `index.md` text, if any
/// (within its first 20 lines).
pub fn headline_of_index(text: &str) -> (r: Option<String>)
    ensures
        match r {
            Some(h) => headline_from(lines(text@), 0) == Some(h@),
            None => headline_from(lines(text@), 0) is None,
        },
{
    let cs = chars_of(text);
    let ls = crate::text::lines_of(&cs);
    let ghost lv = lines(text@);
    let mut k: usize = 0;
    while k < ls.len() && k < 20
        invariant
            k <= 20,
            lv == lines(text@),
            ls@.map_values(|l: Vec<char>| l@) == lv,
            headline_from(lv, 0) == headline_from(lv, k as int),
        decreases 20 - k,
    {
        let line = crate::text::trim_of(&ls[k]);
        if crate::text::starts_with_str(&line, "headline:") {
            proof {
                reveal_strlit("headline:");
                assert(lv[k as int] == ls@[k as int]@);
            }
            let rest = copy_range_after(&line, 9);
            let v = crate::text::trim_of(&rest);
            proof {
                assert(ls@.len() == lv.len());
                assert(trim(lv[k as int]) == line@);
                assert(after_prefix(line@, "headline:"@) == rest@);
                assert(headline_from(lv, k as int) == Some(headline_value(v@)));
            }
            if v.len() >= 2 && v[0] == '"' && v[v.len() - 1] == '"' {
                let inner = crate::text::copy_range(&v, 1, v.len() - 1);
                proof {
                    reveal_strlit("\\\"");
                    reveal_strlit("\\\\");
                    reveal_strlit("\"");
                    reveal_strlit("\\");
                }
                let a = crate::text::replace_all_of(&inner, &chars_of("\\\""), &chars_of("\""));
                let b = crate::text::replace_all_of(&a, &chars_of("\\\\"), &chars_of("\\"));
                return Some(string_of(&b));
            }
            return Some(string_of(&v));
        }
        proof {
            assert(lv[k as int] == ls@[k as int]@);
            assert(ls@.len() == lv.len());
        }
        k = k + 1;
    }
    None
}

fn copy_range_after(v: &Vec<char>, n: usize) -> (r: Vec<char>)
    requires
        n <= v@.len(),
    ensures
        r@ == v@.subrange(n as int, v@.len() as int),
{
    crate::text::copy_range(v, n, v.len())
}

/// The weeks of the root catalog, newest first: the complete weeks, plus
/// `extra_week` (a week about to be marked complete) when it is not among them.
pub fn catalog_weeks(complete: &[WeekDate], extra_week: Option<WeekDate>) -> (r: Vec<WeekDate>)
    ensures
        forall|a: int, b: int| 0 <= a < b < r@.len() ==> r@[a].day() >= r@[b].day(),
        r@.to_multiset() == (if extra_week is Some && !complete@.contains(extra_week->0) {
            complete@.push(extra_week->0)
        } else {
            complete@
        }).to_multiset(),
{
    let mut all: Vec<WeekDate> = Vec::new();
    let mut c: usize = 0;
    while c < complete.len()
        invariant
            c <= complete@.len(),
            all@ == complete@.take(c as int),
        decreases complete@.len() - c,
    {
        all.push(complete[c]);
        proof {
            assert(complete@.take(c + 1) =~= complete@.take(c as int).push(complete@[c as int]));
        }
        c = c + 1;
    }
    proof {
        assert(complete@.take(c as int) =~= complete@);
    }
    if let Some(w) = extra_week {
        let mut found = false;
        let mut i: usize = 0;
        while i < complete.len()
            invariant
                i <= complete@.len(),
                found == exists|j: int| 0 <= j < i && complete@[j] == w,
            decreases complete@.len() - i,
        {
            if complete[i].days() == w.days() {
                proof {
                    crate::week::lemma_same_day(complete@[i as int], w);
                }
                found = true;
            }
            proof {
                if complete@[i as int] == w {
                    assert(complete@[i as int].day() == w.day());
                }
            }
            i = i + 1;
        }
        if !found {
            all.push(w);
        }
    }
    let ghost src = all@;
    let mut out: Vec<WeekDate> = Vec::new();
    let mut i: usize = 0;
    while i < all.len()
        invariant
            i <= all@.len(),
            all@ == src,
            forall|a: int, b: int| 0 <= a < b < out@.len() ==> out@[a].day() >= out@[b].day(),
            out@.to_multiset() == src.take(i as int).to_multiset(),
        decreases all@.len() - i,
    {
        let x = all[i];
        let xd = x.days();
        let mut k: usize = 0;
        while k < out.len() && out[k].days() >= xd
            invariant
                k <= out@.len(),
                xd == x.day(),
                forall|j: int| 0 <= j < k ==> out@[j].day() >= x.day(),
            decreases out@.len() - k,
        {
            k = k + 1;
        }
        let ghost before = out@;
        out.insert(k, x);
        proof {
            before.insert_ensures(k as int, x);
            assert forall|a: int, b: int| 0 <= a < b < out@.len() implies out@[a].day() >= out@[b].day() by {
                if b < k {
                } else if b == k {
                } else if a < k {
                    assert(out@[b] == before[b - 1]);
                } else if a == k {
                    assert(out@[b] == before[b - 1]);
                    if b - 1 > k {
                        assert(before[k as int].day() >= before[b - 1].day());
                    }
                } else {
                    assert(out@[a] == before[a - 1]);
                    assert(out@[b] == before[b - 1]);
                }
            }
            assert(src.take(i + 1) =~= src.take(i as int).push(x));
            assert(out@.to_multiset() == before.to_multiset().insert(x));
            assert(src.take(i + 1).to_multiset() == src.take(i as int).to_multiset().insert(x));
        }
        i = i + 1;
    }
    proof {
        assert(src.take(i as int) =~= src);
    }
    out
}

pub open spec fn overrides(o: Option<(WeekDate, &str)>, w: WeekDate) -> bool {
    match o {
        Some((ow, _)) => ow == w,
        None => false,
    }
}

pub open spec fn override_text(o: Option<(WeekDate, &str)>) -> Seq<char> {
    match o {
        Some((_, h)) => h@,
        None => seq![],
    }
}

pub open spec fn placeholder_headline() -> Seq<char> {
    "…"@
}

/// The catalog entries for `weeks` (in that order): the overriding headline
/// for its week, else the headline read from the week's index (`read[k]`),
/// else `…`.
pub fn root_entries(weeks: &[WeekDate], override_headline: Option<(WeekDate, &str)>, read: &Vec<Option<String>>) -> (r: Vec<RootIndexEntry>)
    requires
        read@.len() == weeks@.len(),
    ensures
        r@.len() == weeks@.len(),
        forall|k: int|
            0 <= k < r@.len() ==> {
                let e = #[trigger] r@[k];
                &&& e.week == weeks@[k]
                &&& e.headline@ == (if overrides(override_headline, weeks@[k]) {
                    override_text(override_headline)
                } else {
                    match read@[k] {
                        Some(h) => h@,
                        None => placeholder_headline(),
                    }
                })
            },
{
    let mut out: Vec<RootIndexEntry> = Vec::new();
    let mut k: usize = 0;
    while k < weeks.len()
        invariant
            k <= weeks@.len(),
            read@.len() == weeks@.len(),
            out@.len() == k,
            forall|j: int|
                0 <= j < k ==> {
                    let e = #[trigger] out@[j];
                    &&& e.week == weeks@[j]
                    &&& e.headline@ == (if overrides(override_headline, weeks@[j]) {
                        override_text(override_headline)
                    } else {
                        match read@[j] {
                            Some(h) => h@,
                            None => placeholder_headline(),
                        }
                    })
                },
        decreases weeks@.len() - k,
    {
        let w = weeks[k];
        let mut chosen: Option<String> = None;
        if let Some((ow, h)) = override_headline {
            if ow.days() == w.days() {
                proof {
                    crate::week::lemma_same_day(ow, w);
                }
                chosen = Some(string_of(&chars_of(h)));
            } else {
                proof {
                    if ow == w {
                        assert(ow.day() == w.day());
                    }
                }
            }
        }
        let headline = match chosen {
            Some(h) => h,
            None => match &read[k] {
                Some(h) => h.clone(),
                None => string_of(&chars_of("…")),
            },
        };
        out.push(RootIndexEntry { week: w, headline });
        k = k + 1;
    }
    out
}

} // verus!
