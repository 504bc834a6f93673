//! The texts the host writes for the agents and around their answers:
//! user messages, the week's table of contents, the week and thread pages.
use crate::email_index::{EmailIndex, EmailMeta, rfc3339_string, rfc3339_text};
use crate::ids::{file_stem, file_stem_for_id};
use crate::numfmt::{decimal, push_decimal};
use crate::outputs::{format_message_list_lore, message_items_text, yaml_double_quoted, yaml_escaped};
use crate::summarize::ActiveThread;
use crate::text::{chars_eq, chars_of, push_str, string_of, strs, trim, trim_str};
use crate::tools::mail::{instant_ymd, instant_ymd_string};
use crate::week::{MAX_DAY, MIN_DAY, WeekDate, format_ymd, midnight, ymd_format_text};
use vstd::prelude::*;

verus! {

broadcast use vstd::string::group_string_axioms;

/// The subject paired with `root` (the first such pair).
pub open spec fn subject_of(pairs: Seq<(String, String)>, root: Seq<char>) -> Option<Seq<char>>
    decreases pairs.len(),
{
    if pairs.len() == 0 {
        None
    } else if pairs[0].0@ == root {
        Some(pairs[0].1@)
    } else {
        subject_of(pairs.drop_first(), root)
    }
}

fn find_subject(pairs: &[(String, String)], root: &str) -> (r: Option<String>)
    ensures
        match r {
            Some(s) => subject_of(pairs@, root@) == Some(s@),
            None => subject_of(pairs@, root@) is None,
        },
{
    let rc = chars_of(root);
    let mut i: usize = 0;
    assert(pairs@.skip(0) =~= pairs@);
    while i < pairs.len()
        invariant
            i <= pairs@.len(),
            rc@ == root@,
            subject_of(pairs@, root@) == subject_of(pairs@.skip(i as int), root@),
        decreases pairs@.len() - i,
    {
        proof {
            assert(pairs@.skip(i as int).drop_first() =~= pairs@.skip(i + 1));
            assert(pairs@.skip(i as int)[0] == pairs@[i as int]);
        }
        let k = chars_of(pairs[i].0.as_str());
        if chars_eq(&k, &rc) {
            return Some(pairs[i].1.clone());
        }
        i = i + 1;
    }
    None
}

pub open spec fn toc_line(root: Seq<char>, pairs: Seq<(String, String)>) -> Seq<char> {
    let subj = match subject_of(pairs, root) { Some(s) => s, None => root };
    "- ["@ + subj + "](thread/"@ + file_stem(root) + ".md)\n"@
}

pub open spec fn toc_lines(roots: Seq<String>, pairs: Seq<(String, String)>) -> Seq<char>
    decreases roots.len(),
{
    if roots.len() == 0 {
        seq![]
    } else {
        toc_lines(roots.drop_last(), pairs) + toc_line(roots.last()@, pairs)
    }
}

/// Host-built table of contents appended after the agent's week overview:
/// one link per ordered thread, labelled with its subject (or root id).
pub fn format_host_thread_toc(ordered_roots: &[String], by_subject: &[(String, String)]) -> (r: String)
    ensures
        r@ == "\n## Discussions this week\n\n"@ + toc_lines(ordered_roots@, by_subject@),
{
    let mut out: Vec<char> = Vec::new();
    push_str(&mut out, "\n## Discussions this week\n\n");
    let ghost head = out@;
    let mut k: usize = 0;
    while k < ordered_roots.len()
        invariant
            k <= ordered_roots@.len(),
            out@ == head + toc_lines(ordered_roots@.take(k as int), by_subject@),
        decreases ordered_roots@.len() - k,
    {
        let line = toc_line_chars(ordered_roots[k].as_str(), by_subject);
        crate::text::push_all(&mut out, &line);
        proof {
            let t = ordered_roots@.take(k + 1);
            assert(t.drop_last() =~= ordered_roots@.take(k as int));
            assert(t.last() == ordered_roots@[k as int]);
            assert(out@ =~= head + toc_lines(ordered_roots@.take(k + 1), by_subject@));
        }
        k = k + 1;
    }
    proof {
        assert(ordered_roots@.take(ordered_roots@.len() as int) =~= ordered_roots@);
    }
    string_of(&out)
}

fn toc_line_chars(root: &str, by_subject: &[(String, String)]) -> (r: Vec<char>)
    ensures
        r@ == toc_line(root@, by_subject@),
{
    let subj = match find_subject(by_subject, root) {
        Some(s) => s,
        None => string_of(&chars_of(root)),
    };
    let mut out: Vec<char> = Vec::new();
    push_str(&mut out, "- [");
    push_str(&mut out, subj.as_str());
    push_str(&mut out, "](thread/");
    let stem = file_stem_for_id(root);
    push_str(&mut out, stem.as_str());
    push_str(&mut out, ".md)\n");
    proof {
        assert(out@ =~= toc_line(root@, by_subject@));
    }
    out
}

/// A week's `index.md`: front matter (week, headline), the headline as
/// title, the week line, the agent's overview and the host's table of contents.
pub open spec fn week_index_text(week: int, headline: Seq<char>, agent_body: Seq<char>, toc: Seq<char>) -> Seq<char> {
    let week_s = ymd_format_text(week);
    "---\n"@ + ("week_ending: "@ + ("\""@ + yaml_escaped(week_s) + "\""@) + "\n"@)
        + ("headline: "@ + ("\""@ + yaml_escaped(headline) + "\""@) + "\n"@) + "empty: false\n---\n\n"@
        + ("# "@ + headline + "\n\n"@) + ("*Week ending "@ + week_s + "*\n\n"@) + trim(agent_body) + "\n"@ + toc
}

pub fn format_week_index(week: WeekDate, headline: &str, agent_body: &str, toc: &str) -> (r: String)
    ensures
        r@ == week_index_text(week.day(), headline@, agent_body@, toc@),
{
    let week_s = format_ymd(week.days());
    let mut out: Vec<char> = Vec::new();
    push_str(&mut out, "---\n");
    let mut f1 = chars_of("week_ending: ");
    let q1 = yaml_double_quoted(week_s.as_str());
    push_str(&mut f1, q1.as_str());
    push_str(&mut f1, "\n");
    crate::text::push_all(&mut out, &f1);
    let mut f2 = chars_of("headline: ");
    let q2 = yaml_double_quoted(headline);
    push_str(&mut f2, q2.as_str());
    push_str(&mut f2, "\n");
    crate::text::push_all(&mut out, &f2);
    push_str(&mut out, "empty: false\n---\n\n");
    let mut f3 = chars_of("# ");
    push_str(&mut f3, headline);
    push_str(&mut f3, "\n\n");
    crate::text::push_all(&mut out, &f3);
    let mut f4 = chars_of("*Week ending ");
    push_str(&mut f4, week_s.as_str());
    push_str(&mut f4, "*\n\n");
    crate::text::push_all(&mut out, &f4);
    let body = trim_str(agent_body);
    crate::text::push_all(&mut out, &body);
    push_str(&mut out, "\n");
    push_str(&mut out, toc);
    let r = string_of(&out);
    proof {
        assert(r@ =~= week_index_text(week.day(), headline@, agent_body@, toc@));
    }
    r
}

pub open spec fn week_thread_line(i: int, root: Seq<char>, pairs: Seq<(String, String)>, week_s: Seq<char>) -> Seq<char> {
    let subj = match subject_of(pairs, root) { Some(s) => s, None => "(unknown subject)"@ };
    decimal((i + 1) as nat) + ". subject="@ + subj + "\n   root_id="@ + root + "\n   path="@ + week_s + "/thread/"@
        + file_stem(root) + ".md\n"@
}

fn week_line(k: usize, root: &str, by_subject: &[(String, String)], week_s: &str) -> (r: Vec<char>)
    requires
        k < usize::MAX,
    ensures
        r@ == week_thread_line(k as int, root@, by_subject@, week_s@),
{
    let subj = match find_subject(by_subject, root) {
        Some(s) => s,
        None => string_of(&chars_of("(unknown subject)")),
    };
    let mut out: Vec<char> = Vec::new();
    push_decimal(&mut out, k + 1);
    push_str(&mut out, ". subject=");
    push_str(&mut out, subj.as_str());
    push_str(&mut out, "\n   root_id=");
    push_str(&mut out, root);
    push_str(&mut out, "\n   path=");
    push_str(&mut out, week_s);
    push_str(&mut out, "/thread/");
    let stem = file_stem_for_id(root);
    push_str(&mut out, stem.as_str());
    push_str(&mut out, ".md\n");
    proof {
        assert(out@ =~= week_thread_line(k as int, root@, by_subject@, week_s@));
    }
    out
}

pub open spec fn week_thread_lines(roots: Seq<String>, pairs: Seq<(String, String)>, week_s: Seq<char>, n: int) -> Seq<char>
    decreases n,
{
    if n <= 0 {
        seq![]
    } else {
        week_thread_lines(roots, pairs, week_s, n - 1) + week_thread_line(n - 1, roots[n - 1]@, pairs, week_s)
    }
}

pub open spec fn week_message_text(week: int, roots: Seq<String>, pairs: Seq<(String, String)>) -> Seq<char> {
    let week_s = ymd_format_text(week);
    "Week ending: "@ + week_s + "\nWindow (UTC half-open): ["@ + rfc3339_text(midnight(week - 6)) + ", "@
        + rfc3339_text(midnight(week + 1)) + ")\nThreads this week ("@ + decimal(roots.len()) + "):\n\n"@
        + week_thread_lines(roots, pairs, week_s, roots.len() as int)
        + "\nRead thread summaries as needed with ReadOutputFile using the paths above.\nSubmitWeekOverview with headline (for the site index) and markdown_body overview.\nPrefer relative links: thread/<stem>.md\n"@
}

/// The week overview agent's user message.
pub fn build_week_user_message(week: WeekDate, ordered_roots: &[String], by_subject: &[(String, String)]) -> (r: String)
    requires
        MIN_DAY <= week.day() - 6,
        week.day() + 1 <= MAX_DAY,
    ensures
        r@ == week_message_text(week.day(), ordered_roots@, by_subject@),
{
    let (start, end) = crate::week::week_window(week);
    let week_s = format_ymd(week.days());
    let mut out: Vec<char> = Vec::new();
    push_str(&mut out, "Week ending: ");
    push_str(&mut out, week_s.as_str());
    push_str(&mut out, "\nWindow (UTC half-open): [");
    let a = rfc3339_string(start);
    push_str(&mut out, a.as_str());
    push_str(&mut out, ", ");
    let b = rfc3339_string(end);
    push_str(&mut out, b.as_str());
    push_str(&mut out, ")\nThreads this week (");
    push_decimal(&mut out, ordered_roots.len());
    push_str(&mut out, "):\n\n");
    let ghost head = out@;
    let mut k: usize = 0;
    while k < ordered_roots.len()
        invariant
            k <= ordered_roots@.len(),
            out@ == head + week_thread_lines(ordered_roots@, by_subject@, week_s@, k as int),
        decreases ordered_roots@.len() - k,
    {
        let ghost before = out@;
        let line = week_line(k, ordered_roots[k].as_str(), by_subject, week_s.as_str());
        crate::text::push_all(&mut out, &line);
        proof {
            assert(out@ =~= head + week_thread_lines(ordered_roots@, by_subject@, week_s@, k + 1));
        }
        k = k + 1;
    }
    push_str(&mut out, "\nRead thread summaries as needed with ReadOutputFile using the paths above.\nSubmitWeekOverview with headline (for the site index) and markdown_body overview.\nPrefer relative links: thread/<stem>.md\n");
    let r = string_of(&out);
    proof {
        assert(r@ =~= week_message_text(week.day(), ordered_roots@, by_subject@));
    }
    r
}

pub open spec fn order_catalog_lines(active: Seq<ActiveThread>, n: int) -> Seq<char>
    decreases n,
{
    if n <= 0 {
        seq![]
    } else {
        order_catalog_lines(active, n - 1) + order_catalog_line(n - 1, active[n - 1])
    }
}

/// Catalog line `i` (counted from zero) of the ordering message.
pub open spec fn order_catalog_line(i: int, t: ActiveThread) -> Seq<char> {
    decimal((i + 1) as nat) + ". root_id="@ + t.root_id@ + " messages_this_week="@
        + decimal(t.message_indices@.len()) + " subject="@ + t.subject@ + "\n"@
}

fn catalog_line(i: usize, t: &ActiveThread) -> (r: Vec<char>)
    requires
        i < usize::MAX,
    ensures
        r@ == order_catalog_line(i as int, *t),
{
    let mut out: Vec<char> = Vec::new();
    push_decimal(&mut out, i + 1);
    push_str(&mut out, ". root_id=");
    push_str(&mut out, t.root_id.as_str());
    push_str(&mut out, " messages_this_week=");
    push_decimal(&mut out, t.message_indices.len());
    push_str(&mut out, " subject=");
    push_str(&mut out, t.subject.as_str());
    push_str(&mut out, "\n");
    proof {
        assert(out@ =~= order_catalog_line(i as int, *t));
    }
    out
}

pub open spec fn order_root_lines(active: Seq<ActiveThread>, n: int) -> Seq<char>
    decreases n,
{
    if n <= 0 {
        seq![]
    } else {
        order_root_lines(active, n - 1) + active[n - 1].root_id@ + "\n"@
    }
}

pub open spec fn order_message_text(week: int, active: Seq<ActiveThread>) -> Seq<char> {
    "Week ending: "@ + ymd_format_text(week) + "\nN_REQUIRED: "@ + decimal(active.len())
        + "\nOrder these discussions for serial summarization.\n\nCatalog:\n"@
        + order_catalog_lines(active, active.len() as int) + "\nREQUIRED_ROOT_IDS (exactly "@ + decimal(active.len())
        + "; copy each line exactly into ordered_root_ids):\n"@ + order_root_lines(active, active.len() as int)
        + "\nCall SubmitThreadOrder once with ordered_root_ids = a permutation of REQUIRED_ROOT_IDS (same count, no trailing commas).\n"@
}

/// The ordering agent's user message: the catalog of active threads and
/// the root ids it must order.
pub fn build_order_user_message(week: WeekDate, active: &[ActiveThread]) -> (r: String)
    ensures
        r@ == order_message_text(week.day(), active@),
{
    let week_s = format_ymd(week.days());
    let mut out: Vec<char> = Vec::new();
    push_str(&mut out, "Week ending: ");
    push_str(&mut out, week_s.as_str());
    push_str(&mut out, "\nN_REQUIRED: ");
    push_decimal(&mut out, active.len());
    push_str(&mut out, "\nOrder these discussions for serial summarization.\n\nCatalog:\n");
    let ghost head = out@;
    let mut k: usize = 0;
    while k < active.len()
        invariant
            k <= active@.len(),
            out@ == head + order_catalog_lines(active@, k as int),
        decreases active@.len() - k,
    {
        let line = catalog_line(k, &active[k]);
        crate::text::push_all(&mut out, &line);
        proof {
            assert(out@ =~= head + order_catalog_lines(active@, k + 1));
        }
        k = k + 1;
    }
    push_str(&mut out, "\nREQUIRED_ROOT_IDS (exactly ");
    push_decimal(&mut out, active.len());
    push_str(&mut out, "; copy each line exactly into ordered_root_ids):\n");
    let ghost head2 = out@;
    let mut j: usize = 0;
    while j < active.len()
        invariant
            j <= active@.len(),
            out@ == head2 + order_root_lines(active@, j as int),
        decreases active@.len() - j,
    {
        push_str(&mut out, active[j].root_id.as_str());
        push_str(&mut out, "\n");
        proof {
            assert(out@ =~= head2 + order_root_lines(active@, j + 1));
        }
        j = j + 1;
    }
    push_str(&mut out, "\nCall SubmitThreadOrder once with ordered_root_ids = a permutation of REQUIRED_ROOT_IDS (same count, no trailing commas).\n");
    let r = string_of(&out);
    proof {
        assert(r@ =~= order_message_text(week.day(), active@));
    }
    r
}

pub open spec fn thread_msg_lines(ms: Seq<EmailMeta>, idx: Seq<usize>, n: int) -> Seq<char>
    decreases n,
{
    if n <= 0 {
        seq![]
    } else {
        let m = ms[idx[n - 1] as int];
        thread_msg_lines(ms, idx, n - 1) + "  - "@ + instant_ymd(m.date as int) + " | "@ + m.from@ + " | "@
            + m.message_id@ + " | "@ + m.subject@ + "
"@
    }
}

pub open spec fn path_lines(ps: Seq<String>, n: int) -> Seq<char>
    decreases n,
{
    if n <= 0 {
        seq![]
    } else {
        path_lines(ps, n - 1) + "  - "@ + ps[n - 1]@ + "
"@
    }
}

fn push_path_lines(out: &mut Vec<char>, ps: &[String])
    ensures
        final(out)@ == old(out)@ + path_lines(ps@, ps@.len() as int),
{
    let ghost head = out@;
    let mut k: usize = 0;
    while k < ps.len()
        invariant
            k <= ps@.len(),
            out@ == head + path_lines(ps@, k as int),
        decreases ps@.len() - k,
    {
        push_str(out, "  - ");
        push_str(out, ps[k].as_str());
        push_str(out, "
");
        proof {
            assert(out@ =~= head + path_lines(ps@, k + 1));
        }
        k = k + 1;
    }
}

pub open spec fn thread_message_text(week: int, t: ActiveThread, ms: Seq<EmailMeta>, lore_base: Seq<char>,
    position: nat, total: nat, prior: Seq<String>, same_week: Seq<String>) -> Seq<char> {
    "Week ending: "@ + ymd_format_text(week) + "
Window (UTC half-open): ["@ + rfc3339_text(midnight(week - 6)) + ", "@
        + rfc3339_text(midnight(week + 1)) + ")
Thread root_id (normalized): "@ + t.root_id@ + "
Subject: "@
        + t.subject@ + "
Position in week order: "@ + decimal(position) + " of "@ + decimal(total) + "
"@
        + "Messages this week ("@ + decimal(t.message_indices@.len()) + "):
"@
        + thread_msg_lines(ms, t.message_indices@, t.message_indices@.len() as int)
        + (if prior.len() > 0 { "Cross-week prior summaries (ReadOutputFile these):
"@ + path_lines(prior, prior.len() as int) } else { seq![] })
        + (if same_week.len() > 0 { "Same-week predecessors already summarized (ReadOutputFile these):
"@ + path_lines(same_week, same_week.len() as int) } else { seq![] })
        + "Optional deeper history: GlobOutputs \""@ + "*/thread/"@ + file_stem(t.root_id@) + ".md"@ + "\"
"@
        + "Lore base for citations: "@ + lore_base + "
Write the weekly summary, then SubmitThreadSummary.
"@
}

/// The thread agent's user message.
pub fn build_thread_user_message(
    week: WeekDate,
    thread: &ActiveThread,
    index: &EmailIndex,
    lore_base: &str,
    position: usize,
    total: usize,
    prior: &[String],
    same_week: &[String],
) -> (r: String)
    requires
        MIN_DAY <= week.day() - 6,
        week.day() + 1 <= MAX_DAY,
        forall|k: int| 0 <= k < thread.message_indices@.len() ==> (#[trigger] thread.message_indices@[k] as int) < index.msgs().len(),
    ensures
        r@ == thread_message_text(week.day(), *thread, index.msgs(), lore_base@, position as nat, total as nat, prior@, same_week@),
{
    let (start, end) = crate::week::week_window(week);
    let ms = index.emails();
    let mut out: Vec<char> = Vec::new();
    push_str(&mut out, "Week ending: ");
    let week_s = format_ymd(week.days());
    push_str(&mut out, week_s.as_str());
    push_str(&mut out, "\nWindow (UTC half-open): [");
    let a = rfc3339_string(start);
    push_str(&mut out, a.as_str());
    push_str(&mut out, ", ");
    let b = rfc3339_string(end);
    push_str(&mut out, b.as_str());
    push_str(&mut out, ")\nThread root_id (normalized): ");
    push_str(&mut out, thread.root_id.as_str());
    push_str(&mut out, "\nSubject: ");
    push_str(&mut out, thread.subject.as_str());
    push_str(&mut out, "\nPosition in week order: ");
    push_decimal(&mut out, position);
    push_str(&mut out, " of ");
    push_decimal(&mut out, total);
    push_str(&mut out, "\n");
    push_str(&mut out, "Messages this week (");
    push_decimal(&mut out, thread.message_indices.len());
    push_str(&mut out, "):\n");
    let ghost head = out@;
    let mut k: usize = 0;
    while k < thread.message_indices.len()
        invariant
            k <= thread.message_indices@.len(),
            ms@ == index.msgs(),
            forall|j: int| 0 <= j < thread.message_indices@.len() ==> (#[trigger] thread.message_indices@[j] as int) < index.msgs().len(),
            out@ == head + thread_msg_lines(ms@, thread.message_indices@, k as int),
        decreases thread.message_indices@.len() - k,
    {
        let m = &ms[thread.message_indices[k]];
        push_str(&mut out, "  - ");
        let d = instant_ymd_string(m.date);
        push_str(&mut out, d.as_str());
        push_str(&mut out, " | ");
        push_str(&mut out, m.from.as_str());
        push_str(&mut out, " | ");
        push_str(&mut out, m.message_id.as_str());
        push_str(&mut out, " | ");
        push_str(&mut out, m.subject.as_str());
        push_str(&mut out, "\n");
        proof {
            assert(out@ =~= head + thread_msg_lines(ms@, thread.message_indices@, k + 1));
        }
        k = k + 1;
    }
    if prior.len() > 0 {
        push_str(&mut out, "Cross-week prior summaries (ReadOutputFile these):\n");
        push_path_lines(&mut out, prior);
    }
    if same_week.len() > 0 {
        push_str(&mut out, "Same-week predecessors already summarized (ReadOutputFile these):\n");
        push_path_lines(&mut out, same_week);
    }
    push_str(&mut out, "Optional deeper history: GlobOutputs \"");
    let g = crate::outputs::prior_thread_glob_pattern(thread.root_id.as_str());
    push_str(&mut out, g.as_str());
    push_str(&mut out, "\"\n");
    push_str(&mut out, "Lore base for citations: ");
    push_str(&mut out, lore_base);
    push_str(&mut out, "\nWrite the weekly summary, then SubmitThreadSummary.\n");
    let r = string_of(&out);
    proof {
        assert(r@ =~= thread_message_text(week.day(), *thread, index.msgs(), lore_base@, position as nat, total as nat, prior@, same_week@));
    }
    r
}

pub open spec fn quoted_lines(ms: Seq<EmailMeta>, idx: Seq<usize>, n: int) -> Seq<char>
    decreases n,
{
    if n <= 0 {
        seq![]
    } else {
        quoted_lines(ms, idx, n - 1) + "  - "@ + "\""@ + yaml_escaped(ms[idx[n - 1] as int].message_id@) + "\""@ + "\n"@
    }
}

pub open spec fn quoted_paths(ps: Seq<String>, n: int) -> Seq<char>
    decreases n,
{
    if n <= 0 {
        seq![]
    } else {
        quoted_paths(ps, n - 1) + "  - "@ + "\""@ + yaml_escaped(ps[n - 1]@) + "\""@ + "\n"@
    }
}

/// The lore-linked message list of a thread.
pub open spec fn lore_list_lines(ms: Seq<EmailMeta>, idx: Seq<usize>, lore_base: Seq<char>, n: int) -> Seq<char>
    decreases n,
{
    if n <= 0 {
        seq![]
    } else {
        let m = ms[idx[n - 1] as int];
        lore_list_lines(ms, idx, lore_base, n - 1) + "- ["@ + instant_ymd(m.date as int) + " "@ + m.from@ + " — "@
            + m.subject@ + "]("@ + crate::lore::lore_url(lore_base, m.message_id@) + ")\n"@
    }
}

/// `label` followed by `v` as a double-quoted YAML scalar.
pub open spec fn quoted_field(label: Seq<char>, v: Seq<char>) -> Seq<char> {
    label + ("\""@ + yaml_escaped(v) + "\""@)
}

/// The front matter of a thread file.
pub open spec fn thread_front(week: int, t: ActiveThread, ms: Seq<EmailMeta>, title: Seq<char>, prior: Seq<String>) -> Seq<char> {
    quoted_field("---\nthread_root_id: "@, t.root_id@) + quoted_field("\nweek_ending: "@, ymd_format_text(week))
        + quoted_field("\nsubject: "@, t.subject@) + quoted_field("\ntitle: "@, title)
        + "\nmessage_ids_this_week:\n"@ + quoted_lines(ms, t.message_indices@, t.message_indices@.len() as int)
        + (if prior.len() > 0 { "prior_summaries:\n"@ + quoted_paths(prior, prior.len() as int) } else { seq![] })
}

/// The text of a thread file after its front matter.
pub open spec fn thread_tail(t: ActiveThread, ms: Seq<EmailMeta>, lore_base: Seq<char>, title: Seq<char>, body: Seq<char>) -> Seq<char> {
    "---\n\n# "@ + title + "\n\n## Summary\n\n"@ + trim(body) + "\n\n"@ + "## Messages this week\n\n"@
        + lore_list_lines(ms, t.message_indices@, lore_base, t.message_indices@.len() as int)
}

pub open spec fn thread_file_text(week: int, t: ActiveThread, ms: Seq<EmailMeta>, lore_base: Seq<char>,
    title: Seq<char>, body: Seq<char>, prior: Seq<String>) -> Seq<char> {
    thread_front(week, t, ms, title, prior) + thread_tail(t, ms, lore_base, title, body)
}

fn push_quoted_ids(out: &mut Vec<char>, ms: &[EmailMeta], idx: &Vec<usize>)
    requires
        forall|k: int| 0 <= k < idx@.len() ==> (#[trigger] idx@[k] as int) < ms@.len(),
    ensures
        final(out)@ == old(out)@ + quoted_lines(ms@, idx@, idx@.len() as int),
{
    let ghost head = out@;
    let mut k: usize = 0;
    while k < idx.len()
        invariant
            k <= idx@.len(),
            forall|j: int| 0 <= j < idx@.len() ==> (#[trigger] idx@[j] as int) < ms@.len(),
            out@ == head + quoted_lines(ms@, idx@, k as int),
        decreases idx@.len() - k,
    {
        push_str(out, "  - ");
        let q = yaml_double_quoted(ms[idx[k]].message_id.as_str());
        push_str(out, q.as_str());
        push_str(out, "\n");
        proof {
            assert(out@ =~= head + quoted_lines(ms@, idx@, k + 1));
        }
        k = k + 1;
    }
}

fn push_quoted_paths(out: &mut Vec<char>, ps: &[String])
    ensures
        final(out)@ == old(out)@ + quoted_paths(ps@, ps@.len() as int),
{
    let ghost head = out@;
    let mut p: usize = 0;
    while p < ps.len()
        invariant
            p <= ps@.len(),
            out@ == head + quoted_paths(ps@, p as int),
        decreases ps@.len() - p,
    {
        push_str(out, "  - ");
        let q = yaml_double_quoted(ps[p].as_str());
        push_str(out, q.as_str());
        push_str(out, "\n");
        proof {
            assert(out@ =~= head + quoted_paths(ps@, p + 1));
        }
        p = p + 1;
    }
}

fn push_lore_list(out: &mut Vec<char>, ms: &[EmailMeta], idx: &Vec<usize>, lore_base: &str)
    requires
        forall|k: int| 0 <= k < idx@.len() ==> (#[trigger] idx@[k] as int) < ms@.len(),
    ensures
        final(out)@ == old(out)@ + lore_list_lines(ms@, idx@, lore_base@, idx@.len() as int),
{
    let ghost head = out@;
    let mut j: usize = 0;
    while j < idx.len()
        invariant
            j <= idx@.len(),
            forall|i: int| 0 <= i < idx@.len() ==> (#[trigger] idx@[i] as int) < ms@.len(),
            out@ == head + lore_list_lines(ms@, idx@, lore_base@, j as int),
        decreases idx@.len() - j,
    {
        let m = &ms[idx[j]];
        push_str(out, "- [");
        let d = instant_ymd_string(m.date);
        push_str(out, d.as_str());
        push_str(out, " ");
        push_str(out, m.from.as_str());
        push_str(out, " — ");
        push_str(out, m.subject.as_str());
        push_str(out, "](");
        let url = crate::lore::lore_url_for_message_id(lore_base, m.message_id.as_str());
        push_str(out, url.as_str());
        push_str(out, ")\n");
        proof {
            assert(out@ =~= head + lore_list_lines(ms@, idx@, lore_base@, j + 1));
        }
        j = j + 1;
    }
}

fn quoted_field_chars(label: &str, v: &str) -> (r: Vec<char>)
    ensures
        r@ == quoted_field(label@, v@),
{
    let mut out = chars_of(label);
    let q = yaml_double_quoted(v);
    push_str(&mut out, q.as_str());
    out
}

fn push_thread_front(out: &mut Vec<char>, week: WeekDate, thread: &ActiveThread, ms: &[EmailMeta], title: &str, prior: &[String])
    requires
        forall|k: int| 0 <= k < thread.message_indices@.len() ==> (#[trigger] thread.message_indices@[k] as int) < ms@.len(),
    ensures
        final(out)@ == old(out)@ + thread_front(week.day(), *thread, ms@, title@, prior@),
{
    let week_s = format_ymd(week.days());
    let mut v = quoted_field_chars("---\nthread_root_id: ", thread.root_id.as_str());
    let f2 = quoted_field_chars("\nweek_ending: ", week_s.as_str());
    crate::text::push_all(&mut v, &f2);
    let f3 = quoted_field_chars("\nsubject: ", thread.subject.as_str());
    crate::text::push_all(&mut v, &f3);
    let f4 = quoted_field_chars("\ntitle: ", title);
    crate::text::push_all(&mut v, &f4);
    push_str(&mut v, "\nmessage_ids_this_week:\n");
    push_quoted_ids(&mut v, ms, &thread.message_indices);
    let ghost before_prior = v@;
    let mut p: Vec<char> = Vec::new();
    if prior.len() > 0 {
        push_str(&mut p, "prior_summaries:\n");
        push_quoted_paths(&mut p, prior);
    }
    proof {
        if prior.len() == 0 {
            assert(p@ =~= Seq::<char>::empty());
        }
    }
    crate::text::push_all(&mut v, &p);
    crate::text::push_all(out, &v);
}

fn push_thread_tail(out: &mut Vec<char>, thread: &ActiveThread, ms: &[EmailMeta], lore_base: &str, title: &str, markdown_body: &str)
    requires
        forall|k: int| 0 <= k < thread.message_indices@.len() ==> (#[trigger] thread.message_indices@[k] as int) < ms@.len(),
    ensures
        final(out)@ == old(out)@ + thread_tail(*thread, ms@, lore_base@, title@, markdown_body@),
{
    let ghost start = out@;
    push_str(out, "---\n\n# ");
    push_str(out, title);
    push_str(out, "\n\n## Summary\n\n");
    let body = trim_str(markdown_body);
    crate::text::push_all(out, &body);
    push_str(out, "\n\n");
    push_str(out, "## Messages this week\n\n");
    push_lore_list(out, ms, &thread.message_indices, lore_base);
    proof {
        assert(out@ =~= start + thread_tail(*thread, ms@, lore_base@, title@, markdown_body@));
    }
}

/// A thread's `thread/<stem>.md`: front matter (root, week, subject, title,
/// this week's message ids, prior summaries), the agent's title and summary,
/// then the lore-linked message list.
pub fn format_thread_summary(
    week: WeekDate,
    thread: &ActiveThread,
    index: &EmailIndex,
    lore_base: &str,
    title: &str,
    markdown_body: &str,
    prior: &[String],
) -> (r: String)
    requires
        forall|k: int| 0 <= k < thread.message_indices@.len() ==> (#[trigger] thread.message_indices@[k] as int) < index.msgs().len(),
    ensures
        r@ == thread_file_text(week.day(), *thread, index.msgs(), lore_base@, title@, markdown_body@, prior@),
{
    let ms = index.emails();
    let mut out: Vec<char> = Vec::new();
    push_thread_front(&mut out, week, thread, ms, title, prior);
    push_thread_tail(&mut out, thread, ms, lore_base, title, markdown_body);
    let r = string_of(&out);
    proof {
        assert(r@ =~= thread_file_text(week.day(), *thread, index.msgs(), lore_base@, title@, markdown_body@, prior@));
    }
    r
}

/// Thread files already written this week for the roots ordered before
/// `current_root` (`written[k]` for `ordered_roots[k]`), as outputs-relative
/// paths, at most ten.
pub open spec fn predecessors(week_s: Seq<char>, roots: Seq<String>, written: Seq<bool>, current: Seq<char>, k: int) -> Seq<Seq<char>>
    decreases roots.len() - k,
{
    if k < 0 || k >= roots.len() || roots[k]@ == current {
        seq![]
    } else if written[k] {
        seq![week_s + "/thread/"@ + file_stem(roots[k]@) + ".md"@] + predecessors(week_s, roots, written, current, k + 1)
    } else {
        predecessors(week_s, roots, written, current, k + 1)
    }
}

pub fn same_week_predecessors(week: WeekDate, ordered_roots: &[String], current_root: &str, written: &[bool]) -> (r: Vec<String>)
    requires
        written@.len() == ordered_roots@.len(),
    ensures
        ({
            let all = predecessors(ymd_format_text(week.day()), ordered_roots@, written@, current_root@, 0);
            strs(r@) == (if all.len() > 10 { all.take(10) } else { all })
        }),
{
    let week_s = format_ymd(week.days());
    let cur = chars_of(current_root);
    let mut out: Vec<String> = Vec::new();
    let ghost all = predecessors(week_s@, ordered_roots@, written@, current_root@, 0);
    let mut k: usize = 0;
    while k < ordered_roots.len()
        invariant
            k <= ordered_roots@.len(),
            written@.len() == ordered_roots@.len(),
            cur@ == current_root@,
            all == predecessors(week_s@, ordered_roots@, written@, current_root@, 0),
            strs(out@) + predecessors(week_s@, ordered_roots@, written@, current_root@, k as int) == all,
        ensures
            strs(out@) == all,
        decreases ordered_roots@.len() - k,
    {
        let rc = chars_of(ordered_roots[k].as_str());
        if chars_eq(&rc, &cur) {
            proof {
                assert(strs(out@) + seq![] =~= strs(out@));
            }
            break;
        }
        if written[k] {
            let mut p: Vec<char> = Vec::new();
            push_str(&mut p, week_s.as_str());
            push_str(&mut p, "/thread/");
            let stem = file_stem_for_id(ordered_roots[k].as_str());
            push_str(&mut p, stem.as_str());
            push_str(&mut p, ".md");
            let ghost before = out@;
            out.push(string_of(&p));
            proof {
                assert(strs(out@) =~= strs(before).push(p@));
                assert(strs(out@) + predecessors(week_s@, ordered_roots@, written@, current_root@, k + 1) =~= strs(before) + predecessors(week_s@, ordered_roots@, written@, current_root@, k as int));
            }
        }
        k = k + 1;
    }
    if out.len() > 10 {
        out.truncate(10);
        proof {
            assert(strs(out@) =~= all.take(10));
        }
    }
    out
}


} // verus!
