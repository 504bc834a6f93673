//! The mail tools' logic: thread listing, single messages, and the date
//! filters they share. Bodies are handed in by the caller, who reads them.
use crate::email_index::{EmailIndex, EmailMeta, rfc3339_string, rfc3339_text, thread_root, thread_root_id};
use crate::ids::{file_stem, file_stem_for_id, normalize_message_id, normalized_id};
use crate::lore::{lore_url, lore_url_for_message_id};
use crate::numfmt::{decimal, push_decimal};
use crate::summarize::{all_below, date_before, date_ordered, sort_by_date};
use crate::text::{chars_of, debug_string, debug_text, has_suffix, push_str, string_of, trim, trim_slice};
use crate::week::{MAX_DAY, MIN_DAY, WeekDate, format_ymd, midnight, ymd_format_text};
use crate::text::lines;
use vstd::prelude::*;

verus! {

broadcast use vstd::string::group_string_axioms;

/// Arguments for ListThreadMessages.
#[derive(Debug, Clone)]
pub struct ListThreadMessagesArgs {
    /// Normalized or raw root id. Defaults to the focus thread when set.
    pub thread_root_id: Option<String>,
    /// Inclusive first day (UTC).
    pub date_from: Option<WeekDate>,
    /// Inclusive last day (UTC).
    pub date_to: Option<WeekDate>,
}

/// Arguments for GetEmail.
#[derive(Debug, Clone)]
pub struct GetEmailArgs {
    pub message_id: String,
}

pub open spec fn missing_root_text() -> Seq<char> {
    "thread_root_id is required when focus_thread_root is not set"@
}

/// The explicit root (trimmed, normalized) if given and non-empty, else the focus root.
pub open spec fn chosen_root(explicit: Option<String>, focus: Option<String>) -> Option<Seq<char>> {
    if explicit is Some && trim(explicit->0@).len() > 0 {
        Some(normalized_id(trim(explicit->0@)))
    } else if focus is Some {
        Some(focus->0@)
    } else {
        None
    }
}

/// An explicit, non-blank root always decides the thread, whatever the
/// session's focus; the focus stands in only when no root is given.
pub proof fn lemma_explicit_root_wins(explicit: Option<String>, focus: Option<String>)
    ensures
        explicit is Some && trim(explicit->0@).len() > 0 ==> chosen_root(explicit, focus) == Some(
            normalized_id(trim(explicit->0@)),
        ),
        explicit is Some && trim(explicit->0@).len() > 0 ==> chosen_root(explicit, focus) == chosen_root(
            explicit,
            None,
        ),
        !(explicit is Some && trim(explicit->0@).len() > 0) ==> chosen_root(explicit, focus) == match focus {
            Some(f) => Some(f@),
            None => None::<Seq<char>>,
        },
{
}

/// The thread a tool call is about, and whether it came from the focus.
pub fn resolve_root_filter(explicit: &Option<String>, focus: &Option<String>) -> (r: (Option<String>, bool))
    ensures
        match r.0 {
            Some(s) => chosen_root(*explicit, *focus) == Some(s@),
            None => chosen_root(*explicit, *focus) is None,
        },
        r.1 == (!(explicit is Some && trim(explicit->0@).len() > 0) && focus is Some),
        explicit is Some && trim(explicit->0@).len() > 0 ==> (r.0 matches Some(s) && s@ == normalized_id(
            trim(explicit->0@),
        ) && !r.1),
        !(explicit is Some && trim(explicit->0@).len() > 0) ==> (match focus {
            Some(f) => (r.0 matches Some(s) && s@ == f@ && r.1),
            None => r.0 is None && !r.1,
        }),
{
    proof {
        lemma_explicit_root_wins(*explicit, *focus);
    }
    if let Some(e) = explicit {
        let t = trim_slice(e.as_str());
        if !t.is_empty() {
            return (Some(normalize_message_id(t)), false);
        }
    }
    match focus {
        Some(f) => (Some(f.clone()), true),
        None => (None, false),
    }
}

/// The thread a listing is about; without an explicit root or a focus it is refused.
pub fn resolve_thread_root(explicit: &Option<String>, focus: &Option<String>) -> (r: Result<String, String>)
    ensures
        match r {
            Ok(s) => chosen_root(*explicit, *focus) == Some(s@),
            Err(m) => chosen_root(*explicit, *focus) is None && m@ == missing_root_text(),
        },
        explicit is Some && trim(explicit->0@).len() > 0 ==> (r matches Ok(s) && s@ == normalized_id(
            trim(explicit->0@),
        )),
{
    match resolve_root_filter(explicit, focus).0 {
        Some(s) => Ok(s),
        None => Err(string_of(&chars_of("thread_root_id is required when focus_thread_root is not set"))),
    }
}

/// Day filter as instants: `from` 00:00 UTC inclusive, the day after `to` 00:00 exclusive.
pub fn date_bounds(from: Option<WeekDate>, to: Option<WeekDate>) -> (r: (Option<i64>, Option<i64>))
    requires
        to matches Some(d) ==> d.day() + 1 <= MAX_DAY,
    ensures
        match from {
            Some(d) => r.0 == Some(midnight(d.day()) as i64) && r.0->0 == midnight(d.day()),
            None => r.0 is None,
        },
        match to {
            Some(d) => r.1 is Some && r.1->0 == midnight(d.day() + 1),
            None => r.1 is None,
        },
{
    let start = match from {
        Some(d) => {
            let n = d.days() as i64;
            assert((n - 719163) * 86400 <= 100000000 * 86400) by (nonlinear_arith)
                requires n <= MAX_DAY;
            assert((n - 719163) * 86400 >= -100000000 * 86400) by (nonlinear_arith)
                requires n >= MIN_DAY;
            Some((n - 719163) * 86400)
        },
        None => None,
    };
    let end = match to {
        Some(d) => {
            let n = d.days() as i64 + 1;
            assert((n - 719163) * 86400 <= 100000000 * 86400) by (nonlinear_arith)
                requires n <= MAX_DAY;
            assert((n - 719163) * 86400 >= -100000000 * 86400) by (nonlinear_arith)
                requires n >= MIN_DAY;
            Some((n - 719163) * 86400)
        },
        None => None,
    };
    (start, end)
}

pub open spec fn in_range(t: int, start: Option<i64>, end: Option<i64>) -> bool {
    (start matches Some(s) ==> s <= t) && (end matches Some(e) ==> t < e)
}

pub fn in_date_range(t: i64, start: Option<i64>, end: Option<i64>) -> (r: bool)
    ensures
        r == in_range(t as int, start, end),
{
    if let Some(s) = start {
        if t < s {
            return false;
        }
    }
    if let Some(e) = end {
        if t >= e {
            return false;
        }
    }
    true
}

/// Positions of the messages of thread `root` within the range, by date.
fn thread_rows(ms: &[EmailMeta], root: &str, start: Option<i64>, end: Option<i64>) -> (r: Vec<usize>)
    ensures
        date_ordered(ms@, r@),
        all_below(r@, ms@.len() as int),
        forall|x: usize| #[trigger] r@.contains(x) <==> ((x as int) < ms@.len() && thread_root(ms@[x as int]) == root@ && in_range(ms@[x as int].date as int, start, end)),
{
    let rc = chars_of(root);
    let mut v: Vec<usize> = Vec::new();
    let mut i: usize = 0;
    while i < ms.len()
        invariant
            i <= ms@.len(),
            rc@ == root@,
            all_below(v@, i as int),
            forall|a: int, b: int| 0 <= a < b < v@.len() ==> v@[a] < v@[b],
            forall|x: usize| #[trigger] v@.contains(x) <==> ((x as int) < i && thread_root(ms@[x as int]) == root@ && in_range(ms@[x as int].date as int, start, end)),
        decreases ms@.len() - i,
    {
        let rid = thread_root_id(&ms[i]);
        let rv = chars_of(rid.as_str());
        let ghost before = v@;
        if crate::text::chars_eq(&rv, &rc) && in_date_range(ms[i].date, start, end) {
            v.push(i);
            proof {
                assert forall|x: usize| #[trigger] v@.contains(x) <==> ((x as int) < i + 1 && thread_root(ms@[x as int]) == root@ && in_range(ms@[x as int].date as int, start, end)) by {
                    if v@.contains(x) && x != i {
                        let a = choose|a: int| 0 <= a < v@.len() && v@[a] == x;
                        assert(before[a] == x);
                        assert(before.contains(x));
                    }
                    if (x as int) < i && thread_root(ms@[x as int]) == root@ && in_range(ms@[x as int].date as int, start, end) {
                        assert(before.contains(x));
                        let a = choose|a: int| 0 <= a < before.len() && before[a] == x;
                        assert(v@[a] == x);
                    }
                    if x == i {
                        assert(v@[v@.len() - 1] == x);
                    }
                }
            }
        } else {
            proof {
                assert forall|x: usize| #[trigger] v@.contains(x) <==> ((x as int) < i + 1 && thread_root(ms@[x as int]) == root@ && in_range(ms@[x as int].date as int, start, end)) by {
                    if v@.contains(x) {
                        assert((x as int) < i);
                    }
                }
            }
        }
        i = i + 1;
    }
    sort_by_date(ms, v)
}

pub open spec fn bool_text(b: bool) -> Seq<char> {
    if b { "true"@ } else { "false"@ }
}

fn push_bool(out: &mut Vec<char>, b: bool)
    ensures
        final(out)@ == old(out)@ + bool_text(b),
{
    if b {
        push_str(out, "true");
    } else {
        push_str(out, "false");
    }
}

/// One listed message.
pub open spec fn row_text(m: EmailMeta, lore_base: Seq<char>, week: (i64, i64)) -> Seq<char> {
    "- date="@ + rfc3339_text(m.date as int) + " from="@ + m.from@ + " message_id="@ + m.message_id@
        + " file_stem="@ + file_stem(m.message_id@) + " in_week="@ + bool_text(
        week.0 <= m.date && m.date < week.1,
    ) + " lore="@ + lore_url(lore_base, m.message_id@) + "\n  subject="@ + m.subject@ + "\n"@
}

pub open spec fn rows_text(ms: Seq<EmailMeta>, rows: Seq<usize>, lore_base: Seq<char>, week: (i64, i64)) -> Seq<char>
    decreases rows.len(),
{
    if rows.len() == 0 {
        seq![]
    } else {
        rows_text(ms, rows.drop_last(), lore_base, week) + row_text(ms[rows.last() as int], lore_base, week)
    }
}

/// The listing of thread `root` whose rows are `rows`.
pub open spec fn listing_text(ms: Seq<EmailMeta>, root: Seq<char>, rows: Seq<usize>, lore_base: Seq<char>, week: (i64, i64)) -> Seq<char> {
    if rows.len() == 0 {
        "No messages found for thread_root_id="@ + root + " (with optional date filter)."@
    } else {
        "Thread root_id: "@ + root + "\nMessages: "@ + decimal(rows.len()) + "\n\n"@ + rows_text(ms, rows, lore_base, week)
    }
}

fn push_row(out: &mut Vec<char>, m: &EmailMeta, lore_base: &str, week: (i64, i64))
    ensures
        final(out)@ == old(out)@ + row_text(*m, lore_base@, week),
{
    let ghost start = out@;
    push_str(out, "- date=");
    let d = rfc3339_string(m.date);
    push_str(out, d.as_str());
    push_str(out, " from=");
    push_str(out, m.from.as_str());
    push_str(out, " message_id=");
    push_str(out, m.message_id.as_str());
    push_str(out, " file_stem=");
    let stem = file_stem_for_id(m.message_id.as_str());
    push_str(out, stem.as_str());
    push_str(out, " in_week=");
    push_bool(out, week.0 <= m.date && m.date < week.1);
    push_str(out, " lore=");
    let lore = lore_url_for_message_id(lore_base, m.message_id.as_str());
    push_str(out, lore.as_str());
    push_str(out, "\n  subject=");
    push_str(out, m.subject.as_str());
    push_str(out, "\n");
    proof {
        assert(out@ =~= start + row_text(*m, lore_base@, week));
    }
}

/// List the messages of a thread (metadata only), by date, with their lore
/// link, file stem and whether they fall in the current week window.
pub fn list_thread_messages(
    index: &EmailIndex,
    focus: &Option<String>,
    lore_base: &str,
    week: (i64, i64),
    args: &ListThreadMessagesArgs,
) -> (r: Result<String, String>)
    requires
        args.date_to matches Some(d) ==> d.day() + 1 <= MAX_DAY,
    ensures
        match chosen_root(args.thread_root_id, *focus) {
            None => r matches Err(m) && m@ == missing_root_text(),
            Some(root) => r matches Ok(out) && exists|rows: Seq<usize>|
                #![trigger date_ordered(index.msgs(), rows)]
                {
                    let (start, end) = (
                        match args.date_from { Some(d) => Some(midnight(d.day()) as i64), None => None },
                        match args.date_to { Some(d) => Some(midnight(d.day() + 1) as i64), None => None },
                    );
                    &&& date_ordered(index.msgs(), rows)
                    &&& forall|x: usize| #[trigger] rows.contains(x) <==> ((x as int) < index.msgs().len()
                        && thread_root(index.msgs()[x as int]) == root && in_range(index.msgs()[x as int].date as int, start, end))
                    &&& out@ == listing_text(index.msgs(), root, rows, lore_base@, week)
                },
        },
{
    let root = match resolve_thread_root(&args.thread_root_id, focus) {
        Ok(r) => r,
        Err(m) => return Err(m),
    };
    let (start, end) = date_bounds(args.date_from, args.date_to);
    let ms = index.emails();
    let rows = thread_rows(ms, root.as_str(), start, end);
    let mut out: Vec<char> = Vec::new();
    if rows.len() == 0 {
        push_str(&mut out, "No messages found for thread_root_id=");
        push_str(&mut out, root.as_str());
        push_str(&mut out, " (with optional date filter).");
        let s = string_of(&out);
        proof {
            assert(s@ =~= listing_text(ms@, root@, rows@, lore_base@, week));
        }
        return Ok(s);
    }
    push_str(&mut out, "Thread root_id: ");
    push_str(&mut out, root.as_str());
    push_str(&mut out, "\nMessages: ");
    push_decimal(&mut out, rows.len());
    push_str(&mut out, "\n\n");
    let ghost head = out@;
    let mut k: usize = 0;
    assert(rows@.take(0) =~= Seq::<usize>::empty());
    while k < rows.len()
        invariant
            k <= rows@.len(),
            all_below(rows@, ms@.len() as int),
            out@ == head + rows_text(ms@, rows@.take(k as int), lore_base@, week),
        decreases rows@.len() - k,
    {
        push_row(&mut out, &ms[rows[k]], lore_base, week);
        proof {
            assert(rows@.take(k + 1).drop_last() =~= rows@.take(k as int));
            assert(rows@.take(k + 1).last() == rows@[k as int]);
            assert(out@ =~= head + rows_text(ms@, rows@.take(k + 1), lore_base@, week));
        }
        k = k + 1;
    }
    let s = string_of(&out);
    proof {
        assert(rows@.take(k as int) =~= rows@);
        assert(s@ =~= listing_text(ms@, root@, rows@, lore_base@, week));
    }
    Ok(s)
}

pub open spec fn unknown_id_text(id: Seq<char>) -> Seq<char> {
    "unknown message_id after normalize: "@ + debug_text(normalized_id(id))
}

/// The indexed message GetEmail shows: the trimmed id must be given and known.
pub fn get_email_lookup<'a>(index: &'a EmailIndex, args: &GetEmailArgs) -> (r: Result<&'a EmailMeta, String>)
    requires
        index.wf(),
    ensures
        ({
            let id = trim(args.message_id@);
            if id.len() == 0 {
                r matches Err(m) && m@ == "message_id is required"@
            } else {
                match r {
                    Ok(m) => exists|i: int| 0 <= i < index.msgs().len() && #[trigger] index.msgs()[i] == *m && m.message_id@ == normalized_id(id),
                    Err(e) => e@ == unknown_id_text(id) && !exists|i: int| 0 <= i < index.msgs().len() && #[trigger] index.msgs()[i].message_id@ == normalized_id(id),
                }
            }
        }),
{
    let id = trim_slice(args.message_id.as_str());
    if id.is_empty() {
        return Err(string_of(&chars_of("message_id is required")));
    }
    match index.get(id) {
        Some(m) => Ok(m),
        None => {
            let mut out: Vec<char> = Vec::new();
            push_str(&mut out, "unknown message_id after normalize: ");
            let n = normalize_message_id(id);
            let d = debug_string(n.as_str());
            push_str(&mut out, d.as_str());
            Err(string_of(&out))
        },
    }
}

/// The text GetEmail shows for one message and its body.
pub open spec fn email_text(m: EmailMeta, lore_base: Seq<char>, body: Seq<char>) -> Seq<char> {
    let in_reply = match m.in_reply_to { Some(p) => normalized_id(p@), None => seq![] };
    "Message-ID: "@ + m.message_id@ + "\nLore: "@ + lore_url(lore_base, m.message_id@) + "\nFrom: "@ + m.from@
        + "\nDate: "@ + rfc3339_text(m.date as int) + "\nSubject: "@ + m.subject@ + "\n"@
        + (if in_reply.len() > 0 { "In-Reply-To: "@ + in_reply + "\n"@ } else { seq![] })
        + "Thread-Root-ID: "@ + thread_root(m) + "\n\n"@ + body
        + (if body.len() > 0 && body.last() != '\n' { "\n"@ } else { seq![] })
}

/// Rebuild one message for the model (normalized ids only).
pub fn format_email(m: &EmailMeta, lore_base: &str, body: &str) -> (r: String)
    ensures
        r@ == email_text(*m, lore_base@, body@),
{
    let mut out: Vec<char> = Vec::new();
    push_str(&mut out, "Message-ID: ");
    push_str(&mut out, m.message_id.as_str());
    push_str(&mut out, "\nLore: ");
    let lore = lore_url_for_message_id(lore_base, m.message_id.as_str());
    push_str(&mut out, lore.as_str());
    push_str(&mut out, "\nFrom: ");
    push_str(&mut out, m.from.as_str());
    push_str(&mut out, "\nDate: ");
    let d = rfc3339_string(m.date);
    push_str(&mut out, d.as_str());
    push_str(&mut out, "\nSubject: ");
    push_str(&mut out, m.subject.as_str());
    push_str(&mut out, "\n");
    let ghost mid = out@;
    let in_reply = match &m.in_reply_to {
        Some(p) => normalize_message_id(p.as_str()),
        None => string_of(&Vec::new()),
    };
    if !in_reply.as_str().is_empty() {
        push_str(&mut out, "In-Reply-To: ");
        push_str(&mut out, in_reply.as_str());
        push_str(&mut out, "\n");
    }
    let ghost mid2 = out@;
    push_str(&mut out, "Thread-Root-ID: ");
    let root = thread_root_id(m);
    push_str(&mut out, root.as_str());
    push_str(&mut out, "\n\n");
    push_str(&mut out, body);
    let bc = chars_of(body);
    if bc.len() > 0 && bc[bc.len() - 1] != '\n' {
        push_str(&mut out, "\n");
    }
    let s = string_of(&out);
    proof {
        assert(s@ =~= email_text(*m, lore_base@, body@));
    }
    s
}

// ───────────────────────── GrepEmails ─────────────────────────

#[verifier::external_type_specification]
#[verifier::external_body]
pub struct ExRegex(regex::Regex);

/// `regex::Regex::new(p)` succeeds.
pub uninterp spec fn regex_compiles(p: Seq<char>) -> bool;

/// `Regex::is_match(text)` for the regex compiled from `p`.
pub uninterp spec fn regex_finds(p: Seq<char>, text: Seq<char>) -> bool;

/// A compiled search pattern with the text it was compiled from.
pub struct Pattern {
    source: String,
    re: regex::Regex,
}

impl Pattern {
    pub closed spec fn source(&self) -> Seq<char> {
        self.source@
    }
}

/// `regex::Regex::new`.
#[verifier::external_body]
pub(crate) fn compile_pattern(p: &str) -> (r: Option<Pattern>)
    ensures
        r is Some <==> regex_compiles(p@),
        r matches Some(x) ==> x.source() == p@,
{
    match regex::Regex::new(p) {
        Ok(re) => Some(Pattern { source: p.to_string(), re }),
        Err(_) => None,
    }
}

/// `Regex::is_match`.
#[verifier::external_body]
pub(crate) fn pattern_finds(p: &Pattern, text: &str) -> (r: bool)
    ensures
        r == regex_finds(p.source(), text@),
{
    p.re.is_match(text)
}

/// The byte ranges `Regex::find_iter` reports in `text` for the regex
/// compiled from `p`.
pub uninterp spec fn regex_match_ranges(p: Seq<char>, text: Seq<char>) -> Seq<(int, int)>;

/// `Regex::find_iter`: the successive non-overlapping matches, as byte
/// ranges into `text`.
#[verifier::external_body]
pub(crate) fn pattern_match_ranges(p: &Pattern, text: &str) -> (r: Vec<(usize, usize)>)
    ensures
        r@.map_values(|m: (usize, usize)| (m.0 as int, m.1 as int)) == regex_match_ranges(p.source(), text@),
        forall|i: int| 0 <= i < r@.len() ==> (#[trigger] r@[i]).0 <= r@[i].1 && r@[i].1 <= vstd::utf8::encode_utf8(text@).len(),
        forall|i: int, j: int| 0 <= i < j < r@.len() ==> (#[trigger] r@[i]).1 <= (#[trigger] r@[j]).0,
{
    p.re.find_iter(text).map(|m| (m.start(), m.end())).collect()
}

/// Default match caps.
pub const DEFAULT_MAX_MATCHES_FOCUSED: usize = 50;
pub const DEFAULT_MAX_MATCHES_CROSS: usize = 20;
/// Hard cap on how many message bodies may be read per call.
pub const BODY_SCAN_CAP: usize = 200;

/// Arguments for GrepEmails.
#[derive(Debug, Clone)]
pub struct GrepEmailsArgs {
    pub pattern: String,
    pub thread_root_id: Option<String>,
    pub date_from: Option<WeekDate>,
    pub date_to: Option<WeekDate>,
    pub max_matches: Option<usize>,
}

/// A GrepEmails call in progress: the caller reads the body of each
/// candidate that `next_body` admits and hands it to `scan`.
pub struct GrepEmailsRun {
    pattern: Pattern,
    /// Candidate positions in the index, by date.
    candidates: Vec<usize>,
    max_matches: usize,
    match_lines: usize,
    bodies_scanned: usize,
    truncated_matches: bool,
    truncated_bodies: bool,
    out: Vec<char>,
}

pub open spec fn day_of_instant(secs: int) -> int {
    secs / 86400 + 719163
}

/// `DateTime::format("%Y-%m-%d")` of an instant (empty outside the calendar).
pub open spec fn instant_ymd(secs: int) -> Seq<char> {
    if MIN_DAY <= day_of_instant(secs) <= MAX_DAY {
        ymd_format_text(day_of_instant(secs))
    } else {
        seq![]
    }
}

pub fn instant_ymd_string(secs: i64) -> (r: String)
    ensures
        r@ == instant_ymd(secs as int),
{
    let q: i64 = if secs >= 0 {
        assert(secs / 86400 == secs as int / 86400);
        secs / 86400
    } else {
        let n: i64 = (-(secs + 1)) / 86400;
        assert(-n - 1 == secs as int / 86400) by (nonlinear_arith)
            requires
                n == (-(secs + 1)) / 86400,
                secs < 0,
        {
            assert(n * 86400 <= -(secs + 1) < (n + 1) * 86400);
        }
        -n - 1
    };
    if q < (MIN_DAY as i64) - 719163 || q > (MAX_DAY as i64) - 719163 {
        return string_of(&Vec::new());
    }
    format_ymd((q + 719163) as i32)
}

pub open spec fn grep_header(pattern: Seq<char>, focused: bool, n: nat, max: nat, focus_root: Option<Seq<char>>) -> Seq<char> {
    "GrepEmails pattern="@ + debug_text(pattern) + " focused="@ + bool_text(focused) + " candidates="@
        + decimal(n) + " max_matches="@ + decimal(max) + " body_scan_cap="@ + decimal(BODY_SCAN_CAP as nat)
        + "\n"@ + (match focus_root { Some(r) => "Using focus_thread_root="@ + r + "\n"@, None => seq![] })
        + "\n"@
}

/// Lines searched in one message: its subject line, then its body lines.
pub open spec fn searched_lines(m: EmailMeta, body: Seq<char>) -> Seq<(Seq<char>, Seq<char>)> {
    seq![("subject"@, "Subject: "@ + m.subject@)] + lines(body).map_values(|l: Seq<char>| ("body"@, l))
}

pub open spec fn hit_header(m: EmailMeta, lore_base: Seq<char>) -> Seq<char> {
    "=== message_id="@ + m.message_id@ + " thread_root_id="@ + thread_root(m) + " date="@ + instant_ymd(m.date as int)
        + " lore="@ + lore_url(lore_base, m.message_id@) + " ===\n"@
}

/// Matching lines from `items[i..]`, after `count` matches so far: the text
/// added, the new count, and whether the cap cut the message short.
pub open spec fn grep_lines(p: Seq<char>, items: Seq<(Seq<char>, Seq<char>)>, i: int, max: nat, count: nat, header: Seq<char>, shown: bool) -> (Seq<char>, nat, bool)
    decreases items.len() - i,
{
    if i >= items.len() || i < 0 {
        (seq![], count, false)
    } else if count >= max {
        (seq![], count, true)
    } else if !regex_finds(p, items[i].1) {
        grep_lines(p, items, i + 1, max, count, header, shown)
    } else {
        let line = (if shown { seq![] } else { header }) + "  ["@ + items[i].0 + "] "@ + items[i].1 + "\n"@;
        let rest = grep_lines(p, items, i + 1, max, count + 1, header, true);
        (line + rest.0, rest.1, rest.2)
    }
}

impl GrepEmailsRun {
    pub closed spec fn text(&self) -> Seq<char> {
        self.out@
    }

    pub closed spec fn pattern_source(&self) -> Seq<char> {
        self.pattern.source@
    }

    pub closed spec fn cands(&self) -> Seq<usize> {
        self.candidates@
    }

    pub closed spec fn cap(&self) -> usize {
        self.max_matches
    }

    pub closed spec fn matches(&self) -> usize {
        self.match_lines
    }

    pub closed spec fn scanned(&self) -> usize {
        self.bodies_scanned
    }

    pub closed spec fn cut_matches(&self) -> bool {
        self.truncated_matches
    }

    pub closed spec fn cut_bodies(&self) -> bool {
        self.truncated_bodies
    }

    /// Candidate positions in the index, by date.
    pub fn candidates(&self) -> (r: &[usize])
        ensures
            r@ == self.cands(),
    {
        self.candidates.as_slice()
    }

    /// Admit the next body read: stop once the match cap or the body cap is
    /// reached (and say which), else count the read.
    pub fn next_body(&mut self) -> (go: bool)
        requires
            old(self).scanned() <= BODY_SCAN_CAP,
        ensures
            final(self).text() == old(self).text(),
            final(self).pattern_source() == old(self).pattern_source(),
            final(self).cands() == old(self).cands(),
            final(self).cap() == old(self).cap(),
            final(self).matches() == old(self).matches(),
            final(self).scanned() <= BODY_SCAN_CAP,
            if old(self).matches() >= old(self).cap() {
                !go && final(self).cut_matches() && final(self).cut_bodies() == old(self).cut_bodies()
                    && final(self).scanned() == old(self).scanned()
            } else if old(self).scanned() >= BODY_SCAN_CAP {
                !go && final(self).cut_bodies() && final(self).cut_matches() == old(self).cut_matches()
                    && final(self).scanned() == old(self).scanned()
            } else {
                go && final(self).scanned() == old(self).scanned() + 1
                    && final(self).cut_matches() == old(self).cut_matches()
                    && final(self).cut_bodies() == old(self).cut_bodies()
            },
    {
        if self.match_lines >= self.max_matches {
            self.truncated_matches = true;
            return false;
        }
        if self.bodies_scanned >= BODY_SCAN_CAP {
            self.truncated_bodies = true;
            return false;
        }
        self.bodies_scanned = self.bodies_scanned + 1;
        true
    }

    /// Search the subject line and body lines of `m`, recording each matching
    /// line (under a one-time header for the message) up to the match cap.
    pub fn scan(&mut self, m: &EmailMeta, lore_base: &str, body: &str)
        ensures
            ({
                let res = grep_lines(old(self).pattern_source(), searched_lines(*m, body@), 0, old(self).cap() as nat,
                    old(self).matches() as nat, hit_header(*m, lore_base@), false);
                &&& final(self).text() == old(self).text() + res.0
                &&& final(self).matches() == res.1
                &&& final(self).cut_matches() == (old(self).cut_matches() || res.2)
            }),
            final(self).pattern_source() == old(self).pattern_source(),
            final(self).cands() == old(self).cands(),
            final(self).cap() == old(self).cap(),
            final(self).scanned() == old(self).scanned(),
            final(self).cut_bodies() == old(self).cut_bodies(),
    {
        let ghost p = self.pattern.source@;
        let mut header: Vec<char> = Vec::new();
        push_str(&mut header, "=== message_id=");
        push_str(&mut header, m.message_id.as_str());
        push_str(&mut header, " thread_root_id=");
        let root = thread_root_id(m);
        push_str(&mut header, root.as_str());
        push_str(&mut header, " date=");
        let d = instant_ymd_string(m.date);
        push_str(&mut header, d.as_str());
        push_str(&mut header, " lore=");
        let lore = lore_url_for_message_id(lore_base, m.message_id.as_str());
        push_str(&mut header, lore.as_str());
        push_str(&mut header, " ===\n");
        proof {
            assert(header@ =~= hit_header(*m, lore_base@));
        }
        let mut subject_line: Vec<char> = Vec::new();
        push_str(&mut subject_line, "Subject: ");
        push_str(&mut subject_line, m.subject.as_str());
        let body_chars = chars_of(body);
        let body_lines = crate::text::lines_of(&body_chars);
        let mut items: Vec<(Vec<char>, Vec<char>)> = Vec::new();
        items.push((chars_of("subject"), subject_line));
        let mut b: usize = 0;
        let ghost bl = lines(body@);
        while b < body_lines.len()
            invariant
                b <= body_lines@.len(),
                body_lines@.map_values(|l: Vec<char>| l@) == bl,
                items@.len() == b + 1,
                items@[0].0@ == "subject"@,
                items@[0].1@ == "Subject: "@ + m.subject@,
                forall|x: int| 0 < x <= b ==> #[trigger] items@[x].0@ == "body"@ && items@[x].1@ == bl[x - 1],
            decreases body_lines@.len() - b,
        {
            items.push((chars_of("body"), crate::seqs::copy_chars(&body_lines[b])));
            b = b + 1;
        }
        let ghost spec_items = searched_lines(*m, body@);
        proof {
            assert(spec_items.len() == items@.len());
            assert forall|x: int| 0 <= x < items@.len() implies #[trigger] spec_items[x] == (items@[x].0@, items@[x].1@) by {
                if x > 0 {
                    assert(spec_items[x] == ("body"@, bl[x - 1]));
                }
            }
        }
        let ghost start_out = self.out@;
        let ghost start_count = self.match_lines as nat;
        let ghost start_cut = self.truncated_matches;
        let ghost all = grep_lines(p, spec_items, 0, self.max_matches as nat, start_count, header@, false);
        let mut shown = false;
        let mut i: usize = 0;
        let mut stop = false;
        while i < items.len() && !stop
            invariant
                i <= items@.len(),
                spec_items.len() == items@.len(),
                forall|x: int| 0 <= x < items@.len() ==> #[trigger] spec_items[x] == (items@[x].0@, items@[x].1@),
                p == self.pattern.source@,
                header@ == hit_header(*m, lore_base@),
                self.candidates@ == old(self).candidates@,
                self.max_matches == old(self).max_matches,
                self.bodies_scanned == old(self).bodies_scanned,
                self.truncated_bodies == old(self).truncated_bodies,
                all == grep_lines(p, spec_items, 0, self.max_matches as nat, start_count, header@, false),
                stop ==> start_out + all.0 == self.out@ && all.1 == self.match_lines && all.2 && self.truncated_matches,
                !stop ==> ({
                    let rest = grep_lines(p, spec_items, i as int, self.max_matches as nat, self.match_lines as nat, header@, shown);
                    &&& start_out + all.0 == self.out@ + rest.0
                    &&& all.1 == rest.1
                    &&& all.2 == rest.2
                    &&& self.truncated_matches == start_cut
                }),
            decreases items@.len() - i + (if stop { 0int } else { 1int }),
        {
            if self.match_lines >= self.max_matches {
                self.truncated_matches = true;
                stop = true;
                proof {
                    assert(self.out@ + seq![] =~= self.out@);
                }
            } else {
                let ghost before = self.out@;
                let text = string_of(&items[i].1);
                if pattern_finds(&self.pattern, text.as_str()) {
                    if !shown {
                        let hs = string_of(&header);
                        push_str(&mut self.out, hs.as_str());
                    }
                    push_str(&mut self.out, "  [");
                    let ks = string_of(&items[i].0);
                    push_str(&mut self.out, ks.as_str());
                    push_str(&mut self.out, "] ");
                    push_str(&mut self.out, text.as_str());
                    push_str(&mut self.out, "\n");
                    proof {
                        let line = (if shown { seq![] } else { header@ }) + "  ["@ + spec_items[i as int].0 + "] "@ + spec_items[i as int].1 + "\n"@;
                        assert(self.out@ =~= before + line);
                    }
                    self.match_lines = self.match_lines + 1;
                    shown = true;
                }
                i = i + 1;
            }
        }
        proof {
            if !stop {
                assert(self.out@ + seq![] =~= self.out@);
            }
        }
    }
}

pub open spec fn root_ok(ms: Seq<EmailMeta>, root: Option<Seq<char>>, x: int) -> bool {
    match root {
        Some(r) => thread_root(ms[x]) == r,
        None => true,
    }
}

/// Positions of the messages (of thread `root`, if given) within the range, by date.
fn filtered_rows(ms: &[EmailMeta], root: &Option<String>, start: Option<i64>, end: Option<i64>) -> (r: Vec<usize>)
    ensures
        date_ordered(ms@, r@),
        all_below(r@, ms@.len() as int),
        forall|x: usize| #[trigger] r@.contains(x) <==> ((x as int) < ms@.len() && root_ok(ms@, match *root { Some(s) => Some(s@), None => None }, x as int) && in_range(ms@[x as int].date as int, start, end)),
{
    match root {
        Some(s) => thread_rows(ms, s.as_str(), start, end),
        None => {
            let mut v: Vec<usize> = Vec::new();
            let mut i: usize = 0;
            while i < ms.len()
                invariant
                    i <= ms@.len(),
                    root is None,
                    all_below(v@, i as int),
                    forall|a: int, b: int| 0 <= a < b < v@.len() ==> v@[a] < v@[b],
                    forall|x: usize| #[trigger] v@.contains(x) <==> ((x as int) < i && in_range(ms@[x as int].date as int, start, end)),
                decreases ms@.len() - i,
            {
                let ghost before = v@;
                if in_date_range(ms[i].date, start, end) {
                    v.push(i);
                    proof {
                        assert forall|x: usize| #[trigger] v@.contains(x) <==> ((x as int) < i + 1 && in_range(ms@[x as int].date as int, start, end)) by {
                            if v@.contains(x) && x != i {
                                let a = choose|a: int| 0 <= a < v@.len() && v@[a] == x;
                                assert(before[a] == x);
                                assert(before.contains(x));
                            }
                            if (x as int) < i && in_range(ms@[x as int].date as int, start, end) {
                                assert(before.contains(x));
                                let a = choose|a: int| 0 <= a < before.len() && before[a] == x;
                                assert(v@[a] == x);
                            }
                            if x == i {
                                assert(v@[v@.len() - 1] == x);
                            }
                        }
                    }
                } else {
                    proof {
                        assert forall|x: usize| #[trigger] v@.contains(x) <==> ((x as int) < i + 1 && in_range(ms@[x as int].date as int, start, end)) by {
                            if v@.contains(x) {
                                assert((x as int) < i);
                            }
                        }
                    }
                }
                i = i + 1;
            }
            sort_by_date(ms, v)
        },
    }
}

/// The instant range GrepEmails searches: with a thread in view and no
/// dates, the current week window; otherwise the given days.
pub open spec fn grep_range(args: GrepEmailsArgs, focused: bool, week: (i64, i64)) -> (Option<i64>, Option<i64>) {
    if args.date_from is None && args.date_to is None && focused {
        (Some(week.0), Some(week.1))
    } else {
        (
            match args.date_from { Some(d) => Some(midnight(d.day()) as i64), None => None },
            match args.date_to { Some(d) => Some(midnight(d.day() + 1) as i64), None => None },
        )
    }
}

pub open spec fn grep_cap(args: GrepEmailsArgs, focused: bool) -> usize {
    match args.max_matches {
        Some(m) => m,
        None => if focused { DEFAULT_MAX_MATCHES_FOCUSED } else { DEFAULT_MAX_MATCHES_CROSS },
    }
}

/// Start a GrepEmails call: check and compile the pattern, pick the thread
/// filter, the date range and the match cap, and list the candidates.
pub fn grep_emails_start(index: &EmailIndex, focus: &Option<String>, week: (i64, i64), args: &GrepEmailsArgs) -> (r: Result<GrepEmailsRun, String>)
    requires
        args.date_to matches Some(d) ==> d.day() + 1 <= MAX_DAY,
    ensures
        ({
            let root = chosen_root(args.thread_root_id, *focus);
            let focused = root is Some;
            let from_focus = !(args.thread_root_id is Some && trim(args.thread_root_id->0@).len() > 0) && focus is Some;
            let (start, end) = grep_range(*args, focused, week);
            if args.pattern@.len() == 0 {
                r matches Err(m) && m@ == "pattern is required"@
            } else if !regex_compiles(args.pattern@) {
                r matches Err(m) && m@ == "invalid regex: "@ + args.pattern@
            } else {
                r matches Ok(run) && {
                    &&& run.pattern_source() == args.pattern@
                    &&& run.matches() == 0 && run.scanned() == 0 && !run.cut_matches() && !run.cut_bodies()
                    &&& run.cap() == grep_cap(*args, focused)
                    &&& date_ordered(index.msgs(), run.cands())
                    &&& all_below(run.cands(), index.msgs().len() as int)
                    &&& forall|x: usize| #[trigger] run.cands().contains(x) <==> ((x as int) < index.msgs().len()
                        && root_ok(index.msgs(), root, x as int) && in_range(index.msgs()[x as int].date as int, start, end))
                    &&& run.text() == grep_header(args.pattern@, focused, run.cands().len(), run.cap() as nat,
                        if from_focus { root } else { None })
                }
            }
        }),
{
    if args.pattern.as_str().is_empty() {
        return Err(string_of(&chars_of("pattern is required")));
    }
    let pattern = match compile_pattern(args.pattern.as_str()) {
        Some(p) => p,
        None => {
            let mut m: Vec<char> = Vec::new();
            push_str(&mut m, "invalid regex: ");
            push_str(&mut m, args.pattern.as_str());
            return Err(string_of(&m));
        },
    };
    let (root, from_focus) = resolve_root_filter(&args.thread_root_id, focus);
    let focused = root.is_some();
    let (start, end) = if args.date_from.is_none() && args.date_to.is_none() && focused {
        (Some(week.0), Some(week.1))
    } else {
        date_bounds(args.date_from, args.date_to)
    };
    let cap = match args.max_matches {
        Some(m) => m,
        None => if focused { DEFAULT_MAX_MATCHES_FOCUSED } else { DEFAULT_MAX_MATCHES_CROSS },
    };
    let ms = index.emails();
    let candidates = filtered_rows(ms, &root, start, end);
    let mut out: Vec<char> = Vec::new();
    push_str(&mut out, "GrepEmails pattern=");
    let dp = debug_string(args.pattern.as_str());
    push_str(&mut out, dp.as_str());
    push_str(&mut out, " focused=");
    push_bool(&mut out, focused);
    push_str(&mut out, " candidates=");
    push_decimal(&mut out, candidates.len());
    push_str(&mut out, " max_matches=");
    push_decimal(&mut out, cap);
    push_str(&mut out, " body_scan_cap=");
    push_decimal(&mut out, BODY_SCAN_CAP);
    push_str(&mut out, "\n");
    if from_focus {
        push_str(&mut out, "Using focus_thread_root=");
        match &root {
            Some(r) => push_str(&mut out, r.as_str()),
            None => {},
        }
        push_str(&mut out, "\n");
    }
    push_str(&mut out, "\n");
    let run = GrepEmailsRun {
        pattern,
        candidates,
        max_matches: cap,
        match_lines: 0,
        bodies_scanned: 0,
        truncated_matches: false,
        truncated_bodies: false,
        out,
    };
    proof {
        let rv = match root { Some(s) => Some(s@), None => None };
        assert(rv == chosen_root(args.thread_root_id, *focus));
        assert(run.text() =~= grep_header(args.pattern@, focused, run.cands().len(), cap as nat,
            if from_focus { rv } else { None }));
    }
    Ok(run)
}

pub open spec fn grep_summary(matches: nat, scanned: nat, cut_matches: bool, cut_bodies: bool) -> Seq<char> {
    "\nSummary: match_lines="@ + decimal(matches) + " bodies_scanned="@ + decimal(scanned)
        + (if cut_matches { " truncated=max_matches"@ } else { seq![] })
        + (if cut_bodies { " truncated=body_scan_cap"@ } else { seq![] }) + "\n"@
}

impl GrepEmailsRun {
    /// The finished report: everything recorded, then the summary line.
    pub fn finish(&self) -> (r: String)
        ensures
            r@ == self.text() + grep_summary(self.matches() as nat, self.scanned() as nat, self.cut_matches(), self.cut_bodies()),
    {
        let mut out: Vec<char> = crate::seqs::copy_chars(&self.out);
        let ghost start = out@;
        push_str(&mut out, "\nSummary: match_lines=");
        push_decimal(&mut out, self.match_lines);
        push_str(&mut out, " bodies_scanned=");
        push_decimal(&mut out, self.bodies_scanned);
        if self.truncated_matches {
            push_str(&mut out, " truncated=max_matches");
        }
        if self.truncated_bodies {
            push_str(&mut out, " truncated=body_scan_cap");
        }
        push_str(&mut out, "\n");
        let s = string_of(&out);
        proof {
            assert(s@ =~= self.text() + grep_summary(self.matches() as nat, self.scanned() as nat, self.cut_matches(), self.cut_bodies()));
        }
        s
    }
}

} // verus!
