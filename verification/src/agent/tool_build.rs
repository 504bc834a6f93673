//! Tool argument types and their canonical forms (used for duplicate detection).
use crate::ids::{normalize_message_id, normalized_id};
use crate::numfmt::{decimal, push_decimal};
use crate::outputs::{hex_char, hex_digit};
use crate::text::{chars_of, debug_string, debug_text, push_str, string_of, trim, trim_str};
use crate::tools::mail::{GrepEmailsArgs, ListThreadMessagesArgs};
use crate::week::{parse_ymd, parsed_ymd, WeekDate};
use vstd::prelude::*;

verus! {

broadcast use vstd::string::group_string_axioms;

pub open spec fn opt_view(o: Option<String>) -> Option<Seq<char>> {
    match o {
        Some(s) => Some(s@),
        None => None,
    }
}

/// Trimmed optional text.
pub open spec fn trimmed_opt(o: Option<Seq<char>>) -> Option<Seq<char>> {
    match o {
        Some(s) => Some(trim(s)),
        None => None,
    }
}

/// Normalized optional Message-ID; an id that normalizes to empty is dropped.
pub open spec fn canon_id_opt(o: Option<Seq<char>>) -> Option<Seq<char>> {
    match o {
        Some(s) => if normalized_id(s).len() > 0 {
            Some(normalized_id(s))
        } else {
            None
        },
        None => None,
    }
}

fn trim_string(s: &String) -> (r: String)
    ensures
        r@ == trim(s@),
{
    let t = trim_str(s.as_str());
    string_of(&t)
}

fn trim_opt(s: Option<String>) -> (r: Option<String>)
    ensures
        opt_view(r) == trimmed_opt(opt_view(s)),
{
    match s {
        Some(s) => Some(trim_string(&s)),
        None => None,
    }
}

fn canon_opt_id(id: Option<String>) -> (r: Option<String>)
    ensures
        opt_view(r) == canon_id_opt(opt_view(id)),
{
    match id {
        Some(s) => {
            let n = normalize_message_id(s.as_str());
            if n.as_str().is_empty() {
                None
            } else {
                Some(n)
            }
        },
        None => None,
    }
}

/// Regex search over mailing-list subject + body.
pub struct GrepEmails {
    /// Regular expression pattern.
    pub pattern: String,
    /// Optional thread root Message-ID filter.
    pub thread_root_id: Option<String>,
    /// Optional start date YYYY-MM-DD (inclusive).
    pub date_from: Option<String>,
    /// Optional end date YYYY-MM-DD (inclusive day).
    pub date_to: Option<String>,
    /// Max matching lines to return.
    pub max_matches: Option<usize>,
}

/// Fetch one full email by Message-ID.
pub struct GetEmail {
    /// Message-ID (with or without angle brackets / leading space).
    pub message_id: String,
}

/// List chronological metadata for messages in a thread.
pub struct ListThreadMessages {
    /// Thread root Message-ID; defaults to session focus when set.
    pub thread_root_id: Option<String>,
    pub date_from: Option<String>,
    pub date_to: Option<String>,
}

/// Regex search under previous summary outputs.
pub struct GrepOutputs {
    pub pattern: String,
    /// Optional glob filter under outputs_path.
    pub glob: Option<String>,
    pub max_matches: Option<usize>,
}

/// Glob files under outputs_path.
pub struct GlobOutputs {
    /// Glob relative to outputs, e.g. `*/thread/*.md`.
    pub pattern: String,
}

/// Read a file under outputs_path.
pub struct ReadOutputFile {
    /// Path relative to outputs_path.
    pub path: String,
}

/// Find threads with related subjects.
pub struct SearchRelatedThreads {
    pub subject: String,
    pub limit: Option<usize>,
}

impl GrepEmails {
    /// Trimmed pattern and dates, normalized root id.
    pub fn canonicalize(self) -> (r: Self)
        ensures
            r.pattern@ == trim(self.pattern@),
            opt_view(r.thread_root_id) == canon_id_opt(opt_view(self.thread_root_id)),
            opt_view(r.date_from) == trimmed_opt(opt_view(self.date_from)),
            opt_view(r.date_to) == trimmed_opt(opt_view(self.date_to)),
            r.max_matches == self.max_matches,
    {
        GrepEmails {
            pattern: trim_string(&self.pattern),
            thread_root_id: canon_opt_id(self.thread_root_id),
            date_from: trim_opt(self.date_from),
            date_to: trim_opt(self.date_to),
            max_matches: self.max_matches,
        }
    }
}

impl GetEmail {
    /// Normalized Message-ID.
    pub fn canonicalize(self) -> (r: Self)
        ensures
            r.message_id@ == normalized_id(self.message_id@),
    {
        GetEmail { message_id: normalize_message_id(self.message_id.as_str()) }
    }
}

impl ListThreadMessages {
    /// Normalized root id (blank becomes none), trimmed dates.
    pub fn canonicalize(self) -> (r: Self)
        ensures
            opt_view(r.thread_root_id) == canon_id_opt(opt_view(self.thread_root_id)),
            opt_view(r.date_from) == trimmed_opt(opt_view(self.date_from)),
            opt_view(r.date_to) == trimmed_opt(opt_view(self.date_to)),
    {
        ListThreadMessages {
            thread_root_id: canon_opt_id(self.thread_root_id),
            date_from: trim_opt(self.date_from),
            date_to: trim_opt(self.date_to),
        }
    }
}

impl GrepOutputs {
    /// Trimmed pattern and glob.
    pub fn canonicalize(self) -> (r: Self)
        ensures
            r.pattern@ == trim(self.pattern@),
            opt_view(r.glob) == trimmed_opt(opt_view(self.glob)),
            r.max_matches == self.max_matches,
    {
        GrepOutputs {
            pattern: trim_string(&self.pattern),
            glob: trim_opt(self.glob),
            max_matches: self.max_matches,
        }
    }
}

impl GlobOutputs {
    /// Trimmed pattern.
    pub fn canonicalize(self) -> (r: Self)
        ensures
            r.pattern@ == trim(self.pattern@),
    {
        GlobOutputs { pattern: trim_string(&self.pattern) }
    }
}

impl ReadOutputFile {
    /// Trimmed path.
    pub fn canonicalize(self) -> (r: Self)
        ensures
            r.path@ == trim(self.path@),
    {
        ReadOutputFile { path: trim_string(&self.path) }
    }
}

impl SearchRelatedThreads {
    /// Trimmed subject.
    pub fn canonicalize(self) -> (r: Self)
        ensures
            r.subject@ == trim(self.subject@),
            r.limit == self.limit,
    {
        SearchRelatedThreads { subject: trim_string(&self.subject), limit: self.limit }
    }
}

// ───────────────────────── request fingerprints ─────────────────────────

/// The escape of one character in a JSON string as `serde_json` writes it:
/// `"` and `\\` behind a backslash, the short escapes for backspace, tab,
/// line feed, form feed and carriage return, `\u00XX` (lowercase hex) for
/// the other characters below U+0020, every other character as itself.
pub open spec fn json_escape(c: char) -> Seq<char> {
    let u = c as u32 as int;
    if c == '"' {
        seq!['\\', '"']
    } else if c == '\\' {
        seq!['\\', '\\']
    } else if u == 8 {
        seq!['\\', 'b']
    } else if c == '\t' {
        seq!['\\', 't']
    } else if c == '\n' {
        seq!['\\', 'n']
    } else if u == 12 {
        seq!['\\', 'f']
    } else if c == '\r' {
        seq!['\\', 'r']
    } else if u < 32 {
        seq!['\\', 'u', '0', '0', hex_digit(u / 16), hex_digit(u % 16)]
    } else {
        seq![c]
    }
}

pub open spec fn json_escaped(s: Seq<char>) -> Seq<char>
    decreases s.len(),
{
    if s.len() == 0 {
        seq![]
    } else {
        json_escaped(s.drop_last()) + json_escape(s.last())
    }
}

/// The JSON text `serde_json::to_string` writes for a string: the escaped
/// characters between double quotes.
pub open spec fn json_string_text(s: Seq<char>) -> Seq<char> {
    seq!['"'] + json_escaped(s) + seq!['"']
}

fn push_json(out: &mut Vec<char>, s: &str)
    ensures
        final(out)@ == old(out)@ + json_string_text(s@),
{
    let cs = chars_of(s);
    let ghost start = out@;
    out.push('"');
    proof {
        assert(cs@.take(0) =~= Seq::<char>::empty());
        assert(out@ =~= start + seq!['"'] + json_escaped(cs@.take(0)));
    }
    let mut i: usize = 0;
    while i < cs.len()
        invariant
            i <= cs@.len(),
            out@ == start + seq!['"'] + json_escaped(cs@.take(i as int)),
        decreases cs@.len() - i,
    {
        let c = cs[i];
        let u = c as u32;
        let ghost before = out@;
        if c == '"' {
            out.push('\\');
            out.push('"');
        } else if c == '\\' {
            out.push('\\');
            out.push('\\');
        } else if u == 8 {
            out.push('\\');
            out.push('b');
        } else if c == '\t' {
            out.push('\\');
            out.push('t');
        } else if c == '\n' {
            out.push('\\');
            out.push('n');
        } else if u == 12 {
            out.push('\\');
            out.push('f');
        } else if c == '\r' {
            out.push('\\');
            out.push('r');
        } else if u < 32 {
            out.push('\\');
            out.push('u');
            out.push('0');
            out.push('0');
            out.push(hex_char(u / 16));
            out.push(hex_char(u % 16));
        } else {
            out.push(c);
        }
        proof {
            assert(cs@.take(i + 1).drop_last() =~= cs@.take(i as int));
            assert(cs@.take(i + 1).last() == c);
            assert(out@ =~= before + json_escape(c));
        }
        i = i + 1;
    }
    out.push('"');
    proof {
        assert(cs@.take(cs@.len() as int) =~= cs@);
        assert(out@ =~= start + json_string_text(s@));
    }
}

/// JSON for an optional string: `null` or the string.
pub open spec fn json_opt(o: Option<Seq<char>>) -> Seq<char> {
    match o {
        Some(s) => json_string_text(s),
        None => "null"@,
    }
}

/// JSON for an optional count: `null` or its decimal digits.
pub open spec fn json_count(o: Option<usize>) -> Seq<char> {
    match o {
        Some(n) => decimal(n as nat),
        None => "null"@,
    }
}

fn push_json_opt(out: &mut Vec<char>, o: &Option<String>)
    ensures
        final(out)@ == old(out)@ + json_opt(opt_view(*o)),
{
    match o {
        Some(s) => push_json(out, s.as_str()),
        None => push_str(out, "null"),
    }
}

fn push_count(out: &mut Vec<char>, o: Option<usize>)
    ensures
        final(out)@ == old(out)@ + json_count(o),
{
    match o {
        Some(n) => push_decimal(out, n),
        None => push_str(out, "null"),
    }
}

impl GrepEmails {
    /// The call's fields as one JSON object, in declaration order: the key
    /// under which a session remembers the call.
    pub open spec fn key_text(&self) -> Seq<char> {
        "{\"pattern\":"@ + json_string_text(self.pattern@) + ",\"thread_root_id\":"@ + json_opt(
            opt_view(self.thread_root_id),
        ) + ",\"date_from\":"@ + json_opt(opt_view(self.date_from)) + ",\"date_to\":"@ + json_opt(
            opt_view(self.date_to),
        ) + ",\"max_matches\":"@ + json_count(self.max_matches) + "}"@
    }

    pub fn fingerprint(&self) -> (r: String)
        ensures
            r@ == self.key_text(),
    {
        let mut out = chars_of("{\"pattern\":");
        push_json(&mut out, self.pattern.as_str());
        push_str(&mut out, ",\"thread_root_id\":");
        push_json_opt(&mut out, &self.thread_root_id);
        push_str(&mut out, ",\"date_from\":");
        push_json_opt(&mut out, &self.date_from);
        push_str(&mut out, ",\"date_to\":");
        push_json_opt(&mut out, &self.date_to);
        push_str(&mut out, ",\"max_matches\":");
        push_count(&mut out, self.max_matches);
        push_str(&mut out, "}");
        string_of(&out)
    }
}

impl GetEmail {
    /// The call's fields as one JSON object (see `GrepEmails::key_text`).
    pub open spec fn key_text(&self) -> Seq<char> {
        "{\"message_id\":"@ + json_string_text(self.message_id@) + "}"@
    }

    pub fn fingerprint(&self) -> (r: String)
        ensures
            r@ == self.key_text(),
    {
        let mut out = chars_of("{\"message_id\":");
        push_json(&mut out, self.message_id.as_str());
        push_str(&mut out, "}");
        string_of(&out)
    }
}

impl ListThreadMessages {
    /// The call's fields as one JSON object (see `GrepEmails::key_text`).
    pub open spec fn key_text(&self) -> Seq<char> {
        "{\"thread_root_id\":"@ + json_opt(opt_view(self.thread_root_id)) + ",\"date_from\":"@ + json_opt(
            opt_view(self.date_from),
        ) + ",\"date_to\":"@ + json_opt(opt_view(self.date_to)) + "}"@
    }

    pub fn fingerprint(&self) -> (r: String)
        ensures
            r@ == self.key_text(),
    {
        let mut out = chars_of("{\"thread_root_id\":");
        push_json_opt(&mut out, &self.thread_root_id);
        push_str(&mut out, ",\"date_from\":");
        push_json_opt(&mut out, &self.date_from);
        push_str(&mut out, ",\"date_to\":");
        push_json_opt(&mut out, &self.date_to);
        push_str(&mut out, "}");
        string_of(&out)
    }
}

impl GrepOutputs {
    /// The call's fields as one JSON object (see `GrepEmails::key_text`).
    pub open spec fn key_text(&self) -> Seq<char> {
        "{\"pattern\":"@ + json_string_text(self.pattern@) + ",\"glob\":"@ + json_opt(opt_view(self.glob))
            + ",\"max_matches\":"@ + json_count(self.max_matches) + "}"@
    }

    pub fn fingerprint(&self) -> (r: String)
        ensures
            r@ == self.key_text(),
    {
        let mut out = chars_of("{\"pattern\":");
        push_json(&mut out, self.pattern.as_str());
        push_str(&mut out, ",\"glob\":");
        push_json_opt(&mut out, &self.glob);
        push_str(&mut out, ",\"max_matches\":");
        push_count(&mut out, self.max_matches);
        push_str(&mut out, "}");
        string_of(&out)
    }
}

impl GlobOutputs {
    /// The call's fields as one JSON object (see `GrepEmails::key_text`).
    pub open spec fn key_text(&self) -> Seq<char> {
        "{\"pattern\":"@ + json_string_text(self.pattern@) + "}"@
    }

    pub fn fingerprint(&self) -> (r: String)
        ensures
            r@ == self.key_text(),
    {
        let mut out = chars_of("{\"pattern\":");
        push_json(&mut out, self.pattern.as_str());
        push_str(&mut out, "}");
        string_of(&out)
    }
}

impl ReadOutputFile {
    /// The call's fields as one JSON object (see `GrepEmails::key_text`).
    pub open spec fn key_text(&self) -> Seq<char> {
        "{\"path\":"@ + json_string_text(self.path@) + "}"@
    }

    pub fn fingerprint(&self) -> (r: String)
        ensures
            r@ == self.key_text(),
    {
        let mut out = chars_of("{\"path\":");
        push_json(&mut out, self.path.as_str());
        push_str(&mut out, "}");
        string_of(&out)
    }
}

impl SearchRelatedThreads {
    /// The call's fields as one JSON object (see `GrepEmails::key_text`).
    pub open spec fn key_text(&self) -> Seq<char> {
        "{\"subject\":"@ + json_string_text(self.subject@) + ",\"limit\":"@ + json_count(self.limit) + "}"@
    }

    pub fn fingerprint(&self) -> (r: String)
        ensures
            r@ == self.key_text(),
    {
        let mut out = chars_of("{\"subject\":");
        push_json(&mut out, self.subject.as_str());
        push_str(&mut out, ",\"limit\":");
        push_count(&mut out, self.limit);
        push_str(&mut out, "}");
        string_of(&out)
    }
}

// ───────────────────────── dates in tool arguments ─────────────────────────

/// A day number, if there is a date.
pub open spec fn day_opt(d: Option<WeekDate>) -> Option<int> {
    match d {
        Some(w) => Some(w.day()),
        None => None,
    }
}

/// An optional `YYYY-MM-DD` argument: no date, the date's day number, or
/// the message refusing it.
pub open spec fn date_arg(s: Option<Seq<char>>) -> Result<Option<int>, Seq<char>> {
    match s {
        None => Ok(None),
        Some(t) => match parsed_ymd(t) {
            Ok(d) => Ok(Some(d)),
            Err(e) => Err("invalid date "@ + debug_text(t) + ": "@ + e),
        },
    }
}

/// Parse an optional `YYYY-MM-DD` tool argument.
pub fn parse_date(s: &Option<String>) -> (r: Result<Option<WeekDate>, String>)
    ensures
        match r {
            Ok(d) => date_arg(opt_view(*s)) == Ok::<Option<int>, Seq<char>>(day_opt(d)),
            Err(m) => date_arg(opt_view(*s)) == Err::<Option<int>, Seq<char>>(m@),
        },
{
    match s {
        None => Ok(None),
        Some(t) => match parse_ymd(t.as_str()) {
            Ok(n) => match WeekDate::from_days(n) {
                Some(w) => Ok(Some(w)),
                None => Ok(None),
            },
            Err(e) => {
                let mut m = chars_of("invalid date ");
                let q = debug_string(t.as_str());
                push_str(&mut m, q.as_str());
                push_str(&mut m, ": ");
                push_str(&mut m, e.as_str());
                Err(string_of(&m))
            },
        },
    }
}

impl GrepEmails {
    /// The search a GrepEmails call asks for: its canonical form with the
    /// dates parsed, or the message refusing the first bad date.
    pub fn into_args(self) -> (r: Result<GrepEmailsArgs, String>)
        ensures
            ({
                let from = date_arg(trimmed_opt(opt_view(self.date_from)));
                let to = date_arg(trimmed_opt(opt_view(self.date_to)));
                match r {
                    Ok(a) => {
                        &&& from == Ok::<Option<int>, Seq<char>>(day_opt(a.date_from))
                        &&& to == Ok::<Option<int>, Seq<char>>(day_opt(a.date_to))
                        &&& a.pattern@ == trim(self.pattern@)
                        &&& opt_view(a.thread_root_id) == canon_id_opt(opt_view(self.thread_root_id))
                        &&& a.max_matches == self.max_matches
                    },
                    Err(m) => from == Err::<Option<int>, Seq<char>>(m@) || (from is Ok
                        && to == Err::<Option<int>, Seq<char>>(m@)),
                }
            }),
    {
        let c = self.canonicalize();
        let date_from = match parse_date(&c.date_from) {
            Ok(d) => d,
            Err(m) => return Err(m),
        };
        let date_to = match parse_date(&c.date_to) {
            Ok(d) => d,
            Err(m) => return Err(m),
        };
        Ok(GrepEmailsArgs {
            pattern: c.pattern,
            thread_root_id: c.thread_root_id,
            date_from,
            date_to,
            max_matches: c.max_matches,
        })
    }
}

impl ListThreadMessages {
    /// The listing a ListThreadMessages call asks for: its canonical form
    /// with the dates parsed, or the message refusing the first bad date.
    pub fn into_args(self) -> (r: Result<ListThreadMessagesArgs, String>)
        ensures
            ({
                let from = date_arg(trimmed_opt(opt_view(self.date_from)));
                let to = date_arg(trimmed_opt(opt_view(self.date_to)));
                match r {
                    Ok(a) => {
                        &&& from == Ok::<Option<int>, Seq<char>>(day_opt(a.date_from))
                        &&& to == Ok::<Option<int>, Seq<char>>(day_opt(a.date_to))
                        &&& opt_view(a.thread_root_id) == canon_id_opt(opt_view(self.thread_root_id))
                    },
                    Err(m) => from == Err::<Option<int>, Seq<char>>(m@) || (from is Ok
                        && to == Err::<Option<int>, Seq<char>>(m@)),
                }
            }),
    {
        let c = self.canonicalize();
        let date_from = match parse_date(&c.date_from) {
            Ok(d) => d,
            Err(m) => return Err(m),
        };
        let date_to = match parse_date(&c.date_to) {
            Ok(d) => d,
            Err(m) => return Err(m),
        };
        Ok(ListThreadMessagesArgs { thread_root_id: c.thread_root_id, date_from, date_to })
    }
}

} // verus!
