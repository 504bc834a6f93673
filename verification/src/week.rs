//! Calendar week windows and the week-resolution rules.
//!
//! A date is its day number counted from 0001-01-01 (day 1), the count
//! `chrono::NaiveDate::num_days_from_ce` gives; instants are Unix seconds.
use crate::text::{chars_of, debug_string, debug_text, push_str, string_of};
use chrono::Datelike;
use vstd::prelude::*;

verus! {

broadcast use vstd::string::group_string_axioms;

/// Day number of `NaiveDate::MIN` (-262143-01-01).
pub const MIN_DAY: i32 = -95746129;

/// Day number of `NaiveDate::MAX` (+262142-12-31).
pub const MAX_DAY: i32 = 95745399;

/// Day number of 1970-01-01.
pub const UNIX_EPOCH_DAY: i32 = 719163;

pub const SECS_PER_DAY: i64 = 86400;

/// A calendar date in the range `chrono::NaiveDate` covers.
#[derive(Debug, Clone, Copy, PartialEq, Eq, Structural)]
pub struct WeekDate {
    days: i32,
}

/// The text `NaiveDate`'s `Display` gives for the date with this day number
/// (`YYYY-MM-DD` for years 0 to 9999).
pub uninterp spec fn iso_date_text(day: int) -> Seq<char>;

/// What `NaiveDate::parse_from_str(s, "%Y-%m-%d")` gives: the date's day
/// number, or the message of its parse error.
pub uninterp spec fn parsed_ymd(s: Seq<char>) -> Result<int, Seq<char>>;

/// The day number of `NaiveDate::parse_from_str(s, "%Y-%m-%d")`, if it parses.
pub open spec fn parsed_ymd_day(s: Seq<char>) -> Option<int> {
    match parsed_ymd(s) {
        Ok(d) => Some(d),
        Err(_) => None,
    }
}

/// The day number of `NaiveDate::from_ymd_opt(y, m, d)`, if that date exists.
pub uninterp spec fn ymd_day(y: int, m: int, d: int) -> Option<int>;

/// `NaiveDate`'s `Display` for a date in range.
#[verifier::external_body]
fn iso_date_string(days: i32) -> (s: String)
    requires
        MIN_DAY <= days <= MAX_DAY,
    ensures
        s@ == iso_date_text(days as int),
{
    match chrono::NaiveDate::from_num_days_from_ce_opt(days) {
        Some(d) => d.to_string(),
        None => String::new(),
    }
}

/// The text of `NaiveDate::format("%Y-%m-%d")` for the date with this day number.
pub uninterp spec fn ymd_format_text(day: int) -> Seq<char>;

/// `NaiveDate::format("%Y-%m-%d")` for a date in range.
#[verifier::external_body]
pub(crate) fn format_ymd(days: i32) -> (s: String)
    requires
        MIN_DAY <= days <= MAX_DAY,
    ensures
        s@ == ymd_format_text(days as int),
{
    match chrono::NaiveDate::from_num_days_from_ce_opt(days) {
        Some(d) => d.format("%Y-%m-%d").to_string(),
        None => String::new(),
    }
}

/// `NaiveDate::parse_from_str(s, "%Y-%m-%d")`, as a day number, or the
/// parse error's `Display` text.
#[verifier::external_body]
pub(crate) fn parse_ymd(s: &str) -> (r: Result<i32, String>)
    ensures
        match r {
            Ok(d) => parsed_ymd(s@) == Ok::<int, Seq<char>>(d as int) && MIN_DAY <= d <= MAX_DAY,
            Err(e) => parsed_ymd(s@) == Err::<int, Seq<char>>(e@),
        },
{
    match chrono::NaiveDate::parse_from_str(s, "%Y-%m-%d") {
        Ok(d) => Ok(d.num_days_from_ce()),
        Err(e) => Err(e.to_string()),
    }
}

/// `NaiveDate::from_ymd_opt`, as a day number.
#[verifier::external_body]
fn from_ymd_opt(y: i32, m: u32, d: u32) -> (r: Option<i32>)
    ensures
        match r {
            Some(n) => ymd_day(y as int, m as int, d as int) == Some(n as int) && MIN_DAY <= n
                <= MAX_DAY,
            None => ymd_day(y as int, m as int, d as int) is None,
        },
{
    match chrono::NaiveDate::from_ymd_opt(y, m, d) {
        Some(date) => Some(date.num_days_from_ce()),
        None => None,
    }
}

impl WeekDate {
    #[verifier::type_invariant]
    spec fn in_range(self) -> bool {
        MIN_DAY <= self.days <= MAX_DAY
    }

    /// The day number.
    pub closed spec fn day(self) -> int {
        self.days as int
    }

    pub fn days(&self) -> (r: i32)
        ensures
            r == self.day(),
            MIN_DAY <= r <= MAX_DAY,
    {
        proof {
            use_type_invariant(self);
        }
        self.days
    }

    /// The date with day number `days`, if `NaiveDate` covers it.
    pub fn from_days(days: i32) -> (r: Option<WeekDate>)
        ensures
            match r {
                Some(w) => MIN_DAY <= days <= MAX_DAY && w.day() == days,
                None => !(MIN_DAY <= days <= MAX_DAY),
            },
    {
        if MIN_DAY <= days && days <= MAX_DAY {
            Some(WeekDate { days })
        } else {
            None
        }
    }

    /// The date `y-m-d`, if it exists.
    pub fn from_ymd(y: i32, m: u32, d: u32) -> (r: Option<WeekDate>)
        ensures
            match r {
                Some(w) => ymd_day(y as int, m as int, d as int) == Some(w.day()),
                None => ymd_day(y as int, m as int, d as int) is None,
            },
    {
        match from_ymd_opt(y, m, d) {
            Some(n) => Some(WeekDate { days: n }),
            None => None,
        }
    }

    /// `YYYY-MM-DD`.
    pub fn to_string(&self) -> (s: String)
        ensures
            s@ == iso_date_text(self.day()),
    {
        iso_date_string(self.days())
    }
}

/// The date `s` names as `YYYY-MM-DD`, if it does.
pub(crate) fn parse_day(s: &str) -> (r: Option<WeekDate>)
    ensures
        match r {
            Some(w) => parsed_ymd_day(s@) == Some(w.day()),
            None => parsed_ymd_day(s@) is None,
        },
{
    match parse_ymd(s) {
        Ok(n) => Some(WeekDate { days: n }),
        Err(_) => None,
    }
}

/// Refusal of a week date that does not parse.
pub open spec fn bad_week_date_text(s: Seq<char>) -> Seq<char> {
    "invalid week date "@ + debug_text(s) + ", expected YYYY-MM-DD"@
}

/// Parse a `YYYY-MM-DD` week date given on the command line.
pub fn parse_week_date(s: &str) -> (r: Result<WeekDate, String>)
    ensures
        match r {
            Ok(w) => parsed_ymd_day(s@) == Some(w.day()),
            Err(m) => parsed_ymd_day(s@) is None && m@ == bad_week_date_text(s@),
        },
{
    match parse_day(s) {
        Some(w) => Ok(w),
        None => {
            let mut out = chars_of("invalid week date ");
            let q = debug_string(s);
            push_str(&mut out, q.as_str());
            push_str(&mut out, ", expected YYYY-MM-DD");
            Err(string_of(&out))
        },
    }
}

// ───────────────────────── windows ─────────────────────────

/// Unix seconds of midnight (UTC) starting the day with this number.
pub open spec fn midnight(day: int) -> int {
    (day - UNIX_EPOCH_DAY) * SECS_PER_DAY
}

/// Half-open UTC window for the week ending on `w`:
/// `[W−6 00:00:00 UTC, W+1 00:00:00 UTC)`, in Unix seconds.
pub fn week_window(w: WeekDate) -> (r: (i64, i64))
    requires
        MIN_DAY <= w.day() - 6,
        w.day() + 1 <= MAX_DAY,
    ensures
        r.0 == midnight(w.day() - 6),
        r.1 == midnight(w.day() + 1),
{
    let d = w.days() as i64;
    assert((d - 6 - UNIX_EPOCH_DAY) * SECS_PER_DAY <= 100000000 * 86400) by (nonlinear_arith)
        requires
            d <= MAX_DAY,
    ;
    assert((d - 6 - UNIX_EPOCH_DAY) * SECS_PER_DAY >= -100000000 * 86400) by (nonlinear_arith)
        requires
            d >= MIN_DAY,
    ;
    assert((d + 1 - UNIX_EPOCH_DAY) * SECS_PER_DAY <= 100000000 * 86400) by (nonlinear_arith)
        requires
            d <= MAX_DAY,
    ;
    assert((d + 1 - UNIX_EPOCH_DAY) * SECS_PER_DAY >= -100000000 * 86400) by (nonlinear_arith)
        requires
            d >= MIN_DAY,
    ;
    let start = (d - 6 - UNIX_EPOCH_DAY as i64) * SECS_PER_DAY;
    let end = (d + 1 - UNIX_EPOCH_DAY as i64) * SECS_PER_DAY;
    (start, end)
}

/// True if the instant `t` (Unix seconds) falls in the week window for `w`.
pub fn in_week_window(w: WeekDate, t: i64) -> (r: bool)
    requires
        MIN_DAY <= w.day() - 6,
        w.day() + 1 <= MAX_DAY,
    ensures
        r == (midnight(w.day() - 6) <= t < midnight(w.day() + 1)),
{
    let (start, end) = week_window(w);
    t >= start && t < end
}

/// Refusal to summarize a week that has not ended yet.
pub open spec fn not_ended_text(w: int, today: int) -> Seq<char> {
    "week ending "@ + iso_date_text(w) + " has not ended yet (UTC today is "@ + iso_date_text(
        today,
    ) + "); cannot summarize"@
}

/// Fail if the week ending `w` has not ended yet relative to `today` (UTC date).
pub fn assert_week_ended_at(w: WeekDate, today: WeekDate) -> (r: Result<(), String>)
    ensures
        match r {
            Ok(()) => w.day() < today.day(),
            Err(msg) => today.day() <= w.day() && msg@ == not_ended_text(w.day(), today.day()),
        },
{
    if today.days() <= w.days() {
        let mut out: Vec<char> = Vec::new();
        push_str(&mut out, "week ending ");
        let ws = w.to_string();
        push_str(&mut out, ws.as_str());
        push_str(&mut out, " has not ended yet (UTC today is ");
        let ts = today.to_string();
        push_str(&mut out, ts.as_str());
        push_str(&mut out, "); cannot summarize");
        return Err(string_of(&out));
    }
    Ok(())
}

/// Today's date in UTC (`Utc::now().date_naive()`), as a day number. It
/// depends on the clock: nothing is claimed of it but that it is a date.
#[verifier::external_body]
fn today_utc_days() -> (r: i32)
    ensures
        MIN_DAY <= r <= MAX_DAY,
{
    chrono::Utc::now().date_naive().num_days_from_ce()
}

/// The answer of the week-end check for the week ending on day `w` when
/// today (UTC) is day `today`: success once the week is over, else the refusal.
pub open spec fn week_end_check(w: int, today: int) -> Result<(), Seq<char>> {
    if w < today {
        Ok(())
    } else {
        Err(not_ended_text(w, today))
    }
}

/// A unit result with its message viewed as characters.
pub open spec fn unit_result_view(r: Result<(), String>) -> Result<(), Seq<char>> {
    match r {
        Ok(()) => Ok(()),
        Err(m) => Err(m@),
    }
}

/// Fail if the week ending `w` has not ended yet by today's UTC date: the
/// answer is the week-end check against some date the clock gave, so a week
/// ending on the last representable date is always refused.
pub fn assert_week_ended(w: WeekDate) -> (r: Result<(), String>)
    ensures
        exists|t: int| MIN_DAY <= t <= MAX_DAY && unit_result_view(r) == #[trigger] week_end_check(w.day(), t),
{
    let today = match WeekDate::from_days(today_utc_days()) {
        Some(d) => d,
        None => return Ok(()),
    };
    let r = assert_week_ended_at(w, today);
    proof {
        assert(unit_result_view(r) == week_end_check(w.day(), today.day()));
    }
    r
}

// ───────────────────────── week resolution ─────────────────────────

/// Outcome of the week resolution rules (before wall-clock end checks).
#[derive(Debug, Clone, Copy, PartialEq, Eq, Structural)]
pub enum ResolveWeekOutcome {
    /// Run summarization for this week end date.
    Process(WeekDate),
    /// Week dir already has `.complete`; exit success with no work.
    AlreadyComplete(WeekDate),
}

/// Why no week could be chosen.
#[derive(Debug, Clone)]
pub enum ResolveWeekError {
    /// More than one week directory lacks `.complete` (the distinct dates, ascending).
    MultipleIncomplete(Vec<WeekDate>),
    /// The week after the last complete one is past the calendar's end.
    Overflow,
    /// `--start-week` names another week than the one after the last complete one.
    StartWeekConflict { next: WeekDate, got: WeekDate },
    /// No week directories and no `--start-week`.
    NoWeeks,
}

pub open spec fn days_of(v: Seq<WeekDate>) -> Seq<int> {
    v.map_values(|d: WeekDate| d.day())
}

pub open spec fn strictly_increasing(s: Seq<int>) -> bool {
    forall|i: int, j: int| 0 <= i < j < s.len() ==> s[i] < s[j]
}

/// The largest day number in a non-empty sequence.
pub open spec fn max_day(s: Seq<int>) -> int
    decreases s.len(),
{
    if s.len() <= 1 {
        if s.len() == 1 { s[0] } else { 0 }
    } else {
        let m = max_day(s.drop_last());
        if s.last() > m { s.last() } else { m }
    }
}

/// Two different dates occur in `s`.
pub open spec fn two_distinct(s: Seq<int>) -> bool {
    exists|a: int, b: int| 0 <= a < s.len() && 0 <= b < s.len() && #[trigger] s[a] != #[trigger] s[b]
}

/// Joined `YYYY-MM-DD` texts, `, `-separated.
pub open spec fn iso_list(s: Seq<int>) -> Seq<char>
    decreases s.len(),
{
    if s.len() == 0 {
        seq![]
    } else if s.len() == 1 {
        iso_date_text(s[0])
    } else {
        iso_list(s.drop_last()) + ", "@ + iso_date_text(s.last())
    }
}

pub open spec fn precedence_warning() -> Seq<char> {
    "--week takes precedence; ignoring --start-week"@
}

pub open spec fn resume_warning(day: int) -> Seq<char> {
    "resuming incomplete week "@ + iso_date_text(day) + "; ignoring --start-week"@
}

impl ResolveWeekError {
    pub open spec fn text(&self) -> Seq<char> {
        match self {
            ResolveWeekError::MultipleIncomplete(list) => "multiple incomplete week directories (no .complete): ["@
                + iso_list(days_of(list@))
                + "]; finish or remove extras so at most one incomplete week remains"@,
            ResolveWeekError::Overflow => "week +7 overflow"@,
            ResolveWeekError::StartWeekConflict { next, got } =>
                "--start-week is bootstrap-only; complete weeks already exist (next auto week is "@
                + iso_date_text(next.day()) + ", got --start-week "@ + iso_date_text(got.day())
                + ")"@,
            ResolveWeekError::NoWeeks =>
                "outputs_path has no week directories; pass --start-week YYYY-MM-DD for the first edition"@,
        }
    }

    /// The error message.
    pub fn to_string(&self) -> (s: String)
        ensures
            s@ == self.text(),
    {
        let mut out: Vec<char> = Vec::new();
        match self {
            ResolveWeekError::MultipleIncomplete(list) => {
                push_str(&mut out, "multiple incomplete week directories (no .complete): [");
                let ghost start = out@;
                let mut i: usize = 0;
                while i < list.len()
                    invariant
                        i <= list@.len(),
                        out@ == start + iso_list(days_of(list@).take(i as int)),
                    decreases list@.len() - i,
                {
                    if i > 0 {
                        push_str(&mut out, ", ");
                    }
                    let s = list[i].to_string();
                    push_str(&mut out, s.as_str());
                    proof {
                        let d = days_of(list@);
                        assert(d.take(i + 1).drop_last() =~= d.take(i as int));
                        assert(d.take(i + 1).last() == list@[i as int].day());
                        if i == 0 {
                            assert(d.take(0) =~= Seq::<int>::empty());
                        }
                    }
                    i = i + 1;
                }
                proof {
                    assert(days_of(list@).take(list@.len() as int) =~= days_of(list@));
                }
                push_str(&mut out, "]; finish or remove extras so at most one incomplete week remains");
            },
            ResolveWeekError::Overflow => {
                push_str(&mut out, "week +7 overflow");
            },
            ResolveWeekError::StartWeekConflict { next, got } => {
                push_str(
                    &mut out,
                    "--start-week is bootstrap-only; complete weeks already exist (next auto week is ",
                );
                let n = next.to_string();
                push_str(&mut out, n.as_str());
                push_str(&mut out, ", got --start-week ");
                let g = got.to_string();
                push_str(&mut out, g.as_str());
                push_str(&mut out, ")");
            },
            ResolveWeekError::NoWeeks => {
                push_str(
                    &mut out,
                    "outputs_path has no week directories; pass --start-week YYYY-MM-DD for the first edition",
                );
            },
        }
        string_of(&out)
    }
}

/// The distinct dates of `v`, ascending.
pub fn sort_dedup_dates(v: &Vec<WeekDate>) -> (r: Vec<WeekDate>)
    ensures
        strictly_increasing(days_of(r@)),
        forall|x: int| days_of(r@).contains(x) <==> days_of(v@).contains(x),
{
    let mut out: Vec<WeekDate> = Vec::new();
    let mut i: usize = 0;
    while i < v.len()
        invariant
            i <= v@.len(),
            strictly_increasing(days_of(out@)),
            forall|x: int| days_of(out@).contains(x) <==> days_of(v@.take(i as int)).contains(x),
        decreases v@.len() - i,
    {
        let x = v[i];
        let xd = x.days();
        let mut j: usize = 0;
        while j < out.len() && out[j].days() < xd
            invariant
                j <= out@.len(),
                forall|k: int| 0 <= k < j ==> out@[k].day() < xd,
            decreases out@.len() - j,
        {
            j = j + 1;
        }
        let ghost before = out@;
        let dup = j < out.len() && out[j].days() == xd;
        if !dup {
            out.insert(j, x);
        }
        proof {
            let db = days_of(before);
            let dv = days_of(v@.take(i + 1));
            assert(days_of(v@.take(i + 1)) =~= days_of(v@.take(i as int)).push(xd as int));
            if !dup {
                assert(days_of(out@) =~= db.insert(j as int, xd as int));
                db.insert_ensures(j as int, xd as int);
                assert forall|a: int, b: int| 0 <= a < b < days_of(out@).len() implies days_of(out@)[a] < days_of(out@)[b] by {
                    if b < j {
                    } else if a < j && b == j {
                    } else if a < j {
                        assert(days_of(out@)[b] == db[b - 1]);
                    } else if a == j {
                        assert(days_of(out@)[b] == db[b - 1]);
                        assert(db[j as int] >= xd);
                        if b - 1 > j {
                            assert(db[j as int] < db[b - 1]);
                        }
                    } else {
                        assert(days_of(out@)[a] == db[a - 1]);
                        assert(days_of(out@)[b] == db[b - 1]);
                    }
                }
                assert forall|y: int| days_of(out@).contains(y) <==> dv.contains(y) by {
                    if days_of(out@).contains(y) {
                        let k = choose|k: int| 0 <= k < days_of(out@).len() && days_of(out@)[k] == y;
                        if k < j {
                            assert(db[k] == y);
                        } else if k > j {
                            assert(db[k - 1] == y);
                        }
                        if y != xd {
                            assert(db.contains(y));
                            assert(days_of(v@.take(i as int)).contains(y));
                            let m = choose|m: int| 0 <= m < days_of(v@.take(i as int)).len() && days_of(v@.take(i as int))[m] == y;
                            assert(dv[m] == y);
                        } else {
                            assert(dv[i as int] == y);
                        }
                    }
                    if dv.contains(y) {
                        let m = choose|m: int| 0 <= m < dv.len() && dv[m] == y;
                        if m < i {
                            assert(days_of(v@.take(i as int))[m] == y);
                            assert(db.contains(y));
                            let k = choose|k: int| 0 <= k < db.len() && db[k] == y;
                            if k < j {
                                assert(days_of(out@)[k] == y);
                            } else {
                                assert(days_of(out@)[k + 1] == y);
                            }
                        } else {
                            assert(days_of(out@)[j as int] == y);
                        }
                    }
                }
            } else {
                assert(days_of(out@) == db);
                assert forall|y: int| days_of(out@).contains(y) <==> dv.contains(y) by {
                    if dv.contains(y) {
                        let m = choose|m: int| 0 <= m < dv.len() && dv[m] == y;
                        if m < i {
                            assert(days_of(v@.take(i as int))[m] == y);
                        } else {
                            assert(db[j as int] == y);
                        }
                    }
                    if days_of(out@).contains(y) {
                        let k = choose|k: int| 0 <= k < db.len() && db[k] == y;
                        assert(days_of(v@.take(i as int)).contains(y));
                        let m = choose|m: int| 0 <= m < days_of(v@.take(i as int)).len() && days_of(v@.take(i as int))[m] == y;
                        assert(dv[m] == y);
                    }
                }
            }
        }
        i = i + 1;
    }
    proof {
        assert(v@.take(i as int) =~= v@);
    }
    out
}

proof fn lemma_max_day(s: Seq<int>)
    requires
        s.len() > 0,
    ensures
        s.contains(max_day(s)),
        forall|k: int| 0 <= k < s.len() ==> #[trigger] s[k] <= max_day(s),
    decreases s.len(),
{
    if s.len() > 1 {
        lemma_max_day(s.drop_last());
        let m = max_day(s.drop_last());
        let k0 = choose|k: int| 0 <= k < s.drop_last().len() && s.drop_last()[k] == m;
        assert(s[k0] == m);
        assert forall|k: int| 0 <= k < s.len() implies #[trigger] s[k] <= max_day(s) by {
            if k < s.len() - 1 {
                assert(s.drop_last()[k] == s[k]);
            }
        }
        if s.last() > m {
            assert(s[s.len() - 1] == max_day(s));
        }
    } else {
        assert(s[0] == max_day(s));
    }
}

/// The largest date of a non-empty list.
fn last_date(v: &Vec<WeekDate>) -> (r: WeekDate)
    requires
        v@.len() > 0,
    ensures
        r.day() == max_day(days_of(v@)),
{
    let mut best = v[0];
    let mut i: usize = 1;
    assert(days_of(v@).take(1) =~= seq![v@[0].day()]);
    while i < v.len()
        invariant
            1 <= i <= v@.len(),
            best.day() == max_day(days_of(v@).take(i as int)),
        decreases v@.len() - i,
    {
        proof {
            assert(days_of(v@).take(i + 1).drop_last() =~= days_of(v@).take(i as int));
        }
        if v[i].days() > best.days() {
            best = v[i];
        }
        i = i + 1;
    }
    assert(days_of(v@).take(i as int) =~= days_of(v@));
    best
}

fn holds_date(v: &Vec<WeekDate>, w: WeekDate) -> (r: bool)
    ensures
        r == days_of(v@).contains(w.day()),
{
    let wd = w.days();
    let mut i: usize = 0;
    while i < v.len()
        invariant
            i <= v@.len(),
            wd == w.day(),
            forall|k: int| 0 <= k < i ==> v@[k].day() != wd,
        decreases v@.len() - i,
    {
        if v[i].days() == wd {
            proof {
                assert(days_of(v@)[i as int] == wd);
            }
            return true;
        }
        i = i + 1;
    }
    proof {
        if days_of(v@).contains(w.day()) {
            let k = choose|k: int| 0 <= k < days_of(v@).len() && days_of(v@)[k] == w.day();
            assert(v@[k].day() == wd);
        }
    }
    false
}

fn text_string(s: &str) -> (r: String)
    ensures
        r@ == s@,
{
    string_of(&chars_of(s))
}

/// Which week to process (before wall-clock end checks).
///
/// `complete` / `incomplete` are week-ending dates found under the outputs
/// directory. An explicit `week` wins; otherwise the single incomplete week
/// is resumed, else the week after the last complete one follows, else
/// `start_week` starts the chain. Warnings (such as an ignored
/// `--start-week`) are returned for the caller to log.
pub fn resolve_week(
    week: Option<WeekDate>,
    start_week: Option<WeekDate>,
    complete: Vec<WeekDate>,
    incomplete: Vec<WeekDate>,
) -> (r: Result<(ResolveWeekOutcome, Vec<String>), ResolveWeekError>)
    ensures
        ({
            let cd = days_of(complete@);
            let id = days_of(incomplete@);
            match week {
                Some(w) => r matches Ok((o, warns)) && o == (if cd.contains(w.day()) {
                    ResolveWeekOutcome::AlreadyComplete(w)
                } else {
                    ResolveWeekOutcome::Process(w)
                }) && warns@.map_values(|s: String| s@) == (if start_week is Some {
                    seq![precedence_warning()]
                } else {
                    Seq::<Seq<char>>::empty()
                }),
                None => if two_distinct(id) {
                    r matches Err(ResolveWeekError::MultipleIncomplete(list)) && strictly_increasing(
                        days_of(list@),
                    ) && forall|x: int| days_of(list@).contains(x) <==> id.contains(x)
                } else if id.len() > 0 {
                    r matches Ok((ResolveWeekOutcome::Process(i), warns)) && i.day() == id[0]
                        && warns@.map_values(|s: String| s@) == (if start_week is Some {
                        seq![resume_warning(id[0])]
                    } else {
                        Seq::<Seq<char>>::empty()
                    })
                } else if cd.len() > 0 {
                    let next = max_day(cd) + 7;
                    if next > MAX_DAY {
                        r matches Err(ResolveWeekError::Overflow)
                    } else if start_week matches Some(s) && s.day() != next {
                        r matches Err(ResolveWeekError::StartWeekConflict { next: n, got: g })
                            && n.day() == next && g == start_week->0
                    } else {
                        r matches Ok((ResolveWeekOutcome::Process(n), warns)) && n.day() == next
                            && warns@.len() == 0
                    }
                } else {
                    match start_week {
                        Some(s) => r matches Ok((ResolveWeekOutcome::Process(n), warns)) && n == s
                            && warns@.len() == 0,
                        None => r matches Err(ResolveWeekError::NoWeeks),
                    }
                },
            }
        }),
{
    let mut warnings: Vec<String> = Vec::new();
    if let Some(w) = week {
        if start_week.is_some() {
            warnings.push(text_string("--week takes precedence; ignoring --start-week"));
        }
        proof {
            assert(warnings@.map_values(|s: String| s@) =~= (if start_week is Some {
                seq![precedence_warning()]
            } else {
                Seq::<Seq<char>>::empty()
            }));
        }
        if holds_date(&complete, w) {
            return Ok((ResolveWeekOutcome::AlreadyComplete(w), warnings));
        }
        return Ok((ResolveWeekOutcome::Process(w), warnings));
    }
    let inc = sort_dedup_dates(&incomplete);
    let ghost id = days_of(incomplete@);
    if inc.len() > 1 {
        proof {
            let l = days_of(inc@);
            assert(l.contains(l[0]));
            assert(l.contains(l[1]));
            let a = choose|a: int| 0 <= a < id.len() && id[a] == l[0];
            let b = choose|b: int| 0 <= b < id.len() && id[b] == l[1];
            assert(id[a] != id[b]);
        }
        return Err(ResolveWeekError::MultipleIncomplete(inc));
    }
    proof {
        let l = days_of(inc@);
        if two_distinct(id) {
            let (a, b) = choose|a: int, b: int|
                0 <= a < id.len() && 0 <= b < id.len() && #[trigger] id[a] != #[trigger] id[b];
            assert(id.contains(id[a]));
            assert(id.contains(id[b]));
            assert(l.contains(id[a]));
            assert(l.contains(id[b]));
        }
    }
    if inc.len() == 1 {
        let i = inc[0];
        proof {
            let l = days_of(inc@);
            assert(l.contains(l[0]));
            assert(id.len() > 0) by {
                let a = choose|a: int| 0 <= a < id.len() && id[a] == l[0];
            }
            assert(id.contains(id[0]));
            assert(l[0] == id[0]);
        }
        if start_week.is_some() {
            let mut msg: Vec<char> = Vec::new();
            push_str(&mut msg, "resuming incomplete week ");
            let s = i.to_string();
            push_str(&mut msg, s.as_str());
            push_str(&mut msg, "; ignoring --start-week");
            warnings.push(string_of(&msg));
        }
        proof {
            assert(warnings@.map_values(|s: String| s@) =~= (if start_week is Some {
                seq![resume_warning(id[0])]
            } else {
                Seq::<Seq<char>>::empty()
            }));
        }
        return Ok((ResolveWeekOutcome::Process(i), warnings));
    }
    proof {
        if id.len() > 0 {
            assert(id.contains(id[0]));
            assert(days_of(inc@).contains(id[0]));
        }
    }
    if complete.len() > 0 {
        let last = last_date(&complete);
        let ld = last.days();
        if ld > MAX_DAY - 7 {
            return Err(ResolveWeekError::Overflow);
        }
        let next = WeekDate { days: ld + 7 };
        if let Some(s) = start_week {
            if s.days() != next.days() {
                return Err(ResolveWeekError::StartWeekConflict { next, got: s });
            }
        }
        return Ok((ResolveWeekOutcome::Process(next), warnings));
    }
    match start_week {
        Some(s) => Ok((ResolveWeekOutcome::Process(s), warnings)),
        None => Err(ResolveWeekError::NoWeeks),
    }
}

/// The week-ending date a directory called `name` stands for: not hidden,
/// parsing as `YYYY-MM-DD`, and printing back to exactly `name`.
pub open spec fn week_dir_day(name: Seq<char>) -> Option<int> {
    if name.len() > 0 && name[0] == '.' {
        None
    } else {
        match parsed_ymd_day(name) {
            Some(d) => if ymd_format_text(d) == name { Some(d) } else { None },
            None => None,
        }
    }
}

/// The week-ending date of an outputs subdirectory name, if it is one.
pub fn week_dir_date(name: &str) -> (r: Option<WeekDate>)
    ensures
        match r {
            Some(w) => week_dir_day(name@) == Some(w.day()),
            None => week_dir_day(name@) is None,
        },
{
    let cs = chars_of(name);
    if cs.len() > 0 && cs[0] == '.' {
        return None;
    }
    match parse_day(name) {
        Some(w) => {
            let back = format_ymd(w.days());
            let bs = chars_of(back.as_str());
            if crate::text::chars_eq(bs.as_slice(), cs.as_slice()) {
                Some(w)
            } else {
                None
            }
        },
        None => None,
    }
}

/// Dates with the same day number are the same date.
pub proof fn lemma_same_day(a: WeekDate, b: WeekDate)
    requires
        a.day() == b.day(),
    ensures
        a == b,
{
}

} // verus!
