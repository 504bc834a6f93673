//! Earlier weeks' summaries of a thread: which week directories count and
//! which summaries the thread agent is shown, newest first.
use crate::ids::file_stem;
use crate::text::{chars_of, push_str, string_of, strs};
use crate::week::{WeekDate, parse_day, parsed_ymd_day};
use vstd::prelude::*;

verus! {

broadcast use vstd::string::group_string_axioms;


/// The date of an outputs-root entry named `name`, when it names a week
/// before `week`.
pub fn earlier_week_dir(name: &str, week: WeekDate) -> (r: Option<WeekDate>)
    ensures
        match r {
            Some(d) => parsed_ymd_day(name@) == Some(d.day()) && d.day() < week.day(),
            None => !(parsed_ymd_day(name@) matches Some(x) && x < week.day()),
        },
{
    match parse_day(name) {
        Some(d) => if d.days() < week.days() {
            Some(d)
        } else {
            None
        },
        None => None,
    }
}

/// `{name}/thread/{stem}.md`: where a week directory keeps a thread's summary.
pub open spec fn prior_summary_path(name: Seq<char>, root: Seq<char>) -> Seq<char> {
    name + "/thread/"@ + file_stem(root) + ".md"@
}

pub fn prior_summary_rel(name: &str, thread_root_id: &str) -> (r: String)
    ensures
        r@ == prior_summary_path(name@, thread_root_id@),
{
    let mut out = chars_of(name);
    push_str(&mut out, "/thread/");
    let stem = crate::ids::file_stem_chars(thread_root_id);
    crate::text::push_all(&mut out, &stem);
    push_str(&mut out, ".md");
    string_of(&out)
}

pub open spec fn found_view(f: (WeekDate, String)) -> (int, Seq<char>) {
    (f.0.day(), f.1@)
}

/// Newest date first.
pub open spec fn newest_first_order(s: Seq<(int, Seq<char>)>) -> bool {
    forall|i: int, j: int| 0 <= i < j < s.len() ==> s[i].0 >= s[j].0
}

/// The paths of the newest `n` prior summaries found, newest first.
pub fn newest_prior_summaries(found: &Vec<(WeekDate, String)>, n: usize) -> (r: Vec<String>)
    ensures
        exists|sorted: Seq<(int, Seq<char>)>|
            {
                &&& newest_first_order(sorted)
                &&& sorted.to_multiset() == found@.map_values(|f: (WeekDate, String)| found_view(f)).to_multiset()
                &&& strs(r@) == sorted.take(if n < sorted.len() { n as int } else { sorted.len() as int }).map_values(
                    |e: (int, Seq<char>)| e.1,
                )
            },
{
    broadcast use vstd::seq_lib::group_to_multiset_ensures;
    let ghost src = found@.map_values(|f: (WeekDate, String)| found_view(f));
    let mut out: Vec<(WeekDate, String)> = Vec::new();
    let mut i: usize = 0;
    proof {
        assert(out@.map_values(|f: (WeekDate, String)| found_view(f)) =~= src.take(0));
    }
    while i < found.len()
        invariant
            i <= found@.len(),
            src == found@.map_values(|f: (WeekDate, String)| found_view(f)),
            newest_first_order(out@.map_values(|f: (WeekDate, String)| found_view(f))),
            out@.map_values(|f: (WeekDate, String)| found_view(f)).to_multiset() == src.take(
                i as int,
            ).to_multiset(),
        decreases found@.len() - i,
    {
        let d = found[i].0;
        let path = string_of(&chars_of(found[i].1.as_str()));
        let ghost x = found_view(found@[i as int]);
        let mut k: usize = 0;
        while k < out.len() && out[k].0.days() >= d.days()
            invariant
                k <= out@.len(),
                forall|j: int| 0 <= j < k ==> (#[trigger] out@[j]).0.day() >= d.day(),
            decreases out@.len() - k,
        {
            k = k + 1;
        }
        let ghost before = out@.map_values(|f: (WeekDate, String)| found_view(f));
        let ghost raw = out@;
        out.insert(k, (d, path));
        proof {
            let after = out@.map_values(|f: (WeekDate, String)| found_view(f));
            assert(found_view((d, path)) == x);
            assert(after =~= before.insert(k as int, x));
            assert forall|a: int, b: int| 0 <= a < b < after.len() implies after[a].0 >= after[b].0 by {
                if b < k {
                    assert(after[a] == before[a] && after[b] == before[b]);
                } else if b == k {
                    assert(after[a] == before[a]);
                    assert(raw[a].0.day() >= d.day());
                } else if a == k {
                    assert(after[b] == before[b - 1]);
                    assert(raw[k as int].0.day() < d.day());
                    assert(before[k as int].0 >= before[b - 1].0 || b - 1 == k);
                } else if a < k {
                    assert(after[a] == before[a] && after[b] == before[b - 1]);
                } else {
                    assert(after[a] == before[a - 1] && after[b] == before[b - 1]);
                }
            }
            vstd::seq_lib::to_multiset_insert(before, k as int, x);
            assert(src.take(i + 1) =~= src.take(i as int).push(x));
            vstd::seq_lib::to_multiset_build(src.take(i as int), x);
            assert(after.to_multiset() =~= src.take(i + 1).to_multiset());
        }
        i = i + 1;
    }
    proof {
        assert(src.take(found@.len() as int) =~= src);
    }
    let ghost sorted = out@.map_values(|f: (WeekDate, String)| found_view(f));
    let limit = if n < out.len() {
        n
    } else {
        out.len()
    };
    let mut r: Vec<String> = Vec::new();
    let mut j: usize = 0;
    while j < limit
        invariant
            j <= limit,
            limit <= out@.len(),
            sorted == out@.map_values(|f: (WeekDate, String)| found_view(f)),
            strs(r@) == sorted.take(j as int).map_values(|e: (int, Seq<char>)| e.1),
        decreases limit - j,
    {
        let ghost prev = r@;
        let x = string_of(&chars_of(out[j].1.as_str()));
        r.push(x);
        proof {
            assert(sorted[j as int] == found_view(out@[j as int]));
            assert(strs(r@) =~= strs(prev).push(out@[j as int].1@));
            assert(strs(r@) =~= sorted.take(j + 1).map_values(|e: (int, Seq<char>)| e.1));
        }
        j = j + 1;
    }
    r
}

} // verus!
