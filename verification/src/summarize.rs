//! The week pipeline's choices: which threads are active in a week, and how
//! the run over them ends.
use crate::email_index::{EmailIndex, EmailMeta, thread_root, thread_root_id};
use crate::seqs::{distinct, lex_lt, lemma_lex_irrefl, sort_distinct, strictly_sorted};
use crate::agent::session::SessionFailReason;
use crate::numfmt::{decimal, push_decimal};
use crate::text::{chars_of, chars_eq, debug_string, debug_text, push_str, string_of, views};
use crate::week::{MAX_DAY, MIN_DAY, WeekDate, midnight, week_window};
use vstd::prelude::*;

verus! {

broadcast use vstd::string::group_string_axioms;

/// One active thread for the week (in-window message indices into the index).
#[derive(Debug, Clone)]
pub struct ActiveThread {
    pub root_id: String,
    pub subject: String,
    /// Indices into `EmailIndex::emails`, sorted by date.
    pub message_indices: Vec<usize>,
}

/// `m` was sent inside the week window of the week ending on day `w`.
pub open spec fn in_window(m: EmailMeta, w: int) -> bool {
    midnight(w - 6) <= m.date < midnight(w + 1)
}

/// Message `a` comes before message `b` in date order (ties by position,
/// as a stable sort by date leaves them).
pub open spec fn date_before(ms: Seq<EmailMeta>, a: int, b: int) -> bool {
    ms[a].date < ms[b].date || (ms[a].date == ms[b].date && a < b)
}

pub open spec fn date_ordered(ms: Seq<EmailMeta>, idx: Seq<usize>) -> bool {
    forall|a: int, b: int|
        0 <= a < b < idx.len() ==> #[trigger] date_before(ms, idx[a] as int, idx[b] as int)
}

pub open spec fn all_below(idx: Seq<usize>, n: int) -> bool {
    forall|a: int| 0 <= a < idx.len() ==> (#[trigger] idx[a] as int) < n
}

/// Stable sort of message positions by date.
pub fn sort_by_date(ms: &[EmailMeta], v: Vec<usize>) -> (r: Vec<usize>)
    requires
        all_below(v@, ms@.len() as int),
        forall|a: int, b: int| 0 <= a < b < v@.len() ==> v@[a] != v@[b],
    ensures
        date_ordered(ms@, r@),
        all_below(r@, ms@.len() as int),
        forall|x: usize| r@.contains(x) <==> v@.contains(x),
        r@.len() == v@.len(),
{
    let mut out: Vec<usize> = Vec::new();
    let mut i: usize = 0;
    assert(v@.take(0) =~= Seq::<usize>::empty());
    while i < v.len()
        invariant
            i <= v@.len(),
            all_below(v@, ms@.len() as int),
            forall|a: int, b: int| 0 <= a < b < v@.len() ==> v@[a] != v@[b],
            date_ordered(ms@, out@),
            all_below(out@, ms@.len() as int),
            forall|x: usize| #[trigger] out@.contains(x) <==> v@.take(i as int).contains(x),
            out@.len() == i,
        decreases v@.len() - i,
    {
        let x = v[i];
        let mut k: usize = 0;
        while k < out.len() && (ms[out[k]].date < ms[x].date || (ms[out[k]].date == ms[x].date
            && out[k] < x))
            invariant
                k <= out@.len(),
                all_below(out@, ms@.len() as int),
                (x as int) < ms@.len(),
                forall|j: int| 0 <= j < k ==> date_before(ms@, out@[j] as int, x as int),
            decreases out@.len() - k,
        {
            k = k + 1;
        }
        let ghost before = out@;
        assert(forall|y: usize| #[trigger] before.contains(y) <==> v@.take(i as int).contains(y));
        proof {
            assert(!before.contains(x)) by {
                if before.contains(x) {
                    assert(v@.take(i as int).contains(x));
                    let j = choose|j: int| 0 <= j < i && v@.take(i as int)[j] == x;
                    assert(v@[j] == v@[i as int]);
                }
            }
            if k < before.len() {
                assert(before[k as int] != x);
                assert(date_before(ms@, x as int, before[k as int] as int));
            }
        }
        out.insert(k, x);
        proof {
            before.insert_ensures(k as int, x);
            assert(out@ == before.insert(k as int, x));
            assert forall|a: int, b: int| 0 <= a < b < out@.len() implies #[trigger] date_before(
                ms@,
                out@[a] as int,
                out@[b] as int,
            ) by {
                if b < k {
                    assert(date_before(ms@, before[a] as int, before[b] as int));
                } else if b == k {
                } else if a < k {
                    assert(out@[b] == before[b - 1]);
                    assert(date_before(ms@, before[a] as int, before[b - 1] as int));
                } else if a == k {
                    assert(out@[b] == before[b - 1]);
                    if b - 1 > k {
                        assert(date_before(ms@, before[k as int] as int, before[b - 1] as int));
                    }
                } else {
                    assert(out@[a] == before[a - 1]);
                    assert(out@[b] == before[b - 1]);
                    assert(date_before(ms@, before[a - 1] as int, before[b - 1] as int));
                }
            }
            assert forall|a: int| 0 <= a < out@.len() implies (#[trigger] out@[a] as int) < ms@.len() by {
                if a < k {
                } else if a > k {
                    assert(out@[a] == before[a - 1]);
                }
            }
            assert(v@.take(i + 1) =~= v@.take(i as int).push(x));
            assert forall|y: usize| out@.contains(y) <==> v@.take(i + 1).contains(y) by {
                if out@.contains(y) {
                    let p = choose|p: int| 0 <= p < out@.len() && out@[p] == y;
                    if p < k {
                        assert(before[p] == y);
                        assert(before.contains(y));
                    } else if p > k {
                        assert(before[p - 1] == y);
                        assert(before.contains(y));
                    }
                    if y != x {
                        let q = choose|q: int| 0 <= q < i && v@.take(i as int)[q] == y;
                        assert(v@.take(i + 1)[q] == y);
                    } else {
                        assert(v@.take(i + 1)[i as int] == y);
                    }
                }
                if v@.take(i + 1).contains(y) {
                    let q = choose|q: int| 0 <= q < i + 1 && #[trigger] v@.take(i + 1)[q] == y;
                    if q < i {
                        assert(v@.take(i as int)[q] == y);
                        assert(v@.take(i as int).contains(y));
                        assert(before.contains(y));
                        let p = choose|p: int| 0 <= p < before.len() && before[p] == y;
                        if p < k {
                            assert(out@[p] == y);
                        } else {
                            assert(out@[p + 1] == y);
                        }
                    } else {
                        assert(out@[k as int] == y);
                    }
                }
            }
        }
        i = i + 1;
    }
    proof {
        assert(v@.take(i as int) =~= v@);
    }
    out
}

/// Message `x` is in the week window of `w` and belongs to the thread `root`.
pub open spec fn thread_member(ms: Seq<EmailMeta>, w: int, root: Seq<char>, x: usize) -> bool {
    (x as int) < ms.len() && in_window(ms[x as int], w) && thread_root(ms[x as int]) == root
}

pub open spec fn active_roots(ts: Seq<ActiveThread>) -> Seq<Seq<char>> {
    ts.map_values(|t: ActiveThread| t.root_id@)
}

/// The positions (in `ms`) of `sorted` whose thread is `root`, in the order of `sorted`.
fn members_of(ms: &[EmailMeta], sorted: &Vec<usize>, roots: &Vec<Vec<char>>, root: &Vec<char>) -> (r: Vec<usize>)
    requires
        sorted@.len() == roots@.len(),
        all_below(sorted@, ms@.len() as int),
        date_ordered(ms@, sorted@),
        forall|p: int| 0 <= p < roots@.len() ==> #[trigger] roots@[p]@ == thread_root(ms@[sorted@[p] as int]),
    ensures
        date_ordered(ms@, r@),
        all_below(r@, ms@.len() as int),
        forall|x: usize|
            #[trigger] r@.contains(x) <==> (sorted@.contains(x) && thread_root(ms@[x as int]) == root@),
{
    let mut out: Vec<usize> = Vec::new();
    let ghost mut pos: Seq<int> = seq![];
    let mut p: usize = 0;
    while p < sorted.len()
        invariant
            p <= sorted@.len(),
            sorted@.len() == roots@.len(),
            all_below(sorted@, ms@.len() as int),
            date_ordered(ms@, sorted@),
            forall|q: int| 0 <= q < roots@.len() ==> #[trigger] roots@[q]@ == thread_root(ms@[sorted@[q] as int]),
            pos.len() == out@.len(),
            forall|a: int| 0 <= a < pos.len() ==> 0 <= #[trigger] pos[a] < p && out@[a] == sorted@[pos[a]],
            forall|a: int, b: int| 0 <= a < b < pos.len() ==> #[trigger] pos[a] < #[trigger] pos[b],
            forall|x: usize|
                #[trigger] out@.contains(x) <==> exists|q: int|
                    0 <= q < p && #[trigger] sorted@[q] == x && roots@[q]@ == root@,
        decreases sorted@.len() - p,
    {
        if chars_eq(roots[p].as_slice(), root.as_slice()) {
            let ghost before = out@;
            out.push(sorted[p]);
            proof {
                pos = pos.push(p as int);
                assert forall|x: usize|
                    #[trigger] out@.contains(x) <==> exists|q: int|
                        0 <= q < p + 1 && #[trigger] sorted@[q] == x && roots@[q]@ == root@ by {
                    if out@.contains(x) {
                        let a = choose|a: int| 0 <= a < out@.len() && out@[a] == x;
                        if a < before.len() {
                            assert(before[a] == x);
                            assert(before.contains(x));
                        } else {
                            assert(sorted@[p as int] == x);
                        }
                    }
                    if exists|q: int| 0 <= q < p + 1 && #[trigger] sorted@[q] == x && roots@[q]@ == root@ {
                        let q = choose|q: int| 0 <= q < p + 1 && #[trigger] sorted@[q] == x && roots@[q]@ == root@;
                        if q < p {
                            assert(before.contains(x));
                            let a = choose|a: int| 0 <= a < before.len() && before[a] == x;
                            assert(out@[a] == x);
                        } else {
                            assert(out@[out@.len() - 1] == x);
                        }
                    }
                }
            }
        } else {
            proof {
                assert forall|x: usize|
                    #[trigger] out@.contains(x) <==> exists|q: int|
                        0 <= q < p + 1 && #[trigger] sorted@[q] == x && roots@[q]@ == root@ by {
                    if exists|q: int| 0 <= q < p + 1 && #[trigger] sorted@[q] == x && roots@[q]@ == root@ {
                        let q = choose|q: int| 0 <= q < p + 1 && #[trigger] sorted@[q] == x && roots@[q]@ == root@;
                        assert(q != p);
                    }
                }
            }
        }
        p = p + 1;
    }
    proof {
        assert forall|a: int, b: int| 0 <= a < b < out@.len() implies #[trigger] date_before(
            ms@,
            out@[a] as int,
            out@[b] as int,
        ) by {
            assert(pos[a] < pos[b]);
            assert(date_before(ms@, sorted@[pos[a]] as int, sorted@[pos[b]] as int));
        }
        assert forall|a: int| 0 <= a < out@.len() implies (#[trigger] out@[a] as int) < ms@.len() by {
            assert(out@[a] == sorted@[pos[a]]);
        }
        assert forall|x: usize|
            #[trigger] out@.contains(x) <==> (sorted@.contains(x) && thread_root(ms@[x as int]) == root@) by {
            if sorted@.contains(x) && thread_root(ms@[x as int]) == root@ {
                let q = choose|q: int| 0 <= q < sorted@.len() && sorted@[q] == x;
                assert(roots@[q]@ == root@);
            }
            if out@.contains(x) {
                let q = choose|q: int| 0 <= q < p && #[trigger] sorted@[q] == x && roots@[q]@ == root@;
                assert(sorted@.contains(x));
            }
        }
    }
    out
}

/// Positions of the messages in the week window of `w`, ascending.
fn window_positions(ms: &[EmailMeta], w: WeekDate) -> (win: Vec<usize>)
    requires
        MIN_DAY <= w.day() - 6,
        w.day() + 1 <= MAX_DAY,
    ensures
        all_below(win@, ms@.len() as int),
        forall|a: int, b: int| 0 <= a < b < win@.len() ==> win@[a] < win@[b],
        forall|x: usize| #[trigger] win@.contains(x) <==> ((x as int) < ms@.len() && in_window(ms@[x as int], w.day())),
{
    let (start, end) = week_window(w);
    let mut win: Vec<usize> = Vec::new();
    let mut i: usize = 0;
    while i < ms.len()
        invariant
            i <= ms@.len(),
            start == midnight(w.day() - 6),
            end == midnight(w.day() + 1),
            all_below(win@, i as int),
            forall|a: int, b: int| 0 <= a < b < win@.len() ==> win@[a] < win@[b],
            forall|x: usize| #[trigger] win@.contains(x) <==> ((x as int) < i && in_window(ms@[x as int], w.day())),
        decreases ms@.len() - i,
    {
        if start <= ms[i].date && ms[i].date < end {
            let ghost before = win@;
            win.push(i);
            proof {
                assert forall|x: usize| #[trigger] win@.contains(x) <==> ((x as int) < i + 1 && in_window(ms@[x as int], w.day())) by {
                    if win@.contains(x) && x != i {
                        let a = choose|a: int| 0 <= a < win@.len() && win@[a] == x;
                        assert(before[a] == x);
                        assert(before.contains(x));
                    }
                    if (x as int) < i && in_window(ms@[x as int], w.day()) {
                        assert(before.contains(x));
                        let a = choose|a: int| 0 <= a < before.len() && before[a] == x;
                        assert(win@[a] == x);
                    }
                    if x == i {
                        assert(win@[win@.len() - 1] == x);
                    }
                }
            }
        } else {
            proof {
                assert forall|x: usize| #[trigger] win@.contains(x) <==> ((x as int) < i + 1 && in_window(ms@[x as int], w.day())) by {
                    if win@.contains(x) {
                        assert((x as int) < i);
                    }
                }
            }
        }
        i = i + 1;
    }
    win
}

/// Group the messages at `sorted` (positions in date order) into threads:
/// one per distinct root, in ascending root order; each lists its messages
/// by date and takes its subject from the earliest.
pub(crate) fn group_sorted(ms: &[EmailMeta], sorted: &Vec<usize>) -> (r: Vec<ActiveThread>)
    requires
        all_below(sorted@, ms@.len() as int),
        date_ordered(ms@, sorted@),
    ensures
        strictly_sorted(active_roots(r@)),
        forall|x: usize|
            #[trigger] sorted@.contains(x) ==> exists|k: int|
                0 <= k < r@.len() && #[trigger] r@[k].root_id@ == thread_root(ms@[x as int]),
        forall|k: int|
            0 <= k < r@.len() ==> {
                let t = #[trigger] r@[k];
                &&& t.message_indices@.len() > 0
                &&& date_ordered(ms@, t.message_indices@)
                &&& all_below(t.message_indices@, ms@.len() as int)
                &&& forall|x: usize|
                    #[trigger] t.message_indices@.contains(x) <==> (sorted@.contains(x) && thread_root(ms@[x as int]) == t.root_id@)
                &&& t.subject@ == ms@[t.message_indices@[0] as int].subject@
            },
{
    // the root of each sorted message, and the distinct roots
    let mut roots: Vec<Vec<char>> = Vec::new();
    let mut uniq: Vec<Vec<char>> = Vec::new();
    let mut p: usize = 0;
    while p < sorted.len()
        invariant
            p <= sorted@.len(),
            all_below(sorted@, ms@.len() as int),
            roots@.len() == p,
            forall|q: int| 0 <= q < p ==> #[trigger] roots@[q]@ == thread_root(ms@[sorted@[q] as int]),
            distinct(views(uniq@)),
            forall|s: Seq<char>| #[trigger] views(uniq@).contains(s) <==> exists|q: int| 0 <= q < p && #[trigger] roots@[q]@ == s,
        decreases sorted@.len() - p,
    {
        let rid = thread_root_id(&ms[sorted[p]]);
        let rc = chars_of(rid.as_str());
        let ghost before_u = views(uniq@);
        let ghost before_r = roots@;
        let known = crate::seqs::contains_chars(&uniq, rc.as_slice());
        if !known {
            uniq.push(rc.clone());
            proof {
                assert(views(uniq@) =~= before_u.push(rc@));
            }
        }
        roots.push(rc);
        proof {
            assert forall|s: Seq<char>| #[trigger] views(uniq@).contains(s) <==> exists|q: int| 0 <= q < p + 1 && #[trigger] roots@[q]@ == s by {
                if views(uniq@).contains(s) {
                    if s == rc@ {
                        assert(roots@[p as int]@ == s);
                    } else {
                        if !known {
                            let a = choose|a: int| 0 <= a < views(uniq@).len() && views(uniq@)[a] == s;
                            assert(before_u[a] == s);
                        }
                        assert(before_u.contains(s));
                        let q = choose|q: int| 0 <= q < p && #[trigger] before_r[q]@ == s;
                        assert(roots@[q]@ == s);
                    }
                }
                if exists|q: int| 0 <= q < p + 1 && #[trigger] roots@[q]@ == s {
                    let q = choose|q: int| 0 <= q < p + 1 && #[trigger] roots@[q]@ == s;
                    if q < p {
                        assert(before_r[q]@ == s);
                        assert(before_u.contains(s));
                        let a = choose|a: int| 0 <= a < before_u.len() && before_u[a] == s;
                        if !known {
                            assert(views(uniq@)[a] == s);
                        }
                    } else {
                        if !known {
                            assert(views(uniq@)[views(uniq@).len() - 1] == s);
                        }
                    }
                }
            }
            if !known {
                assert forall|a: int, b: int| 0 <= a < b < views(uniq@).len() implies views(uniq@)[a] != views(uniq@)[b] by {
                    if b == views(uniq@).len() - 1 {
                        assert(before_u[a] == views(uniq@)[a]);
                        assert(before_u.contains(views(uniq@)[a]));
                    } else {
                        assert(before_u[a] != before_u[b]);
                    }
                }
            }
        }
        p = p + 1;
    }
    let ghost uv = views(uniq@);
    let order = sort_distinct(uniq);
    proof {
        assert forall|s: Seq<char>| #[trigger] views(order@).contains(s) <==> exists|q: int| 0 <= q < roots@.len() && #[trigger] roots@[q]@ == s by {
            assert(views(order@).to_set().contains(s) == views(order@).contains(s));
            assert(uv.to_set().contains(s) == uv.contains(s));
        }
    }
    let mut out: Vec<ActiveThread> = Vec::new();
    let mut k: usize = 0;
    while k < order.len()
        invariant
            k <= order@.len(),
            strictly_sorted(views(order@)),
            sorted@.len() == roots@.len(),
            all_below(sorted@, ms@.len() as int),
            date_ordered(ms@, sorted@),
            forall|q: int| 0 <= q < roots@.len() ==> #[trigger] roots@[q]@ == thread_root(ms@[sorted@[q] as int]),
            forall|s: Seq<char>| #[trigger] views(order@).contains(s) <==> exists|q: int| 0 <= q < roots@.len() && #[trigger] roots@[q]@ == s,
            out@.len() == k,
            forall|a: int| 0 <= a < k ==> #[trigger] out@[a].root_id@ == views(order@)[a],
            forall|a: int|
                0 <= a < k ==> {
                    let t = #[trigger] out@[a];
                    &&& t.message_indices@.len() > 0
                    &&& date_ordered(ms@, t.message_indices@)
                    &&& all_below(t.message_indices@, ms@.len() as int)
                    &&& forall|x: usize|
                        #[trigger] t.message_indices@.contains(x) <==> (sorted@.contains(x) && thread_root(ms@[x as int]) == t.root_id@)
                    &&& t.subject@ == ms@[t.message_indices@[0] as int].subject@
                },
        decreases order@.len() - k,
    {
        let root = &order[k];
        let idx = members_of(ms, &sorted, &roots, root);
        proof {
            assert(views(order@)[k as int] == root@);
            assert(views(order@).contains(root@));
            let q = choose|q: int| 0 <= q < roots@.len() && #[trigger] roots@[q]@ == root@;
            assert(sorted@.contains(sorted@[q]));
            assert(idx@.contains(sorted@[q]));
        }
        let first = idx[0];
        let t = ActiveThread {
            root_id: string_of(root.as_slice()),
            subject: ms[first].subject.clone(),
            message_indices: idx,
        };
        out.push(t);
        k = k + 1;
    }
    proof {
        assert(active_roots(out@) =~= views(order@));
        assert forall|x: usize|
            #[trigger] sorted@.contains(x)
                implies exists|k: int|
                0 <= k < out@.len() && #[trigger] out@[k].root_id@ == thread_root(ms@[x as int]) by {
            let root = thread_root(ms@[x as int]);
            let q = choose|q: int| 0 <= q < sorted@.len() && sorted@[q] == x;
            assert(roots@[q]@ == root);
            assert(views(order@).contains(root));
            let a = choose|a: int| 0 <= a < views(order@).len() && views(order@)[a] == root;
            assert(out@[a].root_id@ == root);
        }
    }
    out
}


/// Threads that have at least one message in the week window of `w`, in
/// ascending root order; each lists its in-window messages by date and takes
/// its subject from the earliest of them.
pub fn select_active_threads(index: &EmailIndex, w: WeekDate) -> (r: Vec<ActiveThread>)
    requires
        MIN_DAY <= w.day() - 6,
        w.day() + 1 <= MAX_DAY,
    ensures
        strictly_sorted(active_roots(r@)),
        forall|x: usize|
            (x as int) < index.msgs().len() && #[trigger] in_window(index.msgs()[x as int], w.day())
                ==> exists|k: int|
                0 <= k < r@.len() && #[trigger] r@[k].root_id@ == thread_root(index.msgs()[x as int]),
        forall|k: int|
            0 <= k < r@.len() ==> {
                let t = #[trigger] r@[k];
                &&& t.message_indices@.len() > 0
                &&& date_ordered(index.msgs(), t.message_indices@)
                &&& forall|x: usize|
                    #[trigger] t.message_indices@.contains(x) <==> thread_member(
                        index.msgs(),
                        w.day(),
                        t.root_id@,
                        x,
                    )
                &&& t.subject@ == index.msgs()[t.message_indices@[0] as int].subject@
            },
{
    let ms = index.emails();
    let win = window_positions(ms, w);
    let sorted = sort_by_date(ms, win);
    let out = group_sorted(ms, &sorted);
    proof {
        assert forall|x: usize|
            (x as int) < index.msgs().len() && #[trigger] in_window(index.msgs()[x as int], w.day())
                implies exists|k: int|
                0 <= k < out@.len() && #[trigger] out@[k].root_id@ == thread_root(index.msgs()[x as int]) by {
            assert(win@.contains(x));
            assert(sorted@.contains(x));
        }
        assert forall|k: int, x: usize| 0 <= k < out@.len() implies (#[trigger] out@[k].message_indices@.contains(x)
            <==> thread_member(index.msgs(), w.day(), out@[k].root_id@, x)) by {
            let t = out@[k];
            if thread_member(index.msgs(), w.day(), t.root_id@, x) {
                assert(win@.contains(x));
                assert(sorted@.contains(x));
            }
            if t.message_indices@.contains(x) {
                assert(sorted@.contains(x));
                assert(win@.contains(x));
            }
        }
    }
    out
}

/// The messages in the week window of `w`, by date (stable).
pub fn in_window_messages<'a>(index: &'a EmailIndex, w: WeekDate) -> (r: Vec<&'a EmailMeta>)
    requires
        MIN_DAY <= w.day() - 6,
        w.day() + 1 <= MAX_DAY,
    ensures
        exists|pos: Seq<usize>|
            {
                &&& pos.len() == r@.len()
                &&& date_ordered(index.msgs(), pos)
                &&& all_below(pos, index.msgs().len() as int)
                &&& forall|x: usize| #[trigger] pos.contains(x) <==> ((x as int) < index.msgs().len() && in_window(index.msgs()[x as int], w.day()))
                &&& forall|a: int| 0 <= a < pos.len() ==> *r@[a] == index.msgs()[#[trigger] pos[a] as int]
            },
{
    let ms = index.emails();
    let win = window_positions(ms, w);
    let sorted = sort_by_date(ms, win);
    let mut out: Vec<&'a EmailMeta> = Vec::new();
    let mut i: usize = 0;
    while i < sorted.len()
        invariant
            i <= sorted@.len(),
            ms@ == index.msgs(),
            all_below(sorted@, ms@.len() as int),
            out@.len() == i,
            forall|a: int| 0 <= a < i ==> *out@[a] == ms@[#[trigger] sorted@[a] as int],
        decreases sorted@.len() - i,
    {
        out.push(&ms[sorted[i]]);
        i = i + 1;
    }
    proof {
        assert forall|x: usize| #[trigger] sorted@.contains(x) <==> ((x as int) < index.msgs().len() && in_window(index.msgs()[x as int], w.day())) by {
            assert(sorted@.contains(x) == win@.contains(x));
        }
    }
    out
}

// ───────────────────────── the run over ordered threads ─────────────────────────

/// What to do with the next root of the thread order.
#[derive(Debug, Clone, Copy, PartialEq, Eq, Structural)]
pub enum ThreadStep {
    /// The root is not among the active threads: record it as missing.
    Missing,
    /// Its summary file is already written: count it done, skip the agent.
    AlreadyWritten,
    /// Run the thread agent on `active[k]`.
    Run(usize),
}

/// The step for `root`, given whether its summary file already exists.
pub fn thread_step(active: &[ActiveThread], root: &str, written: bool) -> (r: ThreadStep)
    ensures
        match r {
            ThreadStep::Missing => forall|k: int| 0 <= k < active@.len() ==> #[trigger] active@[k].root_id@ != root@,
            ThreadStep::AlreadyWritten => written && exists|k: int| 0 <= k < active@.len() && #[trigger] active@[k].root_id@ == root@,
            ThreadStep::Run(k) => !written && k < active@.len() && active@[k as int].root_id@ == root@,
        },
{
    let rc = chars_of(root);
    let mut k: usize = 0;
    while k < active.len()
        invariant
            k <= active@.len(),
            rc@ == root@,
            forall|j: int| 0 <= j < k ==> #[trigger] active@[j].root_id@ != root@,
        decreases active@.len() - k,
    {
        let ak = chars_of(active[k].root_id.as_str());
        if chars_eq(ak.as_slice(), rc.as_slice()) {
            if written {
                return ThreadStep::AlreadyWritten;
            }
            return ThreadStep::Run(k);
        }
        k = k + 1;
    }
    ThreadStep::Missing
}

/// Running count of a week's thread agents.
#[derive(Debug, Clone)]
pub struct WeekRunTally {
    pub threads_ok: usize,
    pub threads_skipped: usize,
    /// Failed roots with the reason, in order.
    pub failed: Vec<(String, SessionFailReason)>,
}

pub open spec fn failure_detail(f: (String, SessionFailReason)) -> Seq<char> {
    f.0@ + " ("@ + f.1.name() + ")"@
}

/// `Debug` of a list of strings: `[` items `, `-separated `]`.
pub open spec fn debug_list(items: Seq<Seq<char>>) -> Seq<char> {
    "["@ + crate::text::join(items.map_values(|s: Seq<char>| debug_text(s)), ", "@) + "]"@
}

pub open spec fn incomplete_text(failed: Seq<(String, SessionFailReason)>) -> Seq<char> {
    "thread agents incomplete: failed="@ + decimal(failed.len()) + " failed_thread_ids="@
        + debug_list(failed.map_values(|f: (String, SessionFailReason)| failure_detail(f)))
        + "; overview and .complete withheld (re-run summarize-week to resume missing threads)"@
}

impl WeekRunTally {
    pub fn new() -> (r: WeekRunTally)
        ensures
            r.threads_ok == 0,
            r.threads_skipped == 0,
            r.failed@.len() == 0,
    {
        WeekRunTally { threads_ok: 0, threads_skipped: 0, failed: Vec::new() }
    }

    /// Record the outcome of one step whose agent did not fail.
    pub fn record_done(&mut self, skipped: bool)
        requires
            old(self).threads_ok < usize::MAX,
            old(self).threads_skipped < usize::MAX,
        ensures
            final(self).threads_ok == old(self).threads_ok + 1,
            final(self).threads_skipped == old(self).threads_skipped + (if skipped { 1int } else { 0 }),
            final(self).failed@ == old(self).failed@,
    {
        self.threads_ok = self.threads_ok + 1;
        if skipped {
            self.threads_skipped = self.threads_skipped + 1;
        }
    }

    /// Record a failed (or missing) root.
    pub fn record_failure(&mut self, root: String, reason: SessionFailReason)
        ensures
            final(self).threads_ok == old(self).threads_ok,
            final(self).threads_skipped == old(self).threads_skipped,
            final(self).failed@ == old(self).failed@.push((root, reason)),
    {
        self.failed.push((root, reason));
    }

    /// The week may be finished (overview, `.complete`) only when no thread
    /// failed and every expected thread file exists; otherwise the refusal.
    pub fn finish(&self, all_files_present: bool) -> (r: Result<(), String>)
        ensures
            match r {
                Ok(()) => self.failed@.len() == 0 && all_files_present,
                Err(msg) => !(self.failed@.len() == 0 && all_files_present) && msg@ == incomplete_text(self.failed@),
            },
    {
        if self.failed.len() == 0 && all_files_present {
            return Ok(());
        }
        let mut out: Vec<char> = Vec::new();
        push_str(&mut out, "thread agents incomplete: failed=");
        push_decimal(&mut out, self.failed.len());
        push_str(&mut out, " failed_thread_ids=[");
        let ghost start = out@;
        let ghost items = self.failed@.map_values(|f: (String, SessionFailReason)| failure_detail(f)).map_values(|s: Seq<char>| debug_text(s));
        let mut i: usize = 0;
        while i < self.failed.len()
            invariant
                i <= self.failed@.len(),
                items == self.failed@.map_values(|f: (String, SessionFailReason)| failure_detail(f)).map_values(|s: Seq<char>| debug_text(s)),
                out@ == start + crate::text::join(items.take(i as int), ", "@),
            decreases self.failed@.len() - i,
        {
            if i > 0 {
                push_str(&mut out, ", ");
            }
            let mut d: Vec<char> = Vec::new();
            push_str(&mut d, self.failed[i].0.as_str());
            push_str(&mut d, " (");
            push_str(&mut d, self.failed[i].1.as_str());
            push_str(&mut d, ")");
            let ds = string_of(&d);
            let q = debug_string(ds.as_str());
            push_str(&mut out, q.as_str());
            proof {
                assert(items.take(i + 1).drop_last() =~= items.take(i as int));
                assert(items.take(i + 1).last() == debug_text(d@));
                assert(d@ == failure_detail(self.failed@[i as int]));
                if i == 0 {
                    assert(items.take(0) =~= Seq::<Seq<char>>::empty());
                    assert(out@ == start + q@);
                }
            }
            i = i + 1;
        }
        proof {
            assert(items.take(i as int) =~= items);
        }
        push_str(&mut out, "]; overview and .complete withheld (re-run summarize-week to resume missing threads)");
        let s = string_of(&out);
        proof {
            reveal_strlit("]; overview and .complete withheld (re-run summarize-week to resume missing threads)");
            reveal_strlit("; overview and .complete withheld (re-run summarize-week to resume missing threads)");
            reveal_strlit(" failed_thread_ids=[");
            reveal_strlit(" failed_thread_ids=");
            reveal_strlit("[");
            reveal_strlit("]");
            assert(s@ =~= incomplete_text(self.failed@));
        }
        Err(s)
    }
}

/// `outputs_path` from the configuration, which must be set and non-empty.
pub fn require_outputs_path(config_outputs: &Option<String>) -> (r: Result<String, String>)
    ensures
        match config_outputs {
            None => r matches Err(m) && m@ == "config.outputs_path is required"@,
            Some(p) => if p@.len() == 0 {
                r matches Err(m) && m@ == "config.outputs_path is empty"@
            } else {
                r matches Ok(q) && q@ == p@
            },
        },
{
    match config_outputs {
        None => Err(string_of(&chars_of("config.outputs_path is required"))),
        Some(p) => {
            if p.as_str().is_empty() {
                Err(string_of(&chars_of("config.outputs_path is empty")))
            } else {
                Ok(p.clone())
            }
        },
    }
}

// ───────────────────────── the week's thread loop ─────────────────────────

/// `root` is one of the active threads.
pub open spec fn in_active(active: Seq<ActiveThread>, root: Seq<char>) -> bool {
    exists|k: int| 0 <= k < active.len() && #[trigger] active[k].root_id@ == root
}

/// How one root of the order ends: not active is a missing thread, an
/// already written summary is done, otherwise the agent's outcome
/// (`None` when it submitted).
pub open spec fn step_failure(active: Seq<ActiveThread>, root: Seq<char>, written: bool, outcome: Option<SessionFailReason>) -> Option<SessionFailReason> {
    if !in_active(active, root) {
        Some(SessionFailReason::Missing)
    } else if written {
        None
    } else {
        outcome
    }
}

/// The failures among the first `n` roots of the order, in order.
pub open spec fn run_failures(active: Seq<ActiveThread>, order: Seq<String>, written: Seq<bool>, outcome: Seq<Option<SessionFailReason>>, n: int) -> Seq<(Seq<char>, SessionFailReason)>
    decreases n,
{
    if n <= 0 {
        seq![]
    } else {
        let r = run_failures(active, order, written, outcome, n - 1);
        match step_failure(active, order[n - 1]@, written[n - 1], outcome[n - 1]) {
            Some(e) => r.push((order[n - 1]@, e)),
            None => r,
        }
    }
}

/// How many of the first `n` roots were active and already written.
pub open spec fn run_skips(active: Seq<ActiveThread>, order: Seq<String>, written: Seq<bool>, n: int) -> int
    decreases n,
{
    if n <= 0 {
        0
    } else {
        run_skips(active, order, written, n - 1) + (if in_active(active, order[n - 1]@) && written[n - 1] {
            1int
        } else {
            0int
        })
    }
}

pub open spec fn failure_views(f: Seq<(String, SessionFailReason)>) -> Seq<(Seq<char>, SessionFailReason)> {
    f.map_values(|x: (String, SessionFailReason)| (x.0@, x.1))
}

/// The tally of a week's serial thread loop over `order`, given for each
/// root whether its summary is already written and what its agent run gave
/// (`None`: submitted; read only for roots that run). Every root is taken in
/// turn: a failure is recorded and the loop goes on with the next root.
pub fn tally_week_run(
    active: &[ActiveThread],
    order: &[String],
    written: &[bool],
    outcome: &[Option<SessionFailReason>],
) -> (r: WeekRunTally)
    requires
        written@.len() == order@.len(),
        outcome@.len() == order@.len(),
    ensures
        failure_views(r.failed@) == run_failures(active@, order@, written@, outcome@, order@.len() as int),
        r.threads_ok == order@.len() - r.failed@.len(),
        r.threads_skipped == run_skips(active@, order@, written@, order@.len() as int),
        r.threads_ok + r.failed@.len() == order@.len(),
{
    let mut t = WeekRunTally::new();
    let mut i: usize = 0;
    proof {
        assert(failure_views(t.failed@) =~= Seq::<(Seq<char>, SessionFailReason)>::empty());
    }
    while i < order.len()
        invariant
            i <= order@.len(),
            written@.len() == order@.len(),
            outcome@.len() == order@.len(),
            failure_views(t.failed@) == run_failures(active@, order@, written@, outcome@, i as int),
            t.threads_ok + t.failed@.len() == i,
            t.threads_skipped == run_skips(active@, order@, written@, i as int),
            t.threads_skipped <= t.threads_ok,
        decreases order@.len() - i,
    {
        let ghost before = t.failed@;
        let step = thread_step(active, order[i].as_str(), written[i]);
        match step {
            ThreadStep::Missing => {
                proof {
                    assert(!in_active(active@, order@[i as int]@));
                }
                t.record_failure(order[i].clone(), SessionFailReason::Missing);
                proof {
                    assert(failure_views(t.failed@) =~= failure_views(before).push((order@[i as int]@, SessionFailReason::Missing)));
                }
            },
            ThreadStep::AlreadyWritten => {
                t.record_done(true);
            },
            ThreadStep::Run(k) => {
                proof {
                    assert(in_active(active@, order@[i as int]@));
                }
                match outcome[i] {
                    None => t.record_done(false),
                    Some(e) => {
                        t.record_failure(order[i].clone(), e);
                        proof {
                            assert(failure_views(t.failed@) =~= failure_views(before).push((order@[i as int]@, e)));
                        }
                    },
                }
            },
        }
        i = i + 1;
    }
    t
}

/// What one summarize-week run did.
pub enum MaterializeResult {
    /// The week already had `.complete`; no work done.
    AlreadyComplete { week: WeekDate },
    /// Empty week stub written and marked complete.
    EmptyWeekComplete { week: WeekDate },
    /// Layout ready and threads selected; agents not run.
    WeekPrepared { week: WeekDate, message_count: usize, thread_count: usize },
    /// Agents finished; the week may be complete (overview and `.complete`) or partial.
    AgentsFinished {
        week: WeekDate,
        threads_ok: usize,
        threads_failed: usize,
        failed_thread_ids: Vec<String>,
        week_complete: bool,
        headline: Option<String>,
    },
}

/// The HTML tree is rendered after a run that published a week: an empty
/// week's stub, or a week the agents completed.
pub fn publishes_html(result: &MaterializeResult) -> (r: bool)
    ensures
        r == (result is EmptyWeekComplete || (result matches MaterializeResult::AgentsFinished { week_complete, .. } && *week_complete)),
{
    match result {
        MaterializeResult::EmptyWeekComplete { .. } => true,
        MaterializeResult::AgentsFinished { week_complete, .. } => *week_complete,
        _ => false,
    }
}

} // verus!
