//! Whole-archive threads and the `grep` command over their composed text.
use crate::email_index::{EmailIndex, EmailMeta, MetaThread, thread_root};
use crate::seqs::{lex_lt, strictly_sorted};
use crate::summarize::{ActiveThread, all_below, date_ordered, group_sorted, sort_by_date};
use crate::text::{chars_of, lines, lines_of, push_str, string_of, utf8_lossy, utf8_lossy_text};
use crate::tools::mail::{
    compile_pattern, pattern_finds, pattern_match_ranges, regex_compiles, regex_finds,
    regex_match_ranges, Pattern,
};
use vstd::prelude::*;
use vstd::utf8::encode_utf8;

verus! {

broadcast use vstd::string::group_string_axioms;

/// `t` is the thread of root `t.root_id` among `ms`: every message with that
/// root, by date, titled by the earliest.
pub open spec fn whole_thread(ms: Seq<EmailMeta>, t: MetaThread) -> bool {
    &&& t.message_indices@.len() > 0
    &&& date_ordered(ms, t.message_indices@)
    &&& all_below(t.message_indices@, ms.len() as int)
    &&& forall|x: usize|
        #[trigger] t.message_indices@.contains(x) <==> ((x as int) < ms.len() && thread_root(ms[x as int])
            == t.root_id@)
    &&& t.subject@ == ms[t.message_indices@[0] as int].subject@
}

/// The date of a thread's latest message.
pub open spec fn last_date(ms: Seq<EmailMeta>, t: MetaThread) -> i64 {
    ms[t.message_indices@.last() as int].date
}

fn meta_of(t: ActiveThread) -> (r: MetaThread)
    ensures
        r.root_id == t.root_id,
        r.subject == t.subject,
        r.message_indices == t.message_indices,
{
    MetaThread { root_id: t.root_id, subject: t.subject, message_indices: t.message_indices }
}

/// The roots of a list of threads.
pub open spec fn roots_of(s: Seq<MetaThread>) -> Set<Seq<char>> {
    s.map_values(|t: MetaThread| t.root_id@).to_set()
}

pub open spec fn distinct_roots(s: Seq<MetaThread>) -> bool {
    forall|a: int, b: int| 0 <= a < b < s.len() ==> #[trigger] s[a].root_id@ != #[trigger] s[b].root_id@
}

pub open spec fn latest_first(ms: Seq<EmailMeta>, s: Seq<MetaThread>) -> bool {
    forall|a: int, b: int| 0 <= a < b < s.len() ==> last_date(ms, #[trigger] s[a]) >= last_date(ms, #[trigger] s[b])
}

/// Insert `t` after every thread whose latest message is not older.
fn insert_by_last(out: &mut Vec<MetaThread>, t: MetaThread, ms: &[EmailMeta])
    requires
        forall|a: int| 0 <= a < old(out)@.len() ==> whole_thread(ms@, #[trigger] old(out)@[a]),
        whole_thread(ms@, t),
        distinct_roots(old(out)@),
        !roots_of(old(out)@).contains(t.root_id@),
        latest_first(ms@, old(out)@),
    ensures
        forall|a: int| 0 <= a < final(out)@.len() ==> whole_thread(ms@, #[trigger] final(out)@[a]),
        distinct_roots(final(out)@),
        latest_first(ms@, final(out)@),
        roots_of(final(out)@) == roots_of(old(out)@).insert(t.root_id@),
{
    let last = t.message_indices[t.message_indices.len() - 1];
    let key = ms[last].date;
    let mut k: usize = 0;
    while k < out.len() && ms[out[k].message_indices[out[k].message_indices.len() - 1]].date >= key
        invariant
            k <= out@.len(),
            forall|a: int| 0 <= a < out@.len() ==> whole_thread(ms@, #[trigger] out@[a]),
            key == last_date(ms@, t),
            forall|a: int| 0 <= a < k ==> last_date(ms@, #[trigger] out@[a]) >= key,
        decreases out@.len() - k,
    {
        k = k + 1;
    }
    let ghost before = out@;
    proof {
        assert forall|a: int| 0 <= a < before.len() implies #[trigger] before[a].root_id@ != t.root_id@ by {
            assert(before.map_values(|t: MetaThread| t.root_id@)[a] == before[a].root_id@);
        }
    }
    out.insert(k, t);
    proof {
        assert(out@ == before.insert(k as int, t));
        assert forall|a: int| 0 <= a < out@.len() implies whole_thread(ms@, #[trigger] out@[a]) by {
            if a < k {
                assert(out@[a] == before[a]);
            } else if a > k {
                assert(out@[a] == before[a - 1]);
            }
        }
        assert forall|a: int, b: int| 0 <= a < b < out@.len() implies last_date(ms@, #[trigger] out@[a])
            >= last_date(ms@, #[trigger] out@[b]) by {
            if b < k {
                assert(out@[a] == before[a] && out@[b] == before[b]);
            } else if b == k {
                assert(out@[a] == before[a]);
            } else if a == k {
                assert(out@[b] == before[b - 1]);
                assert(last_date(ms@, before[k as int]) < key);
                if b - 1 > k {
                    assert(last_date(ms@, before[k as int]) >= last_date(ms@, before[b - 1]));
                }
            } else if a < k {
                assert(out@[a] == before[a] && out@[b] == before[b - 1]);
            } else {
                assert(out@[a] == before[a - 1] && out@[b] == before[b - 1]);
            }
        }
        assert forall|a: int, b: int| 0 <= a < b < out@.len() implies #[trigger] out@[a].root_id@
            != #[trigger] out@[b].root_id@ by {
            if b < k {
                assert(out@[a] == before[a] && out@[b] == before[b]);
            } else if b == k {
                assert(out@[a] == before[a]);
            } else if a == k {
                assert(out@[b] == before[b - 1]);
            } else if a < k {
                assert(out@[a] == before[a] && out@[b] == before[b - 1]);
            } else {
                assert(out@[a] == before[a - 1] && out@[b] == before[b - 1]);
            }
        }
        let mo = out@.map_values(|t: MetaThread| t.root_id@);
        let mb = before.map_values(|t: MetaThread| t.root_id@);
        assert forall|r: Seq<char>| #[trigger] mo.contains(r) <==> mb.contains(r) || r == t.root_id@ by {
            if mo.contains(r) {
                let a = choose|a: int| 0 <= a < mo.len() && mo[a] == r;
                if a < k {
                    assert(mb[a] == r);
                } else if a > k {
                    assert(mb[a - 1] == r);
                }
            }
            if mb.contains(r) {
                let a = choose|a: int| 0 <= a < mb.len() && mb[a] == r;
                if a < k {
                    assert(mo[a] == r);
                } else {
                    assert(mo[a + 1] == r);
                }
            }
            if r == t.root_id@ {
                assert(mo[k as int] == r);
            }
        }
        assert(roots_of(out@) =~= roots_of(before).insert(t.root_id@));
    }
}

impl EmailIndex {
    /// Group all messages into threads (by their normalized root), latest
    /// activity first.
    pub fn threads(&self) -> (r: Vec<MetaThread>)
        ensures
            forall|k: int| 0 <= k < r@.len() ==> whole_thread(self.msgs(), #[trigger] r@[k]),
            distinct_roots(r@),
            forall|x: int| 0 <= x < self.msgs().len() ==> roots_of(r@).contains(thread_root(#[trigger] self.msgs()[x])),
            latest_first(self.msgs(), r@),
    {
        let ms = self.emails();
        let mut all: Vec<usize> = Vec::new();
        let mut i: usize = 0;
        while i < ms.len()
            invariant
                i <= ms@.len(),
                all@.len() == i,
                forall|a: int| 0 <= a < i ==> #[trigger] all@[a] == a,
            decreases ms@.len() - i,
        {
            all.push(i);
            i = i + 1;
        }
        let sorted = sort_by_date(ms, all);
        let mut groups = group_sorted(ms, &sorted);
        proof {
            assert forall|x: usize| (x as int) < ms@.len() implies #[trigger] sorted@.contains(x) by {
                assert(all@[x as int] == x);
                assert(all@.contains(x));
            }
        }
        let ghost g0 = groups@;
        let ghost gr = g0.map_values(|t: ActiveThread| t.root_id@);
        let total = groups.len();
        let ghost n = groups@.len();
        let mut out: Vec<MetaThread> = Vec::new();
        let mut j: usize = 0;
        proof {
            assert(roots_of(out@) =~= gr.take(0).to_set());
        }
        while groups.len() > 0
            invariant
                j + groups@.len() == n,
                n == g0.len(),
                n == total,
                ms@ == self.msgs(),
                forall|x: usize| #[trigger] sorted@.contains(x) ==> exists|q: int|
                    0 <= q < g0.len() && #[trigger] g0[q].root_id@ == thread_root(ms@[x as int]),
                gr == g0.map_values(|t: ActiveThread| t.root_id@),
                forall|a: int| 0 <= a < groups@.len() ==> #[trigger] groups@[a] == g0[j + a],
                strictly_sorted(gr),
                forall|k: int|
                    0 <= k < g0.len() ==> {
                        let t = #[trigger] g0[k];
                        &&& t.message_indices@.len() > 0
                        &&& date_ordered(ms@, t.message_indices@)
                        &&& all_below(t.message_indices@, ms@.len() as int)
                        &&& forall|x: usize|
                            #[trigger] t.message_indices@.contains(x) <==> (sorted@.contains(x) && thread_root(ms@[x as int]) == t.root_id@)
                        &&& t.subject@ == ms@[t.message_indices@[0] as int].subject@
                    },
                forall|x: usize| (x as int) < ms@.len() ==> #[trigger] sorted@.contains(x),
                forall|k: int| 0 <= k < out@.len() ==> whole_thread(ms@, #[trigger] out@[k]),
                distinct_roots(out@),
                latest_first(ms@, out@),
                roots_of(out@) == gr.take(j as int).to_set(),
            decreases groups@.len(),
        {
            let g = groups.remove(0);
            let t = meta_of(g);
            proof {
                assert(g == g0[j as int]);
                assert forall|x: usize| #[trigger] t.message_indices@.contains(x) <==> ((x as int) < ms@.len() && thread_root(ms@[x as int]) == t.root_id@) by {
                    if (x as int) < ms@.len() {
                        assert(sorted@.contains(x));
                    }
                }
                assert(whole_thread(ms@, t));
                assert(gr[j as int] == t.root_id@);
                assert(!gr.take(j as int).contains(t.root_id@)) by {
                    if gr.take(j as int).contains(t.root_id@) {
                        let q = choose|q: int| 0 <= q < j && gr.take(j as int)[q] == t.root_id@;
                        assert(lex_lt(gr[q], gr[j as int]));
                        crate::seqs::lemma_lex_irrefl(gr[q]);
                    }
                }
            }
            insert_by_last(&mut out, t, ms);
            proof {
                assert(gr.take(j + 1) =~= gr.take(j as int).push(gr[j as int]));
                gr.take(j as int).lemma_push_to_set_commute(gr[j as int]);
            }
            j = j + 1;
        }
        proof {
            assert(gr.take(n as int) =~= gr);
            assert forall|x: int| 0 <= x < self.msgs().len() implies roots_of(out@).contains(thread_root(#[trigger] self.msgs()[x])) by {
                let xu = x as usize;
                assert(sorted@.contains(xu));
                let q = choose|q: int| 0 <= q < g0.len() && #[trigger] g0[q].root_id@ == thread_root(ms@[xu as int]);
                assert(gr[q] == thread_root(ms@[x]));
                assert(gr.to_set().contains(gr[q]));
            }
        }
        out
    }
}


// ───────────────────────── thread text ─────────────────────────

/// The stored body of message `id`: the first `(id, body)` pair for it
/// (empty when none was loaded).
pub open spec fn body_of(bodies: Seq<(String, String)>, id: Seq<char>) -> Seq<char>
    decreases bodies.len(),
{
    if bodies.len() == 0 {
        seq![]
    } else if bodies[0].0@ == id {
        bodies[0].1@
    } else {
        body_of(bodies.drop_first(), id)
    }
}

fn find_body(bodies: &[(String, String)], id: &str) -> (r: Vec<char>)
    ensures
        r@ == body_of(bodies@, id@),
{
    let idc = chars_of(id);
    let mut i: usize = 0;
    proof {
        assert(bodies@.skip(0) =~= bodies@);
    }
    while i < bodies.len()
        invariant
            i <= bodies@.len(),
            idc@ == id@,
            body_of(bodies@.skip(i as int), id@) == body_of(bodies@, id@),
        decreases bodies@.len() - i,
    {
        proof {
            assert(bodies@.skip(i as int)[0] == bodies@[i as int]);
            assert(bodies@.skip(i as int).drop_first() =~= bodies@.skip(i + 1));
        }
        let k = chars_of(bodies[i].0.as_str());
        if crate::text::chars_eq(k.as_slice(), idc.as_slice()) {
            return chars_of(bodies[i].1.as_str());
        }
        i = i + 1;
    }
    Vec::new()
}

/// One message's block: its subject line, then its body ending in a newline.
pub open spec fn message_block(m: EmailMeta, body: Seq<char>) -> Seq<char> {
    "Subject: "@ + m.subject@ + "\n"@ + body + (if body.len() > 0 && body.last() == '\n' {
        seq![]
    } else {
        "\n"@
    })
}

/// The first `n` message blocks of a thread, separated by blank lines.
pub open spec fn thread_text(ms: Seq<EmailMeta>, idx: Seq<usize>, bodies: Seq<(String, String)>, n: int) -> Seq<char>
    decreases n,
{
    if n <= 0 {
        seq![]
    } else {
        let m = ms[idx[n - 1] as int];
        thread_text(ms, idx, bodies, n - 1) + (if n > 1 {
            "\n\n"@
        } else {
            seq![]
        }) + message_block(m, body_of(bodies, m.message_id@))
    }
}

fn message_block_chars(m: &EmailMeta, bodies: &[(String, String)]) -> (r: Vec<char>)
    ensures
        r@ == message_block(*m, body_of(bodies@, m.message_id@)),
{
    let mut out = chars_of("Subject: ");
    push_str(&mut out, m.subject.as_str());
    push_str(&mut out, "\n");
    let body = find_body(bodies, m.message_id.as_str());
    crate::text::push_all(&mut out, &body);
    if !(body.len() > 0 && body[body.len() - 1] == '\n') {
        push_str(&mut out, "\n");
    }
    proof {
        assert(body@ == body_of(bodies@, m.message_id@));
        assert(out@ =~= message_block(*m, body_of(bodies@, m.message_id@)));
    }
    out
}

impl EmailIndex {
    /// The whole text of a thread for searching: each message's subject line
    /// and body, in thread order. `bodies` pairs normalized ids with bodies.
    pub fn compose_thread_text(&self, thread: &MetaThread, bodies: &[(String, String)]) -> (r: String)
        requires
            all_below(thread.message_indices@, self.msgs().len() as int),
        ensures
            r@ == thread_text(self.msgs(), thread.message_indices@, bodies@, thread.message_indices@.len() as int),
    {
        let ms = self.emails();
        let idx = &thread.message_indices;
        let mut out: Vec<char> = Vec::new();
        let mut k: usize = 0;
        while k < idx.len()
            invariant
                k <= idx@.len(),
                ms@ == self.msgs(),
                all_below(idx@, ms@.len() as int),
                out@ == thread_text(ms@, idx@, bodies@, k as int),
            decreases idx@.len() - k,
        {
            let ghost before = out@;
            if k > 0 {
                push_str(&mut out, "\n\n");
            }
            let block = message_block_chars(&ms[idx[k]], bodies);
            crate::text::push_all(&mut out, &block);
            proof {
                assert(out@ =~= thread_text(ms@, idx@, bodies@, k + 1));
            }
            k = k + 1;
        }
        string_of(&out)
    }
}

// ───────────────────────── grep ─────────────────────────

/// Compile the `grep` command's pattern.
pub fn compile_grep_pattern(pattern: &str) -> (r: Result<Pattern, String>)
    ensures
        match r {
            Ok(p) => regex_compiles(pattern@) && p.source() == pattern@,
            Err(m) => !regex_compiles(pattern@) && m@ == "Invalid regex: "@ + pattern@,
        },
{
    match compile_pattern(pattern) {
        Some(p) => Ok(p),
        None => {
            let mut m = chars_of("Invalid regex: ");
            push_str(&mut m, pattern);
            Err(string_of(&m))
        },
    }
}

/// Start of a green highlight.
pub open spec fn green_on() -> Seq<u8> {
    seq![27u8, 91u8, 51u8, 50u8, 109u8]
}

/// End of a highlight.
pub open spec fn color_off() -> Seq<u8> {
    seq![27u8, 91u8, 48u8, 109u8]
}

/// `b` from `last` on, with the ranges `rs[i..]` wrapped in the highlight codes.
pub open spec fn highlight_bytes(b: Seq<u8>, rs: Seq<(int, int)>, last: int, i: int) -> Seq<u8>
    decreases rs.len() - i,
{
    if i < 0 || i >= rs.len() {
        b.subrange(last, b.len() as int)
    } else {
        b.subrange(last, rs[i].0) + green_on() + b.subrange(rs[i].0, rs[i].1) + color_off()
            + highlight_bytes(b, rs, rs[i].1, i + 1)
    }
}

/// A matching line as printed: every match wrapped in green when `color`.
pub open spec fn highlighted(p: Seq<char>, line: Seq<char>, color: bool) -> Seq<char> {
    if color {
        utf8_lossy_text(highlight_bytes(encode_utf8(line), regex_match_ranges(p, line), 0, 0))
    } else {
        line
    }
}

fn push_bytes(out: &mut Vec<u8>, b: &[u8], from: usize, to: usize)
    requires
        from <= to <= b@.len(),
    ensures
        final(out)@ == old(out)@ + b@.subrange(from as int, to as int),
{
    let mut i = from;
    while i < to
        invariant
            from <= i <= to,
            to <= b@.len(),
            out@ == old(out)@ + b@.subrange(from as int, i as int),
        decreases to - i,
    {
        out.push(b[i]);
        proof {
            assert(out@ =~= old(out)@ + b@.subrange(from as int, i + 1));
        }
        i = i + 1;
    }
}

fn push_highlight(out: &mut Vec<u8>, b: &[u8], last: usize, s: usize, e: usize)
    requires
        last <= s <= e <= b@.len(),
    ensures
        final(out)@ == old(out)@ + (b@.subrange(last as int, s as int) + green_on() + b@.subrange(s as int, e as int) + color_off()),
{
    let ghost start = out@;
    push_bytes(out, b, last, s);
    out.push(27u8);
    out.push(91u8);
    out.push(51u8);
    out.push(50u8);
    out.push(109u8);
    push_bytes(out, b, s, e);
    out.push(27u8);
    out.push(91u8);
    out.push(48u8);
    out.push(109u8);
    proof {
        assert(out@ =~= start + (b@.subrange(last as int, s as int) + green_on() + b@.subrange(s as int, e as int) + color_off()));
    }
}

/// Highlight each non-overlapping match of `p` in `line` with green ANSI
/// codes when `color`; otherwise the line as it is.
pub fn highlight_matches(line: &str, p: &Pattern, color: bool) -> (r: String)
    ensures
        r@ == highlighted(p.source(), line@, color),
{
    if !color {
        return string_of(&chars_of(line));
    }
    let ranges = pattern_match_ranges(p, line);
    let b = line.as_bytes();
    let ghost bv = b@;
    let ghost rs = ranges@.map_values(|m: (usize, usize)| (m.0 as int, m.1 as int));
    let mut out: Vec<u8> = Vec::new();
    let mut last: usize = 0;
    let mut i: usize = 0;
    proof {
        assert(bv == encode_utf8(line@));
    }
    while i < ranges.len()
        invariant
            i <= ranges@.len(),
            bv == b@,
            rs == ranges@.map_values(|m: (usize, usize)| (m.0 as int, m.1 as int)),
            forall|j: int| 0 <= j < ranges@.len() ==> (#[trigger] ranges@[j]).0 <= ranges@[j].1 && ranges@[j].1 <= bv.len(),
            forall|j: int, k: int| 0 <= j < k < ranges@.len() ==> (#[trigger] ranges@[j]).1 <= (#[trigger] ranges@[k]).0,
            i == 0 ==> last == 0,
            i > 0 ==> last == ranges@[i - 1].1,
            last <= bv.len(),
            out@ + highlight_bytes(bv, rs, last as int, i as int) == highlight_bytes(bv, rs, 0, 0),
        decreases ranges@.len() - i,
    {
        let (s, e) = ranges[i];
        proof {
            let r = ranges@[i as int];
            if i > 0 {
                let q = ranges@[i - 1];
                assert(q.1 <= r.0);
            }
            assert(rs[i as int] == (s as int, e as int));
        }
        push_highlight(&mut out, b, last, s, e);
        last = e;
        i = i + 1;
    }
    push_bytes(&mut out, b, last, b.len());
    proof {
        assert(out@ =~= highlight_bytes(bv, rs, 0, 0));
    }
    utf8_lossy(out.as_slice())
}

/// What `grep` prints for the lines `ls[i..]` of one thread, and how many
/// of them matched: the thread header before the first matching line, then
/// each matching line highlighted.
pub open spec fn grep_thread_out(p: Seq<char>, subject: Seq<char>, root: Seq<char>, ls: Seq<Seq<char>>, i: int, color: bool, shown: bool) -> (Seq<char>, nat)
    decreases ls.len() - i,
{
    if i < 0 || i >= ls.len() {
        (seq![], 0)
    } else if !regex_finds(p, ls[i]) {
        grep_thread_out(p, subject, root, ls, i + 1, color, shown)
    } else {
        let head = if shown {
            seq![]
        } else {
            "\n=== "@ + subject + " ("@ + root + ") ===\n"@
        };
        let rest = grep_thread_out(p, subject, root, ls, i + 1, color, true);
        (head + highlighted(p, ls[i], color) + "\n"@ + rest.0, rest.1 + 1)
    }
}

/// Search one thread's composed text line by line; the printed text and
/// the number of matching lines.
pub fn grep_thread(p: &Pattern, thread: &MetaThread, text: &str, color: bool) -> (r: (String, usize))
    ensures
        ({
            let g = grep_thread_out(p.source(), thread.subject@, thread.root_id@, lines(text@), 0, color, false);
            r.0@ == g.0 && r.1 == g.1
        }),
{
    let tc = chars_of(text);
    let ls = lines_of(&tc);
    let ghost lv = lines(text@);
    let ghost ps = p.source();
    let ghost total = grep_thread_out(ps, thread.subject@, thread.root_id@, lv, 0, color, false);
    let mut out: Vec<char> = Vec::new();
    let mut count: usize = 0;
    let mut shown = false;
    let mut i: usize = 0;
    proof {
        lemma_grep_count_bound(ps, thread.subject@, thread.root_id@, lv, 0, color, false);
    }
    while i < ls.len()
        invariant
            i <= ls@.len(),
            ls@.map_values(|l: Vec<char>| l@) == lv,
            ps == p.source(),
            ({
                let rest = grep_thread_out(ps, thread.subject@, thread.root_id@, lv, i as int, color, shown);
                &&& out@ + rest.0 == total.0
                &&& count + rest.1 == total.1
            }),
            total.1 <= lv.len(),
            count <= i,
        decreases ls@.len() - i,
    {
        let line = string_of(&ls[i]);
        proof {
            assert(line@ == lv[i as int]);
        }
        if pattern_finds(p, line.as_str()) {
            let ghost before = out@;
            if !shown {
                push_str(&mut out, "\n=== ");
                push_str(&mut out, thread.subject.as_str());
                push_str(&mut out, " (");
                push_str(&mut out, thread.root_id.as_str());
                push_str(&mut out, ") ===\n");
            }
            let h = highlight_matches(line.as_str(), p, color);
            push_str(&mut out, h.as_str());
            push_str(&mut out, "\n");
            proof {
                let head = if shown { seq![] } else { "\n=== "@ + thread.subject@ + " ("@ + thread.root_id@ + ") ===\n"@ };
                assert(out@ =~= before + (head + highlighted(ps, lv[i as int], color) + "\n"@));
            }
            count = count + 1;
            shown = true;
        }
        i = i + 1;
    }
    proof {
        assert(out@ + seq![] =~= out@);
    }
    (string_of(&out), count)
}

proof fn lemma_grep_count_bound(p: Seq<char>, subject: Seq<char>, root: Seq<char>, ls: Seq<Seq<char>>, i: int, color: bool, shown: bool)
    requires
        0 <= i,
    ensures
        grep_thread_out(p, subject, root, ls, i, color, shown).1 <= if i <= ls.len() { ls.len() - i } else { 0 },
    decreases ls.len() - i,
{
    if i < ls.len() {
        lemma_grep_count_bound(p, subject, root, ls, i + 1, color, shown);
        lemma_grep_count_bound(p, subject, root, ls, i + 1, color, true);
    }
}

} // verus!
