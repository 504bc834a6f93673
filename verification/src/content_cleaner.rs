//! Shorten mail bodies for the model: collapse patch diffs and long quotes.
use crate::text::{
    CharClass, chars_of, copy_range, has_prefix, join, join_of, lemma_views_push, lines, lines_of,
    starts_with_str, string_of, strip_start, strip_start_of, trim_start,
    views, eq_str,
};
use vstd::prelude::*;

verus! {

broadcast use vstd::string::group_string_axioms;

pub open spec fn patch_note() -> Seq<char> {
    "[... Patch diff omitted for brevity ...]"@
}

pub open spec fn quote_note() -> Seq<char> {
    "[... Trimmed large quote block ...]"@
}

/// A line that opens a patch diff.
pub open spec fn opens_diff(l: Seq<char>) -> bool {
    has_prefix(l, "diff --git"@) || has_prefix(l, "--- a/"@)
}

/// A line that ends a patch diff (signature separator or list footer).
pub open spec fn closes_diff(l: Seq<char>) -> bool {
    l == "-- "@ || has_prefix(l, "_______________________________________________"@)
}

/// A quoted line: first non-blank character is `>`.
pub open spec fn is_quote_line(l: Seq<char>) -> bool {
    has_prefix(trim_start(l), seq!['>'])
}

/// A quoted line that looks like diff content once quote markers are removed.
pub open spec fn is_diffish(l: Seq<char>) -> bool {
    let t = strip_start(CharClass::QuoteMark, l);
    has_prefix(t, seq!['+']) || has_prefix(t, seq!['-']) || has_prefix(t, seq!['@', '@'])
}

pub open spec fn count_diffish(q: Seq<Seq<char>>) -> nat
    decreases q.len(),
{
    if q.len() == 0 {
        0
    } else {
        count_diffish(q.drop_last()) + if is_diffish(q.last()) {
            1nat
        } else {
            0nat
        }
    }
}

/// Lines kept for one quote block: a long block (more than 10 lines, or more
/// than 5 lines that are mostly diff) becomes its first two lines, a note and
/// its last line; any other block is kept whole.
pub open spec fn quote_block_lines(q: Seq<Seq<char>>) -> Seq<Seq<char>> {
    let n = q.len();
    if n > 10 || (count_diffish(q) > n / 2 && n > 5) {
        seq![q[0], q[1], quote_note(), q[n - 1]]
    } else {
        q
    }
}

/// Emit a pending quote block, if any.
pub open spec fn flush_quote(out: Seq<Seq<char>>, q: Seq<Seq<char>>) -> Seq<Seq<char>> {
    if q.len() > 0 {
        out + quote_block_lines(q)
    } else {
        out
    }
}

/// Cleaner state: lines kept so far, inside a diff, pending quote block.
pub type CleanState = (Seq<Seq<char>>, bool, Seq<Seq<char>>);

/// Feed one line to the cleaner.
pub open spec fn clean_step(st: CleanState, line: Seq<char>) -> CleanState {
    let (out, in_diff, q) = st;
    if opens_diff(line) {
        if in_diff {
            (out, true, q)
        } else {
            (out.push(patch_note()), true, q)
        }
    } else if in_diff && !closes_diff(line) {
        (out, true, q)
    } else if is_quote_line(line) {
        (out, false, q.push(line))
    } else {
        (flush_quote(out, q).push(line), false, seq![])
    }
}

/// Cleaner state after a sequence of lines.
pub open spec fn clean_lines(ls: Seq<Seq<char>>) -> CleanState
    decreases ls.len(),
{
    if ls.len() == 0 {
        (seq![], false, seq![])
    } else {
        clean_step(clean_lines(ls.drop_last()), ls.last())
    }
}

/// The cleaned body: the kept lines of `body`, joined by `\n`.
pub open spec fn cleaned_body(body: Seq<char>) -> Seq<char> {
    let (out, _d, q) = clean_lines(lines(body));
    join(flush_quote(out, q), seq!['\n'])
}

fn is_diffish_exec(l: &[char]) -> (r: bool)
    ensures
        r == is_diffish(l@),
{
    let t = strip_start_of(CharClass::QuoteMark, l);
    proof {
        reveal_strlit("+");
        reveal_strlit("-");
        reveal_strlit("@@");
        assert("+"@ =~= seq!['+']);
        assert("-"@ =~= seq!['-']);
        assert("@@"@ =~= seq!['@', '@']);
    }
    starts_with_str(&t, "+") || starts_with_str(&t, "-") || starts_with_str(&t, "@@")
}

fn count_diffish_exec(q: &Vec<Vec<char>>) -> (n: usize)
    ensures
        n == count_diffish(views(q@)),
{
    let mut n: usize = 0;
    let mut i: usize = 0;
    while i < q.len()
        invariant
            i <= q@.len(),
            n == count_diffish(views(q@).take(i as int)),
            n <= i,
        decreases q@.len() - i,
    {
        if is_diffish_exec(&q[i]) {
            n = n + 1;
        }
        i = i + 1;
        proof {
            assert(views(q@).take(i as int).drop_last() =~= views(q@).take((i - 1) as int));
        }
    }
    assert(views(q@).take(q@.len() as int) =~= views(q@));
    n
}

fn copy_line(l: &Vec<char>) -> (r: Vec<char>)
    ensures
        r@ == l@,
{
    copy_range(l, 0, l.len())
}

/// Append the kept lines of a quote block to `cleaned`.
fn process_quote_block(cleaned: &mut Vec<Vec<char>>, quote: &Vec<Vec<char>>)
    requires
        quote@.len() > 0,
    ensures
        views(final(cleaned)@) == views(old(cleaned)@) + quote_block_lines(views(quote@)),
{
    let n = quote.len();
    let d = count_diffish_exec(quote);
    let ghost q = views(quote@);
    if n > 10 || (d > n / 2 && n > 5) {
        let ghost before = views(cleaned@);
        cleaned.push(copy_line(&quote[0]));
        cleaned.push(copy_line(&quote[1]));
        cleaned.push(chars_of("[... Trimmed large quote block ...]"));
        cleaned.push(copy_line(&quote[n - 1]));
        proof {
            assert(views(cleaned@) =~= before + seq![q[0], q[1], quote_note(), q[n - 1]]);
        }
    } else {
        let mut i: usize = 0;
        while i < n
            invariant
                i <= n,
                n == quote@.len(),
                q == views(quote@),
                views(cleaned@) == views(old(cleaned)@) + q.take(i as int),
            decreases n - i,
        {
            let ghost prev = cleaned@;
            cleaned.push(copy_line(&quote[i]));
            proof {
                lemma_views_push(prev, quote@[i as int]);
                assert(q.take((i + 1) as int) =~= q.take(i as int).push(q[i as int]));
            }
            i = i + 1;
        }
        assert(q.take(n as int) =~= q);
    }
}

fn flush_quote_exec(cleaned: &mut Vec<Vec<char>>, quote: &Vec<Vec<char>>)
    ensures
        views(final(cleaned)@) == flush_quote(views(old(cleaned)@), views(quote@)),
{
    if quote.len() > 0 {
        process_quote_block(cleaned, quote);
    }
}

/// Drop patch diffs and shorten long quote blocks in a mail body.
///
/// A diff opened by `diff --git` or `--- a/` becomes one note line and lasts
/// until a `-- ` signature line or a list footer. Runs of quoted lines are kept
/// whole unless long (see [`quote_block_lines`]). Lines are joined by `\n`.
pub fn clean_email_body(body: &str) -> (r: String)
    ensures
        r@ == cleaned_body(body@),
{
    let v = chars_of(body);
    let ls = lines_of(&v);
    let ghost lv = views(ls@);
    let mut out: Vec<Vec<char>> = Vec::new();
    let mut in_diff = false;
    let mut quote: Vec<Vec<char>> = Vec::new();
    let mut i: usize = 0;
    proof {
        assert(lv.take(0) =~= Seq::<Seq<char>>::empty());
        assert(views(out@) =~= Seq::<Seq<char>>::empty());
        assert(views(quote@) =~= Seq::<Seq<char>>::empty());
    }
    while i < ls.len()
        invariant
            i <= ls@.len(),
            lv == views(ls@),
            lv == lines(v@),
            clean_lines(lv.take(i as int)) == (views(out@), in_diff, views(quote@)),
        decreases ls@.len() - i,
    {
        let line = &ls[i];
        proof {
            reveal_strlit("-- ");
            assert(lv.take((i + 1) as int).drop_last() =~= lv.take(i as int));
            assert(lv.take((i + 1) as int).last() == line@);
        }
        if starts_with_str(line, "diff --git") || starts_with_str(line, "--- a/") {
            if !in_diff {
                let ghost prev = out@;
                out.push(chars_of("[... Patch diff omitted for brevity ...]"));
                proof {
                    lemma_views_push(prev, out@.last());
                }
                in_diff = true;
            }
        } else if in_diff && !(eq_str(line, "-- ") || starts_with_str(
            line,
            "_______________________________________________",
        )) {
        } else {
            in_diff = false;
            let t = strip_start_of(CharClass::Space, line);
            proof {
                reveal_strlit(">");
                assert(">"@ =~= seq!['>']);
            }
            if starts_with_str(&t, ">") {
                let ghost prev = quote@;
                quote.push(copy_line(line));
                proof {
                    lemma_views_push(prev, quote@.last());
                }
            } else {
                flush_quote_exec(&mut out, &quote);
                quote = Vec::new();
                let ghost prev = out@;
                out.push(copy_line(line));
                proof {
                    lemma_views_push(prev, out@.last());
                    assert(views(quote@) =~= Seq::<Seq<char>>::empty());
                }
            }
        }
        i = i + 1;
    }
    proof {
        assert(lv.take(ls@.len() as int) =~= lv);
    }
    flush_quote_exec(&mut out, &quote);
    let sep = chars_of("\n");
    proof {
        reveal_strlit("\n");
        assert(sep@ =~= seq!['\n']);
    }
    let joined = join_of(&out, &sep);
    string_of(&joined)
}

} // verus!
