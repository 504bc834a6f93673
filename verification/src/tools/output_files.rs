//! The outputs-tree tools: ReadOutputFile, GlobOutputs and GrepOutputs.
//!
//! The caller walks the directory and reads the files; these functions decide
//! which files count, what is searched, and what the model is answered.
use crate::numfmt::{decimal, push_decimal};
use crate::seqs::{sort_strings, sorted_strs};
use crate::text::{
    chars_of, debug_string, debug_text, find, find_str, lines, lines_of, push_str, string_of, strs,
    trim, trim_slice, utf8_lossy, utf8_lossy_text,
};
use crate::tools::mail::{compile_pattern, pattern_finds, regex_compiles, regex_finds, Pattern};
use crate::tools::paths::{glob_segs, path_glob_match, path_segments, pattern_segments};
use vstd::prelude::*;
use vstd::utf8::encode_utf8;

verus! {

broadcast use vstd::string::group_string_axioms;

/// `rel` matches the glob `pattern` (see `path_glob_match`).
pub open spec fn glob_hit(pattern: Seq<char>, rel: Seq<char>) -> bool {
    glob_segs(pattern_segments(encode_utf8(pattern)), path_segments(encode_utf8(rel)))
}


// ───────────────────────── ReadOutputFile ─────────────────────────

/// Most bytes of one file shown to the model.
pub const READ_OUTPUT_CAP: usize = 262144;

/// Arguments for ReadOutputFile.
#[derive(Debug, Clone)]
pub struct ReadOutputFileArgs {
    pub path: String,
}

/// The first `cap` bytes, or all of them.
pub open spec fn capped(bytes: Seq<u8>, cap: int) -> Seq<u8> {
    if bytes.len() > cap {
        bytes.take(cap)
    } else {
        bytes
    }
}

pub open spec fn read_output_text(rel: Seq<char>, bytes: Seq<u8>) -> Seq<char> {
    "# file: "@ + rel + " ("@ + decimal(bytes.len()) + " bytes)\n\n"@ + utf8_lossy_text(
        capped(bytes, READ_OUTPUT_CAP as int),
    ) + (if bytes.len() > READ_OUTPUT_CAP {
        "\n\n[truncated: showing first "@ + decimal(READ_OUTPUT_CAP as nat) + " of "@ + decimal(
            bytes.len(),
        ) + " bytes]\n"@
    } else {
        seq![]
    })
}

fn capped_slice(bytes: &[u8], cap: usize) -> (r: &[u8])
    ensures
        r@ == capped(bytes@, cap as int),
{
    if bytes.len() > cap {
        vstd::slice::slice_subrange(bytes, 0, cap)
    } else {
        bytes
    }
}

/// What ReadOutputFile answers for the file at `rel` (relative to the
/// outputs root) holding `bytes`.
pub fn format_output_file(rel: &str, bytes: &[u8]) -> (r: String)
    ensures
        r@ == read_output_text(rel@, bytes@),
{
    let mut out: Vec<char> = Vec::new();
    push_str(&mut out, "# file: ");
    push_str(&mut out, rel);
    push_str(&mut out, " (");
    push_decimal(&mut out, bytes.len());
    push_str(&mut out, " bytes)\n\n");
    let text = utf8_lossy(capped_slice(bytes, READ_OUTPUT_CAP));
    push_str(&mut out, text.as_str());
    if bytes.len() > READ_OUTPUT_CAP {
        push_str(&mut out, "\n\n[truncated: showing first ");
        push_decimal(&mut out, READ_OUTPUT_CAP);
        push_str(&mut out, " of ");
        push_decimal(&mut out, bytes.len());
        push_str(&mut out, " bytes]\n");
    }
    let s = string_of(&out);
    proof {
        assert(s@ =~= read_output_text(rel@, bytes@));
    }
    s
}

/// The answer when the path names no regular file.
pub fn output_file_not_found(path: &str) -> (r: String)
    ensures
        r@ == "file not found: "@ + trim(path@),
{
    let mut out = chars_of("file not found: ");
    push_str(&mut out, trim_slice(path));
    string_of(&out)
}

// ───────────────────────── GlobOutputs ─────────────────────────

/// Most paths GlobOutputs lists.
pub const MAX_GLOB_RESULTS: usize = 500;

/// Arguments for GlobOutputs.
#[derive(Debug, Clone)]
pub struct GlobOutputsArgs {
    pub pattern: String,
}

/// The trimmed pattern, or why it is refused.
pub open spec fn glob_pattern_check(p: Seq<char>) -> Result<Seq<char>, Seq<char>> {
    let t = trim(p);
    if t.len() == 0 {
        Err("pattern is required"@)
    } else if find(t, ".."@) is Some {
        Err("'..' not allowed in glob pattern"@)
    } else if t[0] == '/' {
        Err("absolute glob patterns not allowed"@)
    } else {
        Ok(t)
    }
}

/// Check the GlobOutputs pattern; the trimmed pattern on success.
pub fn glob_outputs_pattern(args: &GlobOutputsArgs) -> (r: Result<String, String>)
    ensures
        match r {
            Ok(p) => glob_pattern_check(args.pattern@) == Ok::<Seq<char>, Seq<char>>(p@),
            Err(e) => glob_pattern_check(args.pattern@) == Err::<Seq<char>, Seq<char>>(e@),
        },
{
    let t = trim_slice(args.pattern.as_str());
    let tc = chars_of(t);
    if tc.len() == 0 {
        return Err(string_of(&chars_of("pattern is required")));
    }
    if find_str(&tc, "..", 0).is_some() {
        return Err(string_of(&chars_of("'..' not allowed in glob pattern")));
    }
    if tc[0] == '/' {
        return Err(string_of(&chars_of("absolute glob patterns not allowed")));
    }
    Ok(string_of(&tc))
}

/// The answer when the outputs tree does not exist yet.
pub fn glob_outputs_missing(pattern: &str) -> (r: String)
    ensures
        r@ == "GlobOutputs pattern="@ + debug_text(pattern@)
            + ": outputs_path does not exist yet (0 matches)\n"@,
{
    let mut out = chars_of("GlobOutputs pattern=");
    let d = debug_string(pattern);
    push_str(&mut out, d.as_str());
    push_str(&mut out, ": outputs_path does not exist yet (0 matches)\n");
    string_of(&out)
}

/// The GlobOutputs answer for the matching paths `hits`, sorted.
pub open spec fn glob_text(pattern: Seq<char>, hits: Seq<Seq<char>>) -> Seq<char> {
    "GlobOutputs pattern="@ + debug_text(pattern) + " matches="@ + decimal(hits.len()) + (if hits.len()
        >= MAX_GLOB_RESULTS {
        " (capped)"@
    } else {
        seq![]
    }) + "\n"@ + path_lines(hits)
}

/// Each path on a line of its own.
pub open spec fn path_lines(hits: Seq<Seq<char>>) -> Seq<char>
    decreases hits.len(),
{
    if hits.len() == 0 {
        seq![]
    } else {
        path_lines(hits.drop_last()) + hits.last() + "\n"@
    }
}

/// A GlobOutputs call in progress: the caller offers each walked file's
/// relative path, in walk order, while `offer` asks for more.
pub struct GlobOutputsRun {
    pattern: String,
    hits: Vec<String>,
}

impl GlobOutputsRun {
    pub closed spec fn pattern_text(&self) -> Seq<char> {
        self.pattern@
    }

    /// The matching paths so far, in walk order.
    pub closed spec fn found(&self) -> Seq<Seq<char>> {
        strs(self.hits@)
    }

    /// Start collecting paths for the (checked, trimmed) `pattern`.
    pub fn new(pattern: String) -> (r: GlobOutputsRun)
        ensures
            r.pattern_text() == pattern@,
            r.found() == Seq::<Seq<char>>::empty(),
    {
        let r = GlobOutputsRun { pattern, hits: Vec::new() };
        proof {
            assert(r.found() =~= Seq::<Seq<char>>::empty());
        }
        r
    }

    /// Keep `rel` if it matches; `true` while fewer than the cap are kept.
    pub fn offer(&mut self, rel: &str) -> (more: bool)
        requires
            old(self).found().len() < MAX_GLOB_RESULTS,
        ensures
            final(self).pattern_text() == old(self).pattern_text(),
            final(self).found() == old(self).found().push(rel@) || final(self).found() == old(
                self,
            ).found(),
            final(self).found() == old(self).found().push(rel@) <==> glob_hit(
                old(self).pattern_text(),
                rel@,
            ),
            more == (final(self).found().len() < MAX_GLOB_RESULTS),
    {
        let ghost before = self.found();
        if path_glob_match(self.pattern.as_str(), rel) {
            self.hits.push(string_of(&chars_of(rel)));
            proof {
                assert(self.found() =~= before.push(rel@));
            }
        } else {
            proof {
                assert(before.push(rel@).len() != before.len());
            }
        }
        self.hits.len() < MAX_GLOB_RESULTS
    }

    /// The answer: the kept paths in sorted order.
    pub fn finish(&self) -> (r: String)
        ensures
            exists|sorted: Seq<Seq<char>>|
                {
                    &&& sorted_strs(sorted)
                    &&& sorted.to_multiset() == self.found().to_multiset()
                    &&& r@ == glob_text(self.pattern_text(), sorted)
                },
    {
        let sorted = sort_strings(&self.hits);
        let ghost sv = strs(sorted@);
        proof {
            assert(sv.len() == self.found().len()) by {
                sv.to_multiset_ensures();
                self.found().to_multiset_ensures();
            }
        }
        let mut out = chars_of("GlobOutputs pattern=");
        let d = debug_string(self.pattern.as_str());
        push_str(&mut out, d.as_str());
        push_str(&mut out, " matches=");
        push_decimal(&mut out, sorted.len());
        if sorted.len() >= MAX_GLOB_RESULTS {
            push_str(&mut out, " (capped)");
        }
        push_str(&mut out, "\n");
        let ghost head = out@;
        let mut i: usize = 0;
        while i < sorted.len()
            invariant
                i <= sorted@.len(),
                sv == strs(sorted@),
                out@ == head + path_lines(sv.take(i as int)),
            decreases sorted@.len() - i,
        {
            push_str(&mut out, sorted[i].as_str());
            push_str(&mut out, "\n");
            proof {
                assert(sv.take(i + 1).drop_last() =~= sv.take(i as int));
                assert(out@ =~= head + path_lines(sv.take(i + 1)));
            }
            i = i + 1;
        }
        let s = string_of(&out);
        proof {
            assert(sv.take(sv.len() as int) =~= sv);
            assert(s@ =~= glob_text(self.pattern@, sv));
        }
        s
    }
}

// ───────────────────────── GrepOutputs ─────────────────────────

/// Match cap when none is given.
pub const DEFAULT_OUTPUT_MATCHES: usize = 50;

/// Most bytes of one file that GrepOutputs searches.
pub const MAX_FILE_BYTES: usize = 262144;

/// Arguments for GrepOutputs.
#[derive(Debug, Clone)]
pub struct GrepOutputsArgs {
    pub pattern: String,
    pub glob: Option<String>,
    pub max_matches: Option<usize>,
}

/// The glob filter GrepOutputs applies.
pub open spec fn grep_glob(args: GrepOutputsArgs) -> Seq<char> {
    match args.glob {
        Some(g) => g@,
        None => "**/*"@,
    }
}

pub open spec fn grep_outputs_header(pattern: Seq<char>, glob: Seq<char>, max: nat) -> Seq<char> {
    "GrepOutputs pattern="@ + debug_text(pattern) + " glob="@ + debug_text(glob) + " max_matches="@
        + decimal(max) + "\n\n"@
}

/// Matching lines of one file from line `i` on, after `count` matches so far:
/// the text added, the new count, and whether the cap stopped the search.
pub open spec fn file_hits(
    p: Seq<char>,
    ls: Seq<Seq<char>>,
    i: int,
    max: nat,
    count: nat,
    rel: Seq<char>,
    shown: bool,
) -> (Seq<char>, nat, bool)
    decreases ls.len() - i,
{
    if i >= ls.len() || i < 0 {
        (seq![], count, false)
    } else if count >= max {
        (seq![], count, true)
    } else if !regex_finds(p, ls[i]) {
        file_hits(p, ls, i + 1, max, count, rel, shown)
    } else {
        let line = (if shown {
            seq![]
        } else {
            "=== "@ + rel + " ===\n"@
        }) + "  L"@ + decimal((i + 1) as nat) + ": "@ + ls[i] + "\n"@;
        let rest = file_hits(p, ls, i + 1, max, count + 1, rel, true);
        (line + rest.0, rest.1, rest.2)
    }
}

/// The lines GrepOutputs searches in a file holding `bytes`.
pub open spec fn file_lines(bytes: Seq<u8>) -> Seq<Seq<char>> {
    lines(utf8_lossy_text(capped(bytes, MAX_FILE_BYTES as int)))
}

/// A GrepOutputs call in progress. The caller goes through the files in
/// sorted order; for each path that `admits` (and that resolves inside the
/// outputs tree) it calls `scan_file` with the bytes it could read, until
/// `stopped`.
pub struct GrepOutputsRun {
    pattern: Pattern,
    glob: String,
    max_matches: usize,
    match_count: usize,
    files_scanned: usize,
    stopped: bool,
    out: Vec<char>,
}

impl GrepOutputsRun {
    pub closed spec fn text(&self) -> Seq<char> {
        self.out@
    }

    pub closed spec fn pattern_source(&self) -> Seq<char> {
        self.pattern.source()
    }

    pub closed spec fn glob_text(&self) -> Seq<char> {
        self.glob@
    }

    pub closed spec fn cap(&self) -> usize {
        self.max_matches
    }

    pub closed spec fn matches(&self) -> usize {
        self.match_count
    }

    pub closed spec fn scanned(&self) -> usize {
        self.files_scanned
    }

    pub closed spec fn halted(&self) -> bool {
        self.stopped
    }

    /// The match cap was reached: no further file is searched.
    pub fn is_stopped(&self) -> (r: bool)
        ensures
            r == self.halted(),
    {
        self.stopped
    }

    /// `rel` passes the glob filter.
    pub fn admits(&self, rel: &str) -> (r: bool)
        ensures
            r == glob_hit(self.glob_text(), rel@),
    {
        path_glob_match(self.glob.as_str(), rel)
    }

    /// Count the file at `rel` as scanned and search its lines (`None`: it
    /// could not be read).
    pub fn scan_file(&mut self, rel: &str, bytes: Option<&[u8]>)
        requires
            !old(self).halted(),
            old(self).scanned() < usize::MAX,
        ensures
            final(self).pattern_source() == old(self).pattern_source(),
            final(self).glob_text() == old(self).glob_text(),
            final(self).cap() == old(self).cap(),
            final(self).scanned() == old(self).scanned() + 1,
            match bytes {
                None => {
                    &&& final(self).text() == old(self).text()
                    &&& final(self).matches() == old(self).matches()
                    &&& !final(self).halted()
                },
                Some(b) => {
                    let res = file_hits(
                        old(self).pattern_source(),
                        file_lines(b@),
                        0,
                        old(self).cap() as nat,
                        old(self).matches() as nat,
                        rel@,
                        false,
                    );
                    &&& final(self).text() == old(self).text() + res.0
                    &&& final(self).matches() == res.1
                    &&& final(self).halted() == res.2
                },
            },
    {
        self.files_scanned = self.files_scanned + 1;
        let b = match bytes {
            None => {
                return ;
            },
            Some(b) => b,
        };
        let text = utf8_lossy(capped_slice(b, MAX_FILE_BYTES));
        let tc = chars_of(text.as_str());
        let ls = lines_of(&tc);
        let ghost lv = file_lines(b@);
        let ghost p = self.pattern.source();
        proof {
            assert(ls@.map_values(|l: Vec<char>| l@) == lv);
        }
        let ghost start_out = self.out@;
        let ghost start_count = self.match_count as nat;
        let ghost all = file_hits(p, lv, 0, self.max_matches as nat, start_count, rel@, false);
        let mut shown = false;
        let mut i: usize = 0;
        while i < ls.len() && !self.stopped
            invariant
                i <= ls@.len(),
                ls@.map_values(|l: Vec<char>| l@) == lv,
                p == self.pattern.source(),
                self.glob@ == old(self).glob@,
                self.max_matches == old(self).max_matches,
                self.files_scanned == old(self).files_scanned + 1,
                self.pattern.source() == old(self).pattern.source(),
                all == file_hits(p, lv, 0, self.max_matches as nat, start_count, rel@, false),
                self.stopped ==> start_out + all.0 == self.out@ && all.1 == self.match_count
                    && all.2,
                !self.stopped ==> ({
                    let rest = file_hits(
                        p,
                        lv,
                        i as int,
                        self.max_matches as nat,
                        self.match_count as nat,
                        rel@,
                        shown,
                    );
                    &&& start_out + all.0 == self.out@ + rest.0
                    &&& all.1 == rest.1
                    &&& all.2 == rest.2
                }),
            decreases ls@.len() - i + (if self.stopped {
                0int
            } else {
                1int
            }),
        {
            if self.match_count >= self.max_matches {
                self.stopped = true;
                proof {
                    assert(self.out@ + seq![] =~= self.out@);
                }
            } else {
                let ghost before = self.out@;
                let line = string_of(&ls[i]);
                proof {
                    assert(line@ == lv[i as int]);
                }
                if pattern_finds(&self.pattern, line.as_str()) {
                    if !shown {
                        push_str(&mut self.out, "=== ");
                        push_str(&mut self.out, rel);
                        push_str(&mut self.out, " ===\n");
                    }
                    push_str(&mut self.out, "  L");
                    push_decimal(&mut self.out, i + 1);
                    push_str(&mut self.out, ": ");
                    push_str(&mut self.out, line.as_str());
                    push_str(&mut self.out, "\n");
                    proof {
                        let added = (if shown {
                            seq![]
                        } else {
                            "=== "@ + rel@ + " ===\n"@
                        }) + "  L"@ + decimal((i + 1) as nat) + ": "@ + lv[i as int] + "\n"@;
                        assert(self.out@ =~= before + added);
                    }
                    self.match_count = self.match_count + 1;
                    shown = true;
                }
                i = i + 1;
            }
        }
        proof {
            if !self.stopped {
                assert(self.out@ + seq![] =~= self.out@);
            }
        }
    }

    /// The finished answer: everything recorded, then the summary line.
    pub fn finish(&self) -> (r: String)
        ensures
            r@ == self.text() + "\nSummary: match_lines="@ + decimal(self.matches() as nat)
                + " files_scanned="@ + decimal(self.scanned() as nat) + (if self.matches()
                >= self.cap() {
                " truncated=max_matches"@
            } else {
                seq![]
            }) + "\n"@,
    {
        let mut out: Vec<char> = crate::seqs::copy_chars(&self.out);
        push_str(&mut out, "\nSummary: match_lines=");
        push_decimal(&mut out, self.match_count);
        push_str(&mut out, " files_scanned=");
        push_decimal(&mut out, self.files_scanned);
        if self.match_count >= self.max_matches {
            push_str(&mut out, " truncated=max_matches");
        }
        push_str(&mut out, "\n");
        string_of(&out)
    }
}

/// Start a GrepOutputs call: the pattern must be given and compile, the glob
/// filter (default `**/*`) must not climb out or start at `/`.
pub fn grep_outputs_start(args: &GrepOutputsArgs) -> (r: Result<GrepOutputsRun, String>)
    ensures
        ({
            let g = grep_glob(*args);
            if args.pattern@.len() == 0 {
                r matches Err(m) && m@ == "pattern is required"@
            } else if !regex_compiles(args.pattern@) {
                r matches Err(m) && m@ == "invalid regex: "@ + args.pattern@
            } else if find(g, ".."@) is Some || (g.len() > 0 && g[0] == '/') {
                r matches Err(m) && m@ == "invalid glob filter"@
            } else {
                r matches Ok(run) && {
                    &&& run.pattern_source() == args.pattern@
                    &&& run.glob_text() == g
                    &&& run.cap() == (match args.max_matches {
                        Some(m) => m,
                        None => DEFAULT_OUTPUT_MATCHES,
                    })
                    &&& run.matches() == 0 && run.scanned() == 0 && !run.halted()
                    &&& run.text() == grep_outputs_header(args.pattern@, g, run.cap() as nat)
                }
            }
        }),
{
    if args.pattern.as_str().is_empty() {
        return Err(string_of(&chars_of("pattern is required")));
    }
    let pattern = match compile_pattern(args.pattern.as_str()) {
        Some(p) => p,
        None => {
            let mut m = chars_of("invalid regex: ");
            push_str(&mut m, args.pattern.as_str());
            return Err(string_of(&m));
        },
    };
    let glob = match &args.glob {
        Some(g) => string_of(&chars_of(g.as_str())),
        None => string_of(&chars_of("**/*")),
    };
    let gc = chars_of(glob.as_str());
    if find_str(&gc, "..", 0).is_some() || (gc.len() > 0 && gc[0] == '/') {
        return Err(string_of(&chars_of("invalid glob filter")));
    }
    let max_matches = match args.max_matches {
        Some(m) => m,
        None => DEFAULT_OUTPUT_MATCHES,
    };
    let mut out = chars_of("GrepOutputs pattern=");
    let dp = debug_string(args.pattern.as_str());
    push_str(&mut out, dp.as_str());
    push_str(&mut out, " glob=");
    let dg = debug_string(glob.as_str());
    push_str(&mut out, dg.as_str());
    push_str(&mut out, " max_matches=");
    push_decimal(&mut out, max_matches);
    push_str(&mut out, "\n\n");
    let run = GrepOutputsRun {
        pattern,
        glob,
        max_matches,
        match_count: 0,
        files_scanned: 0,
        stopped: false,
        out,
    };
    proof {
        assert(run.text() =~= grep_outputs_header(args.pattern@, grep_glob(*args), max_matches as nat));
    }
    Ok(run)
}

/// The answer when the outputs tree does not exist.
pub fn grep_outputs_missing(pattern: &str) -> (r: String)
    ensures
        r@ == "GrepOutputs: outputs_path missing (0 matches for "@ + debug_text(pattern@) + ")\n"@,
{
    let mut out = chars_of("GrepOutputs: outputs_path missing (0 matches for ");
    let d = debug_string(pattern);
    push_str(&mut out, d.as_str());
    push_str(&mut out, ")\n");
    string_of(&out)
}

} // verus!
