use lore_weekly::tools::output_files::{
    format_output_file, glob_outputs_missing, glob_outputs_pattern, grep_outputs_missing,
    grep_outputs_start, output_file_not_found, GlobOutputsArgs, GlobOutputsRun, GrepOutputsArgs,
    READ_OUTPUT_CAP,
};
use lore_weekly::tools::paths::{output_rel_path, OutputPathError};

/// The files of a small outputs tree, in walk order.
fn tree() -> Vec<(&'static str, &'static [u8])> {
    vec![
        ("2026-07-20/index.md", b"z"),
        ("2026-07-20/thread/t.md", b"# Title\nunique_output_token here\n"),
        ("2026-07-20/thread/a.md", b"y"),
        ("2026-07-13/thread/a.md", b"x"),
    ]
}

fn glob(pattern: &str) -> Result<String, String> {
    let p = glob_outputs_pattern(&GlobOutputsArgs { pattern: pattern.into() })?;
    let mut run = GlobOutputsRun::new(p);
    for (rel, _) in tree() {
        if !run.offer(rel) {
            break;
        }
    }
    Ok(run.finish())
}

fn grep(args: GrepOutputsArgs) -> Result<String, String> {
    let mut run = grep_outputs_start(&args)?;
    let mut files = tree();
    files.sort();
    for (rel, bytes) in files {
        if run.is_stopped() {
            break;
        }
        if !run.admits(rel) {
            continue;
        }
        run.scan_file(rel, Some(bytes));
    }
    Ok(run.finish())
}

#[test]
fn glob_finds_thread_files() {
    let out = glob("*/thread/a.md").unwrap();
    assert!(out.contains("2026-07-13/thread/a.md"));
    assert!(out.contains("2026-07-20/thread/a.md"));
    assert!(!out.contains("index.md") || out.matches("index.md").count() == 0);
    assert_eq!(
        out,
        "GlobOutputs pattern=\"*/thread/a.md\" matches=2\n2026-07-13/thread/a.md\n2026-07-20/thread/a.md\n"
    );
    let bad = glob("../x").unwrap_err();
    assert!(bad.contains(".."));
    assert_eq!(glob("  ").unwrap_err(), "pattern is required");
    assert_eq!(glob("/etc/*").unwrap_err(), "absolute glob patterns not allowed");
}

#[test]
fn glob_missing_root_message() {
    assert_eq!(
        glob_outputs_missing("*.md"),
        "GlobOutputs pattern=\"*.md\": outputs_path does not exist yet (0 matches)\n"
    );
}

#[test]
fn grep_finds_line_in_thread_md() {
    let out = grep(GrepOutputsArgs {
        pattern: "unique_output_token".into(),
        glob: Some("*/thread/*.md".into()),
        max_matches: None,
    })
    .unwrap();
    assert!(out.contains("unique_output_token"));
    assert!(out.contains("2026-07-20/thread/t.md"));
    assert!(out.contains("=== 2026-07-20/thread/t.md ===\n  L2: unique_output_token here\n"), "{out}");
    assert!(out.ends_with("\nSummary: match_lines=1 files_scanned=3\n"), "{out}");
}

#[test]
fn grep_outputs_errors_and_cap() {
    let args = |p: &str, g: Option<&str>| GrepOutputsArgs {
        pattern: p.into(),
        glob: g.map(|s| s.to_string()),
        max_matches: Some(0),
    };
    assert_eq!(grep(args("", None)).unwrap_err(), "pattern is required");
    assert_eq!(grep(args("(", None)).unwrap_err(), "invalid regex: (");
    assert_eq!(grep(args("x", Some("../*"))).unwrap_err(), "invalid glob filter");
    let out = grep(args(".", None)).unwrap();
    assert!(out.ends_with("match_lines=0 files_scanned=1 truncated=max_matches\n"), "{out}");
    assert_eq!(
        grep_outputs_missing("x"),
        "GrepOutputs: outputs_path missing (0 matches for \"x\")\n"
    );
}

#[test]
fn read_happy_and_missing() {
    let rel = output_rel_path("w/thread/a.md").unwrap();
    assert_eq!(rel.len(), 3);
    let text = format_output_file("w/thread/a.md", b"hello summary\n");
    assert!(text.contains("hello summary"));
    assert!(text.contains("w/thread/a.md"));
    assert_eq!(text, "# file: w/thread/a.md (14 bytes)\n\nhello summary\n");
    let err = output_file_not_found(" w/thread/nope.md ");
    assert!(err.contains("file not found"));
    assert_eq!(err, "file not found: w/thread/nope.md");
    assert_eq!(output_rel_path("../etc/passwd").unwrap_err(), OutputPathError::ParentDir);
}

#[test]
fn read_truncates_large_files() {
    let big = vec![b'a'; READ_OUTPUT_CAP + 5];
    let text = format_output_file("big.md", &big);
    assert!(text.starts_with("# file: big.md (262149 bytes)\n\n"));
    assert!(text.ends_with("\n\n[truncated: showing first 262144 of 262149 bytes]\n"));
}
