//! The `tool` subcommand: every model tool callable from the command line.
//!
//! The argument records here are the plain values the command line gives;
//! the caller parses them and runs the handlers.
use crate::config::opt_view;
use crate::summarize::require_outputs_path;
use crate::text::{chars_of, push_str, string_of};
use crate::week::WeekDate;
use vstd::prelude::*;

verus! {

broadcast use vstd::string::group_string_axioms;

/// `tool grep-emails`.
pub struct GrepEmailsCli {
    pub pattern: String,
    pub thread_root_id: Option<String>,
    pub date_from: Option<WeekDate>,
    pub date_to: Option<WeekDate>,
    pub max_matches: Option<usize>,
}

/// `tool get-email`.
pub struct GetEmailCli {
    pub message_id: String,
}

/// `tool list-thread-messages`.
pub struct ListThreadMessagesCli {
    pub thread_root_id: Option<String>,
    pub date_from: Option<WeekDate>,
    pub date_to: Option<WeekDate>,
}

/// `tool grep-outputs`.
pub struct GrepOutputsCli {
    pub pattern: String,
    pub glob: Option<String>,
    pub max_matches: Option<usize>,
}

/// `tool glob-outputs`.
pub struct GlobOutputsCli {
    pub pattern: String,
}

/// `tool read-output-file`.
pub struct ReadOutputFileCli {
    pub path: String,
}

/// `tool search-related-threads`.
pub struct SearchRelatedThreadsCli {
    pub subject: String,
    pub limit: Option<usize>,
}

/// `tool submit-thread-order` (dry run).
pub struct SubmitThreadOrderCli {
    pub ordered_root_ids: Vec<String>,
    pub notes: Option<String>,
}

/// `tool submit-thread-summary` (dry run).
pub struct SubmitThreadSummaryCli {
    pub title: String,
    pub markdown_body: String,
    pub key_message_ids: Vec<String>,
}

/// `tool submit-week-overview` (dry run).
pub struct SubmitWeekOverviewCli {
    pub headline: String,
    pub markdown_body: String,
}

/// One tool invocation.
pub enum ToolCommand {
    GrepEmails(GrepEmailsCli),
    GetEmail(GetEmailCli),
    ListThreadMessages(ListThreadMessagesCli),
    GrepOutputs(GrepOutputsCli),
    GlobOutputs(GlobOutputsCli),
    ReadOutputFile(ReadOutputFileCli),
    SearchRelatedThreads(SearchRelatedThreadsCli),
    SubmitThreadOrder(SubmitThreadOrderCli),
    SubmitThreadSummary(SubmitThreadSummaryCli),
    SubmitWeekOverview(SubmitWeekOverviewCli),
}

/// `tool …` with its global flags.
pub struct ToolCli {
    /// Week ending date for the tool context.
    pub week: Option<WeekDate>,
    /// Thread root to focus the mail tools on.
    pub focus_thread_root: Option<String>,
    /// Overrides `config.outputs_path`.
    pub outputs: Option<String>,
    /// Restricts SearchRelatedThreads to these roots.
    pub allowed_thread_root: Vec<String>,
    pub command: ToolCommand,
}

/// What context a tool needs: the mail index, or only the outputs tree.
#[derive(Debug, Clone, Copy, PartialEq, Eq, Structural)]
pub enum CtxKind {
    Mail,
    Outputs,
}

impl ToolCommand {
    /// The mail tools need the index, the outputs tools the outputs tree;
    /// the submit tools are dry runs that need neither.
    pub open spec fn kind_of(&self) -> Option<CtxKind> {
        match self {
            ToolCommand::GrepEmails(_) | ToolCommand::GetEmail(_) | ToolCommand::ListThreadMessages(
                _,
            ) | ToolCommand::SearchRelatedThreads(_) => Some(CtxKind::Mail),
            ToolCommand::GrepOutputs(_) | ToolCommand::GlobOutputs(_) | ToolCommand::ReadOutputFile(
                _,
            ) => Some(CtxKind::Outputs),
            _ => None,
        }
    }

    pub fn ctx_kind(&self) -> (r: Option<CtxKind>)
        ensures
            r == self.kind_of(),
    {
        match self {
            ToolCommand::GrepEmails(_) | ToolCommand::GetEmail(_) | ToolCommand::ListThreadMessages(
                _,
            ) | ToolCommand::SearchRelatedThreads(_) => Some(CtxKind::Mail),
            ToolCommand::GrepOutputs(_) | ToolCommand::GlobOutputs(_) | ToolCommand::ReadOutputFile(
                _,
            ) => Some(CtxKind::Outputs),
            _ => None,
        }
    }
}

/// The week a tool call is about: the `--week` flag, else the last complete
/// week under the outputs tree, else today (UTC).
pub fn resolve_week_ending(week: Option<WeekDate>, last_complete: Option<WeekDate>, today: WeekDate) -> (r:
    WeekDate)
    ensures
        r == (match week {
            Some(w) => w,
            None => match last_complete {
                Some(l) => l,
                None => today,
            },
        }),
{
    match week {
        Some(w) => w,
        None => match last_complete {
            Some(l) => l,
            None => today,
        },
    }
}

/// The outputs directory a tool call works in (or why there is none).
pub open spec fn tool_dir(kind: CtxKind, outputs_override: Option<Seq<char>>, config_outputs: Option<Seq<char>>) -> Result<Seq<char>, Seq<char>> {
    match outputs_override {
        Some(o) => Ok(o),
        None => match config_outputs {
            Some(p) => if p.len() > 0 {
                Ok(p)
            } else if kind == CtxKind::Mail {
                Ok("."@)
            } else {
                Err("output tools need --outputs or config.outputs_path: "@ + "config.outputs_path is empty"@)
            },
            None => if kind == CtxKind::Mail {
                Ok("."@)
            } else {
                Err("output tools need --outputs or config.outputs_path: "@ + "config.outputs_path is required"@)
            },
        },
    }
}

/// The outputs directory a tool call works in. Outputs tools need the
/// override or the configured path; mail tools fall back to `.`.
pub fn tool_outputs_dir(kind: CtxKind, outputs_override: &Option<String>, config_outputs: &Option<String>) -> (r:
    Result<String, String>)
    ensures
        match r {
            Ok(d) => tool_dir(kind, opt_view(*outputs_override), opt_view(*config_outputs)) == Ok::<Seq<char>, Seq<char>>(d@),
            Err(m) => tool_dir(kind, opt_view(*outputs_override), opt_view(*config_outputs)) == Err::<Seq<char>, Seq<char>>(m@),
        },
{
    if let Some(o) = outputs_override {
        return Ok(o.clone());
    }
    match kind {
        CtxKind::Outputs => match require_outputs_path(config_outputs) {
            Ok(p) => Ok(p),
            Err(e) => {
                let mut m = chars_of("output tools need --outputs or config.outputs_path: ");
                push_str(&mut m, e.as_str());
                Err(string_of(&m))
            },
        },
        CtxKind::Mail => match config_outputs {
            Some(p) => if p.as_str().is_empty() {
                Ok(string_of(&chars_of(".")))
            } else {
                Ok(p.clone())
            },
            None => Ok(string_of(&chars_of("."))),
        },
    }
}

} // verus!
