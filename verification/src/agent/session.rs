//! Agent session bookkeeping: token usage by stage and failure classification.
use crate::numfmt::{decimal, push_decimal_u64};
use crate::text::{chars_of, find, find_str, lemma_find_from_props, occurs_at, push_str, string_of};
use vstd::prelude::*;

verus! {

broadcast use vstd::string::group_string_axioms;

/// Which agent session produced a usage increment.
#[derive(Debug, Clone, Copy, PartialEq, Eq, Structural)]
pub enum UsageStage {
    Order,
    Thread,
    Week,
}

impl UsageStage {
    pub open spec fn name(self) -> Seq<char> {
        match self {
            UsageStage::Order => "order"@,
            UsageStage::Thread => "thread"@,
            UsageStage::Week => "week"@,
        }
    }

    pub fn as_str(self) -> (r: &'static str)
        ensures
            r@ == self.name(),
    {
        match self {
            UsageStage::Order => "order",
            UsageStage::Thread => "thread",
            UsageStage::Week => "week",
        }
    }
}

/// Token counts reported for one model request.
#[derive(Debug, Clone, Copy, PartialEq, Eq)]
pub struct TokenUsage {
    pub prompt_tokens: u32,
    pub completion_tokens: u32,
    pub total_tokens: u32,
    pub cached_prompt_tokens: Option<u32>,
}

/// Snapshot of accumulated token counts for one summarize-week run.
#[derive(Debug, Clone, Copy, PartialEq, Eq, Structural)]
pub struct UsageSnapshot {
    pub prompt: u64,
    pub completion: u64,
    pub total: u64,
    pub order: u64,
    pub thread: u64,
    pub week: u64,
}

/// Token accumulator shared across order / thread / week sessions.
pub struct UsageTotals {
    prompt: u64,
    completion: u64,
    total: u64,
    order: u64,
    thread: u64,
    week: u64,
}

impl UsageTotals {
    pub closed spec fn view_snapshot(&self) -> UsageSnapshot {
        UsageSnapshot {
            prompt: self.prompt,
            completion: self.completion,
            total: self.total,
            order: self.order,
            thread: self.thread,
            week: self.week,
        }
    }

    /// Every token counted in the total is attributed to exactly one stage.
    pub open spec fn well_formed(&self) -> bool {
        let s = self.view_snapshot();
        s.order + s.thread + s.week == s.total
    }

    pub fn new() -> (r: Self)
        ensures
            r.view_snapshot() == (UsageSnapshot {
                prompt: 0,
                completion: 0,
                total: 0,
                order: 0,
                thread: 0,
                week: 0,
            }),
            r.well_formed(),
    {
        UsageTotals { prompt: 0, completion: 0, total: 0, order: 0, thread: 0, week: 0 }
    }

    /// Add one request's usage under `stage`.
    pub fn add(&mut self, stage: UsageStage, u: TokenUsage)
        requires
            old(self).view_snapshot().prompt + u.prompt_tokens <= u64::MAX,
            old(self).view_snapshot().completion + u.completion_tokens <= u64::MAX,
            old(self).view_snapshot().total + u.total_tokens <= u64::MAX,
            old(self).well_formed(),
        ensures
            final(self).well_formed(),
            final(self).view_snapshot() == (UsageSnapshot {
                prompt: (old(self).view_snapshot().prompt + u.prompt_tokens) as u64,
                completion: (old(self).view_snapshot().completion + u.completion_tokens) as u64,
                total: (old(self).view_snapshot().total + u.total_tokens) as u64,
                order: if stage == UsageStage::Order {
                    (old(self).view_snapshot().order + u.total_tokens) as u64
                } else {
                    old(self).view_snapshot().order
                },
                thread: if stage == UsageStage::Thread {
                    (old(self).view_snapshot().thread + u.total_tokens) as u64
                } else {
                    old(self).view_snapshot().thread
                },
                week: if stage == UsageStage::Week {
                    (old(self).view_snapshot().week + u.total_tokens) as u64
                } else {
                    old(self).view_snapshot().week
                },
            }),
    {
        self.prompt = self.prompt + u.prompt_tokens as u64;
        self.completion = self.completion + u.completion_tokens as u64;
        self.total = self.total + u.total_tokens as u64;
        let stage_total = u.total_tokens as u64;
        match stage {
            UsageStage::Order => self.order = self.order + stage_total,
            UsageStage::Thread => self.thread = self.thread + stage_total,
            UsageStage::Week => self.week = self.week + stage_total,
        }
    }

    pub fn snapshot(&self) -> (r: UsageSnapshot)
        ensures
            r == self.view_snapshot(),
    {
        UsageSnapshot {
            prompt: self.prompt,
            completion: self.completion,
            total: self.total,
            order: self.order,
            thread: self.thread,
            week: self.week,
        }
    }
}

/// Why a thread (or session) failed.
#[derive(Debug, Clone, Copy, PartialEq, Eq, Structural)]
pub enum SessionFailReason {
    Timeout,
    NoSubmit,
    AgentError,
    Missing,
}

impl SessionFailReason {
    pub open spec fn name(self) -> Seq<char> {
        match self {
            SessionFailReason::Timeout => "timeout"@,
            SessionFailReason::NoSubmit => "no submit"@,
            SessionFailReason::AgentError => "agent error"@,
            SessionFailReason::Missing => "missing"@,
        }
    }

    pub fn as_str(self) -> (r: &'static str)
        ensures
            r@ == self.name(),
    {
        match self {
            SessionFailReason::Timeout => "timeout",
            SessionFailReason::NoSubmit => "no submit",
            SessionFailReason::AgentError => "agent error",
            SessionFailReason::Missing => "missing",
        }
    }

    /// Text for logs (`Display`).
    pub fn to_string(self) -> (r: String)
        ensures
            r@ == self.name(),
    {
        crate::text::string_of(&chars_of(self.as_str()))
    }
}

/// The first message of the error chain (outermost first) that mentions a
/// timeout or a missing submit decides; otherwise it is an agent error.
pub open spec fn classify(msgs: Seq<Seq<char>>) -> SessionFailReason
    decreases msgs.len(),
{
    if msgs.len() == 0 {
        SessionFailReason::AgentError
    } else if find(msgs[0], "timed out"@) is Some {
        SessionFailReason::Timeout
    } else if find(msgs[0], "without calling submit"@) is Some {
        SessionFailReason::NoSubmit
    } else {
        classify(msgs.drop_first())
    }
}

/// Classify a session failure from the messages of its error chain.
pub fn classify_messages(msgs: &[String]) -> (r: SessionFailReason)
    ensures
        r == classify(msgs@.map_values(|s: String| s@)),
{
    let ghost all = msgs@.map_values(|s: String| s@);
    let mut i: usize = 0;
    proof {
        assert(all.skip(0) =~= all);
    }
    while i < msgs.len()
        invariant
            i <= msgs@.len(),
            all == msgs@.map_values(|s: String| s@),
            classify(all) == classify(all.skip(i as int)),
        decreases msgs@.len() - i,
    {
        let m = chars_of(msgs[i].as_str());
        proof {
            assert(all.skip(i as int)[0] == m@);
            assert(all.skip(i as int).drop_first() =~= all.skip(i + 1));
        }
        if find_str(&m, "timed out", 0).is_some() {
            return SessionFailReason::Timeout;
        }
        if find_str(&m, "without calling submit", 0).is_some() {
            return SessionFailReason::NoSubmit;
        }
        i = i + 1;
    }
    SessionFailReason::AgentError
}

/// The error type of `anyhow`.
#[verifier::external_type_specification]
#[verifier::external_body]
pub struct ExAnyhowError(anyhow::Error);

/// The `Display` texts of an error's chain (`anyhow::Error::chain`): the
/// error itself first, then each cause in turn.
pub uninterp spec fn chain_texts(e: anyhow::Error) -> Seq<Seq<char>>;

/// `anyhow::Error::chain`, each cause rendered with `Display`.
#[verifier::external_body]
fn error_chain_messages(err: &anyhow::Error) -> (r: Vec<String>)
    ensures
        r@.map_values(|s: String| s@) == chain_texts(*err),
{
    err.chain().map(|cause| cause.to_string()).collect()
}

/// Classify a session error by walking the anyhow chain, outermost first:
/// the first message that mentions a timeout or a missing submit decides.
pub fn classify_session_error(err: &anyhow::Error) -> (r: SessionFailReason)
    ensures
        r == classify(chain_texts(*err)),
{
    let msgs = error_chain_messages(err);
    classify_messages(&msgs)
}

// ───────────────────────── the submit session's choices ─────────────────────────

/// How many times an idle agent is reminded to call submit before the session ends.
pub const MAX_IDLE_SUBMIT_NUDGES: u32 = 2;

pub open spec fn submit_nudge_text() -> Seq<char> {
    "You have not called the submit tool yet. Call it now with the required fields. Do not reply with only text. If you already drafted a title and body in a previous message, submit that content."@
}

/// The reminder sent to an agent that idles or nears its deadline without submitting.
pub fn submit_nudge() -> (r: &'static str)
    ensures
        r@ == submit_nudge_text(),
{
    "You have not called the submit tool yet. Call it now with the required fields. Do not reply with only text. If you already drafted a title and body in a previous message, submit that content."
}

/// What the host does next while an agent session runs.
#[derive(Debug, Clone, Copy, PartialEq, Eq, Structural)]
pub enum SessionAction {
    /// Keep waiting for events.
    Continue,
    /// End the session loop.
    Stop,
    /// Send the submit reminder to the agent.
    Nudge,
    /// The idle channel is closed: pause briefly, then look again.
    WaitBriefly,
}

/// Reminders sent so far in one session.
#[derive(Debug, Clone, Copy, PartialEq, Eq, Structural)]
pub struct SessionNudges {
    pub idle_nudges: u32,
    pub sent_deadline_nudge: bool,
}

impl SessionNudges {
    pub fn new() -> (r: SessionNudges)
        ensures
            r.idle_nudges == 0,
            !r.sent_deadline_nudge,
    {
        SessionNudges { idle_nudges: 0, sent_deadline_nudge: false }
    }

    /// The loop ends as soon as submit is filled or the agent task is over.
    pub fn should_stop(slot_filled: bool, run_finished: bool) -> (r: bool)
        ensures
            r == (slot_filled || run_finished),
    {
        slot_filled || run_finished
    }

    /// The agent reported it is idle (`signal_open` false: the idle channel closed).
    /// Idling before the first model turn is no missed submit; otherwise the
    /// agent is reminded at most `MAX_IDLE_SUBMIT_NUDGES` times, then the session ends.
    pub fn on_idle(&mut self, signal_open: bool, slot_filled: bool, saw_assistant: bool) -> (r: SessionAction)
        ensures
            final(self).sent_deadline_nudge == old(self).sent_deadline_nudge,
            if !signal_open {
                r == SessionAction::WaitBriefly && final(self).idle_nudges == old(self).idle_nudges
            } else if slot_filled {
                r == SessionAction::Stop && final(self).idle_nudges == old(self).idle_nudges
            } else if !saw_assistant {
                r == SessionAction::Continue && final(self).idle_nudges == old(self).idle_nudges
            } else if old(self).idle_nudges >= MAX_IDLE_SUBMIT_NUDGES {
                r == SessionAction::Stop && final(self).idle_nudges == old(self).idle_nudges
            } else {
                r == SessionAction::Nudge && final(self).idle_nudges == old(self).idle_nudges + 1
            },
    {
        if !signal_open {
            return SessionAction::WaitBriefly;
        }
        if slot_filled {
            return SessionAction::Stop;
        }
        if !saw_assistant {
            return SessionAction::Continue;
        }
        if self.idle_nudges >= MAX_IDLE_SUBMIT_NUDGES {
            return SessionAction::Stop;
        }
        self.idle_nudges = self.idle_nudges + 1;
        SessionAction::Nudge
    }

    /// A timer tick: once the deadline share of the session has passed, the
    /// agent is reminded to submit, a single time.
    pub fn on_tick(&mut self, slot_filled: bool, deadline_reached: bool) -> (r: SessionAction)
        ensures
            final(self).idle_nudges == old(self).idle_nudges,
            if old(self).sent_deadline_nudge || slot_filled || !deadline_reached {
                r == SessionAction::Continue && final(self).sent_deadline_nudge == old(self).sent_deadline_nudge
            } else {
                r == SessionAction::Nudge && final(self).sent_deadline_nudge
            },
    {
        if self.sent_deadline_nudge || slot_filled {
            return SessionAction::Continue;
        }
        if deadline_reached {
            self.sent_deadline_nudge = true;
            return SessionAction::Nudge;
        }
        SessionAction::Continue
    }

    /// After sending a reminder: a failed send after an idle reminder ends the
    /// session; a failed deadline reminder is ignored.
    pub fn after_nudge(from_idle: bool, sent: bool) -> (r: SessionAction)
        ensures
            r == (if from_idle && !sent { SessionAction::Stop } else { SessionAction::Continue }),
    {
        if from_idle && !sent {
            SessionAction::Stop
        } else {
            SessionAction::Continue
        }
    }
}

/// How a finished session is answered.
#[derive(Debug, Clone, Copy, PartialEq, Eq, Structural)]
pub enum SessionEnd {
    /// Hand back the submitted payload.
    Payload,
    /// The session timed out.
    TimedOut,
    /// The agent run failed before any submit.
    RunFailed,
    /// The agent ended without calling submit.
    NoSubmit,
}

/// A timeout wins; a submitted payload wins over a failed run; otherwise the
/// run's failure or the missing submit is reported.
pub fn session_end(timed_out: bool, run_failed: bool, submitted: bool) -> (r: SessionEnd)
    ensures
        r == (if timed_out {
            SessionEnd::TimedOut
        } else if submitted {
            SessionEnd::Payload
        } else if run_failed {
            SessionEnd::RunFailed
        } else {
            SessionEnd::NoSubmit
        }),
{
    if timed_out {
        SessionEnd::TimedOut
    } else if submitted {
        SessionEnd::Payload
    } else if run_failed {
        SessionEnd::RunFailed
    } else {
        SessionEnd::NoSubmit
    }
}

// ───────────────────────── the session's errors ─────────────────────────

/// How long an ordering agent session may run, in seconds.
pub const ORDER_AGENT_TIMEOUT_SECS: u64 = 600;
/// How long a thread agent session may run, in seconds.
pub const THREAD_AGENT_TIMEOUT_SECS: u64 = 900;
/// How long a week agent session may run, in seconds.
pub const WEEK_AGENT_TIMEOUT_SECS: u64 = 1200;

pub open spec fn no_client_text() -> Seq<char> {
    "OpenAIClient required without inference_callback"@
}

/// A session runs on the inference callback when one is given, else on the
/// model client; with neither it is refused before any request is made.
pub fn session_start_check(has_client: bool, has_inference: bool) -> (r: Result<(), String>)
    ensures
        (r is Ok) == (has_client || has_inference),
        r matches Err(m) ==> m@ == no_client_text(),
{
    if has_client || has_inference {
        Ok(())
    } else {
        Err(string_of(&chars_of("OpenAIClient required without inference_callback")))
    }
}

/// A session length as `Duration`'s `Debug` shows whole seconds.
pub open spec fn secs_text(secs: nat) -> Seq<char> {
    if secs == 0 {
        "0ns"@
    } else {
        decimal(secs) + "s"@
    }
}

pub open spec fn timed_out_text(secs: nat) -> Seq<char> {
    "agent session timed out after "@ + secs_text(secs)
}

pub open spec fn no_submit_text() -> Seq<char> {
    "agent ended without calling submit tool"@
}

/// The context a failed agent run is reported under.
pub open spec fn run_failed_text() -> Seq<char> {
    "agent run failed"@
}

/// The error message a finished session reports (outermost first): none
/// with a payload; the timeout with the session's length; a failed run under
/// `agent run failed` (its own error follows in the chain); otherwise the
/// missing submit.
pub open spec fn session_error(end: SessionEnd, timeout_secs: nat) -> Option<Seq<char>> {
    match end {
        SessionEnd::Payload => None,
        SessionEnd::TimedOut => Some(timed_out_text(timeout_secs)),
        SessionEnd::RunFailed => Some(run_failed_text()),
        SessionEnd::NoSubmit => Some(no_submit_text()),
    }
}

pub fn session_error_text(end: SessionEnd, timeout_secs: u64) -> (r: Option<String>)
    ensures
        match r {
            Some(m) => session_error(end, timeout_secs as nat) == Some(m@),
            None => session_error(end, timeout_secs as nat) is None,
        },
{
    match end {
        SessionEnd::Payload => None,
        SessionEnd::TimedOut => {
            let mut out = chars_of("agent session timed out after ");
            if timeout_secs == 0 {
                push_str(&mut out, "0ns");
            } else {
                push_decimal_u64(&mut out, timeout_secs);
                push_str(&mut out, "s");
            }
            Some(string_of(&out))
        },
        SessionEnd::RunFailed => Some(string_of(&chars_of("agent run failed"))),
        SessionEnd::NoSubmit => Some(string_of(&chars_of("agent ended without calling submit tool"))),
    }
}

/// A session that timed out is classified as a timeout.
pub proof fn lemma_timeout_classified(secs: nat, causes: Seq<Seq<char>>)
    ensures
        classify(seq![timed_out_text(secs)] + causes) == SessionFailReason::Timeout,
{
    let m = timed_out_text(secs);
    reveal_strlit("agent session timed out after ");
    reveal_strlit("timed out");
    let p = "timed out"@;
    assert(m.subrange(14, 23) =~= p);
    assert(occurs_at(m, p, 14));
    lemma_find_from_props(m, p, 0);
    assert((seq![m] + causes)[0] == m);
}

} // verus!
