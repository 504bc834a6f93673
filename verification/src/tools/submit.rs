//! Submit tool payloads and one-shot submit slots.
use crate::text::{chars_of, string_of, trim, trim_of};
use vstd::prelude::*;

verus! {

broadcast use vstd::string::group_string_axioms;

/// One-shot submit slot: first writer wins; a second submit is an error for the model.
pub struct SubmitSlot<T> {
    inner: Option<T>,
}

pub open spec fn already_submitted() -> Seq<char> {
    "ERROR: already submitted"@
}

impl<T> SubmitSlot<T> {
    /// The stored payload, if any.
    pub closed spec fn content(&self) -> Option<T> {
        self.inner
    }

    pub fn new() -> (r: Self)
        ensures
            r.content() is None,
    {
        SubmitSlot { inner: None }
    }

    /// Store `value` if the slot is empty; otherwise leave it and report an error.
    pub fn try_submit(&mut self, value: T) -> (r: Result<(), String>)
        ensures
            old(self).content() is None ==> r is Ok && final(self).content() == Some(value),
            old(self).content() is Some ==> final(self).content() == old(self).content() && match r {
                Err(e) => e@ == already_submitted(),
                Ok(_) => false,
            },
    {
        if self.inner.is_some() {
            return Err(string_of(&chars_of("ERROR: already submitted")));
        }
        self.inner = Some(value);
        Ok(())
    }

    pub fn is_filled(&self) -> (r: bool)
        ensures
            r == self.content() is Some,
    {
        self.inner.is_some()
    }

    /// Remove and return the payload.
    pub fn take(&mut self) -> (r: Option<T>)
        ensures
            r == old(self).content(),
            final(self).content() is None,
    {
        self.inner.take()
    }
}

/// Payload for `SubmitThreadOrder`.
pub struct ThreadOrderPayload {
    pub ordered_root_ids: Vec<String>,
    pub notes: Option<String>,
}

/// Payload for `SubmitThreadSummary`.
pub struct ThreadSummaryPayload {
    pub title: String,
    pub markdown_body: String,
    pub key_message_ids: Vec<String>,
}

/// Finish ordering agent: ordered list of thread roots.
pub struct SubmitThreadOrder {
    /// Every active thread root_id exactly once (normalized Message-IDs).
    pub ordered_root_ids: Vec<String>,
    /// Optional short rationale for host logs only.
    pub notes: Option<String>,
}

/// Finish thread agent with the weekly summary markdown.
pub struct SubmitThreadSummary {
    /// Short title for the discussion.
    pub title: String,
    /// Markdown body of this week's summary (lore links for messages).
    pub markdown_body: String,
    /// Key message ids cited (normalized).
    pub key_message_ids: Vec<String>,
}

pub open spec fn submitted() -> Seq<char> {
    "submitted"@
}

/// Store the order payload; the answer for the model.
pub fn submit_thread_order(slot: &mut SubmitSlot<ThreadOrderPayload>, args: SubmitThreadOrder) -> (r:
    String)
    ensures
        old(slot).content() is None ==> r@ == submitted() && final(slot).content() == Some(
            ThreadOrderPayload { ordered_root_ids: args.ordered_root_ids, notes: args.notes },
        ),
        old(slot).content() is Some ==> r@ == already_submitted() && final(slot).content() == old(
            slot,
        ).content(),
{
    let payload = ThreadOrderPayload { ordered_root_ids: args.ordered_root_ids, notes: args.notes };
    match slot.try_submit(payload) {
        Ok(()) => string_of(&chars_of("submitted")),
        Err(e) => e,
    }
}

pub open spec fn empty_body_error() -> Seq<char> {
    "ERROR: markdown_body must be non-empty"@
}

/// Store the summary payload unless its body is blank; the answer for the model.
pub fn submit_thread_summary(
    slot: &mut SubmitSlot<ThreadSummaryPayload>,
    args: SubmitThreadSummary,
) -> (r: String)
    ensures
        trim(args.markdown_body@).len() == 0 ==> r@ == empty_body_error() && final(slot).content()
            == old(slot).content(),
        trim(args.markdown_body@).len() > 0 && old(slot).content() is None ==> r@ == submitted()
            && final(slot).content() == Some(
            ThreadSummaryPayload {
                title: args.title,
                markdown_body: args.markdown_body,
                key_message_ids: args.key_message_ids,
            },
        ),
        trim(args.markdown_body@).len() > 0 && old(slot).content() is Some ==> r@
            == already_submitted() && final(slot).content() == old(slot).content(),
{
    let b = chars_of(args.markdown_body.as_str());
    let t = trim_of(&b);
    if t.len() == 0 {
        return string_of(&chars_of("ERROR: markdown_body must be non-empty"));
    }
    let payload = ThreadSummaryPayload {
        title: args.title,
        markdown_body: args.markdown_body,
        key_message_ids: args.key_message_ids,
    };
    match slot.try_submit(payload) {
        Ok(()) => string_of(&chars_of("submitted")),
        Err(e) => e,
    }
}


/// Payload for `SubmitWeekOverview`.
pub struct WeekOverviewPayload {
    pub headline: String,
    pub markdown_body: String,
}

/// Finish the week agent with the front-page overview.
pub struct SubmitWeekOverview {
    /// One-line headline for the root catalog and week front matter.
    pub headline: String,
    /// Markdown body of the week overview.
    pub markdown_body: String,
}

pub open spec fn empty_headline_error() -> Seq<char> {
    "ERROR: headline must be non-empty"@
}

/// Store the overview payload unless its headline or body is blank; the
/// answer for the model.
pub fn submit_week_overview(slot: &mut SubmitSlot<WeekOverviewPayload>, args: SubmitWeekOverview) -> (r:
    String)
    ensures
        trim(args.headline@).len() == 0 ==> r@ == empty_headline_error() && final(slot).content()
            == old(slot).content(),
        trim(args.headline@).len() > 0 && trim(args.markdown_body@).len() == 0 ==> r@
            == empty_body_error() && final(slot).content() == old(slot).content(),
        trim(args.headline@).len() > 0 && trim(args.markdown_body@).len() > 0 && old(
            slot,
        ).content() is None ==> r@ == submitted() && final(slot).content() == Some(
            WeekOverviewPayload { headline: args.headline, markdown_body: args.markdown_body },
        ),
        trim(args.headline@).len() > 0 && trim(args.markdown_body@).len() > 0 && old(
            slot,
        ).content() is Some ==> r@ == already_submitted() && final(slot).content() == old(
            slot,
        ).content(),
{
    let h = chars_of(args.headline.as_str());
    if trim_of(&h).len() == 0 {
        return string_of(&chars_of("ERROR: headline must be non-empty"));
    }
    let b = chars_of(args.markdown_body.as_str());
    if trim_of(&b).len() == 0 {
        return string_of(&chars_of("ERROR: markdown_body must be non-empty"));
    }
    let payload = WeekOverviewPayload { headline: args.headline, markdown_body: args.markdown_body };
    match slot.try_submit(payload) {
        Ok(()) => string_of(&chars_of("submitted")),
        Err(e) => e,
    }
}

} // verus!
