//! The bounded mailbox-polling loop, as a step function over the
//! outcomes of successive search attempts.
//!
//! The driver owns the clock, the sleep and the mail session; after
//! each search attempt it hands the library the attempt's outcome and
//! the elapsed time read from a monotonic clock, and the library
//! decides: deliver a non-empty result at once, sleep and retry, or
//! give up with a timeout carrying the last transient error. The
//! deadline is checked only after an attempt, so even a zero deadline
//! performs one search.

use vstd::prelude::*;

use crate::email::Email;

verus! {

/// One bounded poll: the search filter handed to the mail collaborator,
/// the deadline, and the pause between attempts, in milliseconds.
pub struct PollQuery {
    /// The search filter, as the mail collaborator understands it.
    pub search_filter: String,
    /// How long to keep trying, measured from the first attempt.
    pub deadline_ms: u64,
    /// The pause between unsuccessful attempts.
    pub interval_ms: u64,
}

impl PollQuery {
    /// Bundle a poll description.
    pub fn new(search_filter: String, deadline_ms: u64, interval_ms: u64) -> (r: PollQuery)
        ensures
            r.search_filter@ == search_filter@,
            r.deadline_ms == deadline_ms,
            r.interval_ms == interval_ms,
    {
        PollQuery { search_filter, deadline_ms, interval_ms }
    }
}

/// What one search attempt yielded.
pub enum PollEvent {
    /// The search succeeded; the matching messages, in arrival order
    /// (possibly none).
    Messages(Vec<Email>),
    /// The search itself failed; the text describes the transient
    /// mail-server error.
    Failed(String),
}

/// The loop stopped without a result: the deadline passed. Carries the
/// last transient error seen, if any attempt failed.
pub struct TimeoutFailure {
    /// The last transient mail error, if one was seen.
    pub last_error: Option<String>,
}

/// What the driver must do after an attempt.
pub enum PollAction {
    /// Hand the non-empty result to the caller at once.
    Deliver(Vec<Email>),
    /// Pause for the query's interval, then search again.
    Sleep,
    /// Stop and report a timeout.
    GiveUp(TimeoutFailure),
}

/// What the polling loop remembers between attempts.
pub struct PollState {
    /// The last transient error seen, if any.
    pub last_error: Option<String>,
}

impl PollState {
    /// The state before the first attempt.
    pub fn new() -> (r: PollState)
        ensures
            r.last_error is None,
    {
        PollState { last_error: None }
    }
}

/// An attempt that delivers: a successful search with at least one
/// message.
pub open spec fn event_delivers(ev: PollEvent) -> bool {
    match ev {
        PollEvent::Messages(v) => v@.len() > 0,
        PollEvent::Failed(_) => false,
    }
}

/// The error to remember after an attempt.
pub open spec fn event_error(ev: PollEvent, prev: Option<Seq<char>>) -> Option<Seq<char>> {
    match ev {
        PollEvent::Messages(_) => prev,
        PollEvent::Failed(e) => Some(e@),
    }
}

/// The view of the remembered error.
pub open spec fn state_error(st: PollState) -> Option<Seq<char>> {
    match st.last_error {
        Some(e) => Some(e@),
        None => None,
    }
}

/// Decide what follows one attempt: a non-empty result is delivered at
/// once, whatever the clock says; otherwise the attempt's error is
/// remembered, and the loop gives up exactly when the elapsed time has
/// reached the deadline, else sleeps and retries.
pub fn poll_step(q: &PollQuery, st: &mut PollState, ev: PollEvent, elapsed_ms: u64) -> (act:
    PollAction)
    ensures
        state_error(*final(st)) == event_error(ev, state_error(*old(st))),
        event_delivers(ev) ==> (ev matches PollEvent::Messages(v) && act == PollAction::Deliver(
            v,
        )),
        !event_delivers(ev) && elapsed_ms >= q.deadline_ms ==> (act matches PollAction::GiveUp(f)
            && state_error(*final(st)) == (match f.last_error {
            Some(e) => Some(e@),
            None => None::<Seq<char>>,
        })),
        !event_delivers(ev) && elapsed_ms < q.deadline_ms ==> act == PollAction::Sleep,
{
    match ev {
        PollEvent::Messages(v) => {
            if v.len() > 0 {
                return PollAction::Deliver(v);
            }
        },
        PollEvent::Failed(e) => {
            st.last_error = Some(e);
        },
    }
    if elapsed_ms >= q.deadline_ms {
        let f = TimeoutFailure { last_error: match &st.last_error {
            Some(e) => Some(e.clone()),
            None => None,
        } };
        PollAction::GiveUp(f)
    } else {
        PollAction::Sleep
    }
}

/// The whole loop over a trace of attempts: each trace element is one
/// attempt's outcome and the elapsed time read after it. The result is
/// the index of the attempt whose messages are delivered, if the loop
/// delivers before the trace ends.
pub open spec fn spec_poll_delivery(deadline_ms: u64, trace: Seq<(PollEvent, u64)>) -> Option<int>
    decreases trace.len(),
{
    if trace.len() == 0 {
        None
    } else if event_delivers(trace[0].0) {
        Some(0)
    } else if trace[0].1 >= deadline_ms {
        None
    } else {
        match spec_poll_delivery(deadline_ms, trace.drop_first()) {
            Some(i) => Some(i + 1),
            None => None,
        }
    }
}

/// How many attempts the loop consumes on a trace before it stops,
/// whether by delivering or by giving up.
pub open spec fn spec_poll_attempts(deadline_ms: u64, trace: Seq<(PollEvent, u64)>) -> nat
    decreases trace.len(),
{
    if trace.len() == 0 {
        0
    } else if event_delivers(trace[0].0) {
        1
    } else if trace[0].1 >= deadline_ms {
        1
    } else {
        1 + spec_poll_attempts(deadline_ms, trace.drop_first())
    }
}

/// Even a deadline of zero costs one attempt: on any non-empty trace
/// whose first attempt yields nothing, the loop still consumed that
/// attempt before giving up.
pub proof fn lemma_poll_attempts_before_timeout(deadline_ms: u64, trace: Seq<(PollEvent, u64)>)
    requires
        trace.len() > 0,
    ensures
        spec_poll_attempts(deadline_ms, trace) >= 1,
        deadline_ms == 0 && !event_delivers(trace[0].0) ==> spec_poll_attempts(deadline_ms, trace)
            == 1 && spec_poll_delivery(deadline_ms, trace) is None,
{
}

/// The loop returns as soon as an attempt yields messages: if attempt
/// `i` is the first to deliver and every earlier attempt was read
/// before the deadline, the loop delivers attempt `i`'s messages and
/// consumes no attempt after it, however much of the deadline is left.
pub proof fn lemma_poll_delivers_immediately(
    deadline_ms: u64,
    trace: Seq<(PollEvent, u64)>,
    i: int,
)
    requires
        0 <= i < trace.len(),
        event_delivers(trace[i].0),
        forall|j: int| 0 <= j < i ==> !event_delivers(trace[j].0),
        forall|j: int| 0 <= j < i ==> trace[j].1 < deadline_ms,
    ensures
        spec_poll_delivery(deadline_ms, trace) == Some(i),
        spec_poll_attempts(deadline_ms, trace) == i + 1,
    decreases i,
{
    if i > 0 {
        lemma_poll_delivers_immediately(deadline_ms, trace.drop_first(), i - 1);
    }
}

} // verus!
