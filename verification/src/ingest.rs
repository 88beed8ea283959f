//! The ingestion side of the viewer: what follows from each attempt to read a
//! line from the source.

use vstd::prelude::*;

verus! {

/// What one turn of the ingestion loop met.
#[derive(Clone, Debug, PartialEq, Eq)]
pub enum IngestEvent {
    /// The cancellation token is tripped.
    Cancelled,
    /// No line came within the timeout.
    TimedOut,
    /// A line was read.
    Line(String),
    /// The source has come to its end.
    Closed,
    /// The source failed.
    Failed,
}

/// What the ingestion loop does next.
#[derive(Clone, Debug, PartialEq, Eq)]
pub enum IngestAction {
    /// Hand the line to the render loop, waiting while the handoff is full,
    /// then read again.
    Forward(String),
    /// Read again.
    Retry,
    /// End the loop in good order; the handoff closes.
    Stop,
    /// End the loop and report the failure of the source.
    Fail,
}

/// What `event` calls for.
pub open spec fn ingest_action(event: IngestEvent) -> IngestAction {
    match event {
        IngestEvent::Cancelled => IngestAction::Stop,
        IngestEvent::TimedOut => IngestAction::Retry,
        IngestEvent::Line(line) => IngestAction::Forward(line),
        IngestEvent::Closed => IngestAction::Stop,
        IngestEvent::Failed => IngestAction::Fail,
    }
}

/// Decides what the ingestion loop does after `event`. A timeout is no
/// error: the read is tried again. A line goes on to the render loop as it
/// is. Cancellation and the end of the source end the loop; a failure of the
/// source ends it with an error.
pub fn ingest_step(event: IngestEvent) -> (action: IngestAction)
    ensures
        action == ingest_action(event),
{
    match event {
        IngestEvent::Cancelled => IngestAction::Stop,
        IngestEvent::TimedOut => IngestAction::Retry,
        IngestEvent::Line(line) => IngestAction::Forward(line),
        IngestEvent::Closed => IngestAction::Stop,
        IngestEvent::Failed => IngestAction::Fail,
    }
}

/// Whether `action` ends the ingestion loop.
pub open spec fn ends_loop(action: IngestAction) -> bool {
    action is Stop || action is Fail
}

/// The number of `events` that the ingestion loop lives to meet, the events
/// given in the order in which its turns would meet them: all up to the
/// first that ends the loop.
pub open spec fn turns(events: Seq<IngestEvent>) -> nat
    decreases events.len(),
{
    if events.len() == 0 {
        0
    } else if ends_loop(ingest_action(events[0])) {
        1
    } else {
        1 + turns(events.drop_first())
    }
}

/// The lines that the ingestion loop hands on while it meets `events`, in
/// the order in which it hands them on.
pub open spec fn forwarded(events: Seq<IngestEvent>) -> Seq<Seq<char>>
    decreases events.len(),
{
    if events.len() == 0 {
        Seq::empty()
    } else {
        match ingest_action(events[0]) {
            IngestAction::Forward(line) => seq![line@] + forwarded(events.drop_first()),
            IngestAction::Retry => forwarded(events.drop_first()),
            IngestAction::Stop => Seq::empty(),
            IngestAction::Fail => Seq::empty(),
        }
    }
}

/// Once the loop has met the tripped token, it is over: it takes no further
/// turn, so it reads nothing more from the source, and it hands on no line
/// but those that it handed on before.
pub proof fn lemma_cancelled_ends_ingestion(events: Seq<IngestEvent>, k: int)
    requires
        0 <= k < events.len(),
        events[k] == IngestEvent::Cancelled,
    ensures
        turns(events) <= k + 1,
        forwarded(events) == forwarded(events.take(k)),
    decreases k,
{
    if k == 0 {
        assert(forwarded(events.take(0)) == Seq::<Seq<char>>::empty());
    } else if !ends_loop(ingest_action(events[0])) {
        lemma_cancelled_ends_ingestion(events.drop_first(), k - 1);
        assert(events.take(k).drop_first() =~= events.drop_first().take(k - 1));
    } else {
        assert(events.take(k)[0] == events[0]);
    }
}

} // verus!
