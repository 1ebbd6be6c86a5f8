//! The decisions of the output worker and the framing of a line.
//!
//! The worker that writes to the output is a loop around blocking calls;
//! what it does next is decided here, from the phase it is in and from
//! what it found when it looked at its queue.

use vstd::prelude::*;

use crate::data_models::NodeMessage;

verus! {

/// The phase of the output worker.
#[derive(Clone, Copy, Debug, PartialEq, Eq, Structural)]
pub enum SinkPhase {
    /// Messages are written as they come.
    Serving,
    /// The queue takes nothing new; what it still holds is written.
    Draining,
    /// The worker is done.
    Closed,
}

/// What the output worker found when it looked.
#[derive(Debug)]
pub enum SinkEvent {
    /// The owner asked the worker to finish, or is gone.
    Cancelled,
    /// A message was waiting.
    Queued(NodeMessage),
    /// Nothing was waiting.
    Empty,
    /// Nothing is waiting and nothing can come any more.
    Disconnected,
}

/// What the output worker does next.
#[derive(Debug)]
pub enum SinkAction {
    /// Write the message as one line and flush.
    Write(NodeMessage),
    /// Pause for a moment before looking again.
    Wait,
    /// Close the queue to new messages.
    Close,
    /// Leave.
    Exit,
}

/// The phase that follows `phase` on `event`.  A worker that serves begins
/// to drain when it is cancelled or its queue is cut off; one that drains
/// is done when the queue has run dry.
pub open spec fn next_phase(phase: SinkPhase, event: SinkEvent) -> SinkPhase {
    match phase {
        SinkPhase::Serving => match event {
            SinkEvent::Cancelled | SinkEvent::Disconnected => SinkPhase::Draining,
            _ => SinkPhase::Serving,
        },
        SinkPhase::Draining => match event {
            SinkEvent::Disconnected => SinkPhase::Closed,
            _ => SinkPhase::Draining,
        },
        SinkPhase::Closed => SinkPhase::Closed,
    }
}

/// What a worker in `phase` does on `event`.  Until the worker is done
/// every message it finds is written, the very message; a worker that
/// begins to drain closes its queue; one that found nothing waits; one that
/// is done leaves.
pub open spec fn action_on(phase: SinkPhase, event: SinkEvent) -> SinkAction {
    match phase {
        SinkPhase::Closed => SinkAction::Exit,
        SinkPhase::Serving => match event {
            SinkEvent::Queued(msg) => SinkAction::Write(msg),
            SinkEvent::Cancelled | SinkEvent::Disconnected => SinkAction::Close,
            SinkEvent::Empty => SinkAction::Wait,
        },
        SinkPhase::Draining => match event {
            SinkEvent::Queued(msg) => SinkAction::Write(msg),
            SinkEvent::Disconnected => SinkAction::Exit,
            SinkEvent::Cancelled | SinkEvent::Empty => SinkAction::Wait,
        },
    }
}

/// One turn of the output worker: the phase it is in from now on, and what
/// it does.
pub fn sink_step(phase: SinkPhase, event: SinkEvent) -> (turn: (SinkPhase, SinkAction))
    ensures
        turn.0 == next_phase(phase, event),
        turn.1 == action_on(phase, event),
{
    match phase {
        SinkPhase::Closed => (SinkPhase::Closed, SinkAction::Exit),
        SinkPhase::Serving => match event {
            SinkEvent::Queued(msg) => (SinkPhase::Serving, SinkAction::Write(msg)),
            SinkEvent::Cancelled => (SinkPhase::Draining, SinkAction::Close),
            SinkEvent::Disconnected => (SinkPhase::Draining, SinkAction::Close),
            SinkEvent::Empty => (SinkPhase::Serving, SinkAction::Wait),
        },
        SinkPhase::Draining => match event {
            SinkEvent::Queued(msg) => (SinkPhase::Draining, SinkAction::Write(msg)),
            SinkEvent::Disconnected => (SinkPhase::Closed, SinkAction::Exit),
            SinkEvent::Cancelled => (SinkPhase::Draining, SinkAction::Wait),
            SinkEvent::Empty => (SinkPhase::Draining, SinkAction::Wait),
        },
    }
}

/// Ends `text` with a newline, so that it goes out as one line.
pub fn frame_line(text: String) -> (line: String)
    ensures
        line@ == text@.push('\n'),
{
    proof {
        reveal_strlit("\n");
    }
    text.concat("\n")
}

/// The phase of a worker that began in `phase` and has seen `events`.
pub open spec fn phase_after(phase: SinkPhase, events: Seq<SinkEvent>) -> SinkPhase
    decreases events.len(),
{
    if events.len() == 0 {
        phase
    } else {
        next_phase(phase_after(phase, events.drop_last()), events.last())
    }
}

/// The messages that a worker found waiting among `events`, in order.
pub open spec fn found(events: Seq<SinkEvent>) -> Seq<NodeMessage>
    decreases events.len(),
{
    if events.len() == 0 {
        Seq::empty()
    } else {
        match events.last() {
            SinkEvent::Queued(msg) => found(events.drop_last()).push(msg),
            _ => found(events.drop_last()),
        }
    }
}

/// The messages that a worker which began in `phase` has written on
/// `events`, in order.
pub open spec fn written(phase: SinkPhase, events: Seq<SinkEvent>) -> Seq<NodeMessage>
    decreases events.len(),
{
    if events.len() == 0 {
        Seq::empty()
    } else {
        match action_on(phase_after(phase, events.drop_last()), events.last()) {
            SinkAction::Write(msg) => written(phase, events.drop_last()).push(msg),
            _ => written(phase, events.drop_last()),
        }
    }
}

/// Nothing that the queue took is dropped.  A worker is done only once it
/// has been told, while draining, that nothing is waiting and nothing can
/// come any more; up to then, and with the event that tells it so, it has
/// written every message it found, in the order in which it found them.
pub proof fn lemma_nothing_dropped(phase: SinkPhase, events: Seq<SinkEvent>)
    requires
        events.len() > 0 ==> phase_after(phase, events.drop_last()) != SinkPhase::Closed,
    ensures
        written(phase, events) == found(events),
        phase != SinkPhase::Closed && phase_after(phase, events) == SinkPhase::Closed ==> events.last()
            is Disconnected,
    decreases events.len(),
{
    if events.len() > 0 {
        lemma_nothing_dropped(phase, events.drop_last());
    }
}

} // verus!
