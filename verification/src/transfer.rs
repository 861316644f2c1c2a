//! One download, step by step.
//!
//! A transfer does no I/O. It is told what happened and answers with what
//! to do next, so that the order is fixed here: the body is written to a
//! temporary file, the file is flushed, an existing file is removed if the
//! job asks for it, and only then the temporary file takes the final name.
//! After a failure nothing more is done; a temporary file stays behind.

use vstd::prelude::*;

verus! {

/// How far a transfer has come.
#[derive(Clone, Copy, Debug, PartialEq, Eq, Structural)]
pub enum Phase {
    /// Not started.
    Idle,
    /// The request is on its way.
    Requesting,
    /// The temporary file is being created.
    Creating,
    /// Waiting for the next part of the body.
    Reading,
    /// A part of the body is being written.
    Writing,
    /// The written body is being flushed to storage.
    Flushing,
    /// The existing file is being removed.
    Unlinking,
    /// The temporary file is being renamed to the final name.
    Renaming,
    /// The file is in place.
    Succeeded,
    /// The transfer has failed.
    Failed,
}

/// What a transfer is told.
#[derive(Clone, Copy, Debug, PartialEq, Eq, Structural)]
pub enum Event {
    /// The job may start.
    Begin,
    /// The last action succeeded.
    Done,
    /// Reading gave a part of the body.
    Chunk,
    /// Reading found the body complete.
    End,
    /// The last action failed.
    Error,
}

/// What a transfer asks for.
#[derive(Clone, Copy, Debug, PartialEq, Eq, Structural)]
pub enum Action {
    /// Send the request.
    Request,
    /// Create the temporary file.
    CreateTemp,
    /// Read the next part of the body.
    ReadChunk,
    /// Write the part just read to the temporary file.
    WriteChunk,
    /// Flush the temporary file.
    Flush,
    /// Remove the existing file.
    RemoveExisting,
    /// Rename the temporary file to the final name.
    Rename,
    /// Report the download as done.
    ReportSuccess,
    /// Report the download as failed.
    ReportFailure,
    /// Nothing: the event does not belong to this phase.
    Nothing,
}

/// The phase and the action that follow an event.
pub open spec fn next(phase: Phase, unlink_existing: bool, event: Event) -> (Phase, Action) {
    match (phase, event) {
        (Phase::Idle, Event::Begin) => (Phase::Requesting, Action::Request),
        (Phase::Requesting, Event::Done) => (Phase::Creating, Action::CreateTemp),
        (Phase::Creating, Event::Done) => (Phase::Reading, Action::ReadChunk),
        (Phase::Reading, Event::Chunk) => (Phase::Writing, Action::WriteChunk),
        (Phase::Reading, Event::End) => (Phase::Flushing, Action::Flush),
        (Phase::Writing, Event::Done) => (Phase::Reading, Action::ReadChunk),
        (Phase::Flushing, Event::Done) => if unlink_existing {
            (Phase::Unlinking, Action::RemoveExisting)
        } else {
            (Phase::Renaming, Action::Rename)
        },
        (Phase::Unlinking, Event::Done) => (Phase::Renaming, Action::Rename),
        (Phase::Renaming, Event::Done) => (Phase::Succeeded, Action::ReportSuccess),
        (Phase::Requesting, Event::Error)
        | (Phase::Creating, Event::Error)
        | (Phase::Reading, Event::Error)
        | (Phase::Writing, Event::Error)
        | (Phase::Flushing, Event::Error)
        | (Phase::Unlinking, Event::Error)
        | (Phase::Renaming, Event::Error) => (Phase::Failed, Action::ReportFailure),
        _ => (phase, Action::Nothing),
    }
}

/// The phase reached from `Idle` by a sequence of events.
pub open spec fn phase_after(unlink_existing: bool, events: Seq<Event>) -> Phase
    decreases events.len(),
{
    if events.len() == 0 {
        Phase::Idle
    } else {
        next(phase_after(unlink_existing, events.drop_last()), unlink_existing, events.last()).0
    }
}

/// The action with which a transfer answers event `i` of a sequence.
pub open spec fn action_at(unlink_existing: bool, events: Seq<Event>, i: int) -> Action {
    next(phase_after(unlink_existing, events.take(i)), unlink_existing, events[i]).1
}

/// Whether the body is complete and flushing has been asked for.
pub open spec fn body_written(phase: Phase) -> bool {
    phase == Phase::Flushing || phase == Phase::Unlinking || phase == Phase::Renaming || phase
        == Phase::Succeeded
}

/// Whether an action touches the temporary file's content.
pub open spec fn touches_body(action: Action) -> bool {
    action == Action::CreateTemp || action == Action::ReadChunk || action == Action::WriteChunk
}

/// The state of one download.
pub struct Transfer {
    phase: Phase,
    unlink_existing: bool,
}

impl Transfer {
    /// How far the transfer has come.
    pub closed spec fn phase(&self) -> Phase {
        self.phase
    }

    /// Whether an existing file is removed before the rename.
    pub closed spec fn unlink_existing(&self) -> bool {
        self.unlink_existing
    }

    /// A transfer that has not started.
    pub fn new(unlink_existing: bool) -> (t: Transfer)
        ensures
            t.phase() == Phase::Idle,
            t.unlink_existing() == unlink_existing,
    {
        Transfer { phase: Phase::Idle, unlink_existing }
    }

    /// Takes an event and returns what to do next.
    pub fn step(&mut self, event: Event) -> (action: Action)
        ensures
            (final(self).phase(), action) == next(
                old(self).phase(),
                old(self).unlink_existing(),
                event,
            ),
            final(self).unlink_existing() == old(self).unlink_existing(),
    {
        let (phase, action) = match (self.phase, event) {
            (Phase::Idle, Event::Begin) => (Phase::Requesting, Action::Request),
            (Phase::Requesting, Event::Done) => (Phase::Creating, Action::CreateTemp),
            (Phase::Creating, Event::Done) => (Phase::Reading, Action::ReadChunk),
            (Phase::Reading, Event::Chunk) => (Phase::Writing, Action::WriteChunk),
            (Phase::Reading, Event::End) => (Phase::Flushing, Action::Flush),
            (Phase::Writing, Event::Done) => (Phase::Reading, Action::ReadChunk),
            (Phase::Flushing, Event::Done) => if self.unlink_existing {
                (Phase::Unlinking, Action::RemoveExisting)
            } else {
                (Phase::Renaming, Action::Rename)
            },
            (Phase::Unlinking, Event::Done) => (Phase::Renaming, Action::Rename),
            (Phase::Renaming, Event::Done) => (Phase::Succeeded, Action::ReportSuccess),
            (Phase::Idle, Event::Error) | (Phase::Succeeded, _) | (Phase::Failed, _) => (
                self.phase,
                Action::Nothing,
            ),
            (_, Event::Error) => (Phase::Failed, Action::ReportFailure),
            _ => (self.phase, Action::Nothing),
        };
        self.phase = phase;
        action
    }

    /// The phase, for the caller to read.
    pub fn current(&self) -> (p: Phase)
        ensures
            p == self.phase(),
    {
        self.phase
    }

    /// Whether the transfer has ended, with success or failure.
    pub fn is_over(&self) -> (r: bool)
        ensures
            r == (self.phase() == Phase::Succeeded || self.phase() == Phase::Failed),
    {
        self.phase == Phase::Succeeded || self.phase == Phase::Failed
    }
}

/// The phase before event `i + 1` is the phase that event `i` led to.
proof fn lemma_phase_step(unlink_existing: bool, events: Seq<Event>, i: int)
    requires
        0 <= i < events.len(),
    ensures
        phase_after(unlink_existing, events.take(i + 1)) == next(
            phase_after(unlink_existing, events.take(i)),
            unlink_existing,
            events[i],
        ).0,
{
    assert(events.take(i + 1).drop_last() =~= events.take(i));
}

/// Where the body is written, the flush was asked for at an earlier event
/// that found the body complete, and nothing has touched the body since.
pub proof fn lemma_flushed(unlink_existing: bool, events: Seq<Event>, i: int) -> (j: int)
    requires
        0 <= i <= events.len(),
        body_written(phase_after(unlink_existing, events.take(i))),
    ensures
        0 <= j < i,
        events[j] == Event::End,
        action_at(unlink_existing, events, j) == Action::Flush,
        forall|k: int| j < k < i ==> !touches_body(#[trigger] action_at(unlink_existing, events, k)),
    decreases i,
{
    if i == 0 {
        assert(events.take(0) =~= Seq::<Event>::empty());
        0
    } else {
        lemma_phase_step(unlink_existing, events, i - 1);
        let before = phase_after(unlink_existing, events.take(i - 1));
        if body_written(before) {
            lemma_flushed(unlink_existing, events, i - 1)
        } else {
            i - 1
        }
    }
}

/// The rename is asked for only after the whole body was written and the
/// flush succeeded: an earlier event found the body complete and led to the
/// flush, and between the two nothing touched the body.
pub proof fn lemma_rename_after_flush(unlink_existing: bool, events: Seq<Event>, i: int) -> (j: int)
    requires
        0 <= i < events.len(),
        action_at(unlink_existing, events, i) == Action::Rename,
    ensures
        0 <= j < i,
        events[j] == Event::End,
        action_at(unlink_existing, events, j) == Action::Flush,
        forall|k: int| j < k <= i ==> !touches_body(#[trigger] action_at(unlink_existing, events, k)),
        events[i] == Event::Done,
{
    lemma_flushed(unlink_existing, events, i)
}

/// Where an existing file must go, it is removed after the flush and before
/// the rename.
pub proof fn lemma_unlink_before_rename(events: Seq<Event>, i: int) -> (k: int)
    requires
        0 <= i < events.len(),
        action_at(true, events, i) == Action::Rename,
    ensures
        0 <= k < i,
        action_at(true, events, k) == Action::RemoveExisting,
        body_written(phase_after(true, events.take(k))),
{
    lemma_unlinking(events, i)
}

/// While the existing file is being removed, the removal was asked for at
/// an earlier event, after the flush.
proof fn lemma_unlinking(events: Seq<Event>, i: int) -> (k: int)
    requires
        0 <= i <= events.len(),
        phase_after(true, events.take(i)) == Phase::Unlinking,
    ensures
        0 <= k < i,
        action_at(true, events, k) == Action::RemoveExisting,
        body_written(phase_after(true, events.take(k))),
    decreases i,
{
    if i == 0 {
        assert(events.take(0) =~= Seq::<Event>::empty());
        0
    } else {
        lemma_phase_step(true, events, i - 1);
        if phase_after(true, events.take(i - 1)) == Phase::Unlinking {
            lemma_unlinking(events, i - 1)
        } else {
            i - 1
        }
    }
}

/// Once a transfer has started it never is idle again.
proof fn lemma_started(unlink_existing: bool, events: Seq<Event>, i: int, j: int)
    requires
        0 <= i <= j <= events.len(),
        phase_after(unlink_existing, events.take(i)) != Phase::Idle,
    ensures
        phase_after(unlink_existing, events.take(j)) != Phase::Idle,
    decreases j - i,
{
    if i < j {
        lemma_started(unlink_existing, events, i, j - 1);
        lemma_phase_step(unlink_existing, events, j - 1);
    }
}

/// A transfer sends its request once: whatever it is told, it asks for the
/// request at no more than one event.
pub proof fn lemma_one_request(unlink_existing: bool, events: Seq<Event>, i: int, j: int)
    requires
        0 <= i < events.len(),
        0 <= j < events.len(),
        action_at(unlink_existing, events, i) == Action::Request,
        action_at(unlink_existing, events, j) == Action::Request,
    ensures
        i == j,
{
    if i < j {
        lemma_phase_step(unlink_existing, events, i);
        lemma_started(unlink_existing, events, i + 1, j);
    }
    if j < i {
        lemma_phase_step(unlink_existing, events, j);
        lemma_started(unlink_existing, events, j + 1, i);
    }
}

/// Where no existing file must go, none is ever removed.
pub proof fn lemma_no_unlink_unasked(events: Seq<Event>, i: int)
    requires
        0 <= i < events.len(),
    ensures
        action_at(false, events, i) != Action::RemoveExisting,
{
}

/// A transfer that has ended stays as it is and asks for nothing more; in
/// particular a failed one never removes or renames a file.
pub proof fn lemma_end_is_final(unlink_existing: bool, events: Seq<Event>, i: int, j: int)
    requires
        0 <= i <= j < events.len(),
        phase_after(unlink_existing, events.take(i)) == Phase::Succeeded || phase_after(
            unlink_existing,
            events.take(i),
        ) == Phase::Failed,
    ensures
        phase_after(unlink_existing, events.take(j + 1)) == phase_after(
            unlink_existing,
            events.take(i),
        ),
        action_at(unlink_existing, events, j) == Action::Nothing,
    decreases j - i,
{
    if i < j {
        lemma_end_is_final(unlink_existing, events, i, j - 1);
    }
    lemma_phase_step(unlink_existing, events, j);
}

} // verus!
