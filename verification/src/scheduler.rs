//! The loop that repeats polling cycles, persists the set and sleeps.
//!
//! The scheduler is a state machine like the engine. It is started at most
//! once; from then on it asks for a cycle, asks for the set to be persisted
//! if and only if the cycle mutated it, asks for a sleep of a fixed length,
//! and begins again. A failure to persist ends it for good.

use crate::dedup::StorageError;
use crate::engine::CycleResult;
use vstd::prelude::*;

verus! {

/// The pause between two cycles, in seconds. It never changes: there is no
/// backoff and no jitter.
pub const POLL_INTERVAL_SECONDS: u64 = 180;

/// Where the loop stands.
#[derive(Clone, Copy, Debug, PartialEq, Eq, Structural)]
pub enum LoopState {
    /// The loop was never started.
    Stopped,
    /// A cycle was asked for.
    Polling,
    /// The set was handed over to be persisted.
    Persisting,
    /// A sleep was asked for.
    Sleeping,
    /// Persisting failed. The loop does nothing any more.
    Failed,
}

/// What the driver reports to the scheduler.
#[derive(Clone, Copy, Debug, PartialEq, Eq)]
pub enum LoopEvent {
    /// Someone asks for the loop to run.
    Start,
    /// The cycle that was asked for ended with this result.
    CycleDone(CycleResult),
    /// The attempt to persist the set ended.
    Persisted(Result<(), StorageError>),
    /// The sleep that was asked for is over.
    Woke,
}

/// What the scheduler asks the driver to do next.
#[derive(Clone, Copy, Debug, PartialEq, Eq, Structural)]
pub enum LoopAction {
    /// Run one polling cycle.
    RunCycle,
    /// Write the whole set to durable storage.
    Persist,
    /// Wait for `seconds`.
    Sleep { seconds: u64 },
    /// Give up loudly: the set could not be made durable.
    Abort(StorageError),
}

/// What the scheduler does on `event` in `state`: the state it enters and the
/// action it issues, or `None` where the event is ignored.
pub open spec fn loop_next(state: LoopState, event: LoopEvent) -> Option<(LoopState, LoopAction)> {
    match (state, event) {
        (LoopState::Stopped, LoopEvent::Start) => Some((LoopState::Polling, LoopAction::RunCycle)),
        (LoopState::Polling, LoopEvent::CycleDone(result)) => if result.mutated {
            Some((LoopState::Persisting, LoopAction::Persist))
        } else {
            Some((LoopState::Sleeping, LoopAction::Sleep { seconds: POLL_INTERVAL_SECONDS }))
        },
        (LoopState::Persisting, LoopEvent::Persisted(Ok(_))) => Some(
            (LoopState::Sleeping, LoopAction::Sleep { seconds: POLL_INTERVAL_SECONDS }),
        ),
        (LoopState::Persisting, LoopEvent::Persisted(Err(error))) => Some(
            (LoopState::Failed, LoopAction::Abort(error)),
        ),
        (LoopState::Sleeping, LoopEvent::Woke) => Some((LoopState::Polling, LoopAction::RunCycle)),
        _ => None,
    }
}

/// The scheduler of the relay. There is one per process.
pub struct Scheduler {
    state: LoopState,
}

impl View for Scheduler {
    type V = LoopState;

    closed spec fn view(&self) -> LoopState {
        self.state
    }
}

impl Scheduler {
    /// A scheduler whose loop was not started yet.
    pub fn new() -> (scheduler: Scheduler)
        ensures
            scheduler@ == LoopState::Stopped,
    {
        Scheduler { state: LoopState::Stopped }
    }

    /// Where the loop stands.
    pub fn state(&self) -> (state: LoopState)
        ensures
            state == self@,
    {
        self.state
    }

    /// Takes the driver's report and decides what comes next.
    ///
    /// Returns `None`, and changes nothing, where the event is ignored: a
    /// start of a loop that was started before, or a report of something the
    /// scheduler did not ask for.
    pub fn step(&mut self, event: LoopEvent) -> (issued: Option<LoopAction>)
        ensures
            match loop_next(old(self)@, event) {
                Some((state, action)) => issued == Some(action) && final(self)@ == state,
                None => issued is None && final(self)@ == old(self)@,
            },
    {
        match (self.state, event) {
            (LoopState::Stopped, LoopEvent::Start) => {
                self.state = LoopState::Polling;
                Some(LoopAction::RunCycle)
            },
            (LoopState::Polling, LoopEvent::CycleDone(result)) => {
                if result.mutated {
                    self.state = LoopState::Persisting;
                    Some(LoopAction::Persist)
                } else {
                    self.state = LoopState::Sleeping;
                    Some(LoopAction::Sleep { seconds: POLL_INTERVAL_SECONDS })
                }
            },
            (LoopState::Persisting, LoopEvent::Persisted(Ok(_))) => {
                self.state = LoopState::Sleeping;
                Some(LoopAction::Sleep { seconds: POLL_INTERVAL_SECONDS })
            },
            (LoopState::Persisting, LoopEvent::Persisted(Err(error))) => {
                self.state = LoopState::Failed;
                Some(LoopAction::Abort(error))
            },
            (LoopState::Sleeping, LoopEvent::Woke) => {
                self.state = LoopState::Polling;
                Some(LoopAction::RunCycle)
            },
            _ => None,
        }
    }
}

/// The loop can be started once. A start is accepted only by a scheduler
/// that was never started, and no move leads back to that state, so every
/// later start is ignored.
pub proof fn lemma_start_is_accepted_once(state: LoopState, event: LoopEvent)
    ensures
        loop_next(state, LoopEvent::Start) is Some <==> state == LoopState::Stopped,
        loop_next(state, event) matches Some((after, _)) ==> after != LoopState::Stopped,
{
}

/// The event reports the end of a cycle that mutated the set.
pub open spec fn ends_mutating_cycle(event: LoopEvent) -> bool {
    event matches LoopEvent::CycleDone(result) && result.mutated
}

/// The scheduler asks for the set to be persisted.
pub open spec fn asks_to_persist(moved: Option<(LoopState, LoopAction)>) -> bool {
    moved matches Some((_, LoopAction::Persist))
}

/// The set is persisted if and only if a cycle has just ended that mutated
/// it. A cycle that mutated nothing is followed by the sleep, with no write
/// in between.
pub proof fn lemma_persists_exactly_after_mutation(state: LoopState, event: LoopEvent)
    ensures
        asks_to_persist(loop_next(state, event)) <==> (state == LoopState::Polling
            && ends_mutating_cycle(event)),
        state == LoopState::Polling && event is CycleDone && !ends_mutating_cycle(event)
            ==> loop_next(state, event) == Some(
            (LoopState::Sleeping, LoopAction::Sleep { seconds: POLL_INTERVAL_SECONDS }),
        ),
{
}

/// Every sleep has the same length, whatever came before it.
pub proof fn lemma_sleep_is_fixed(state: LoopState, event: LoopEvent)
    ensures
        loop_next(state, event) matches Some((_, LoopAction::Sleep { seconds })) ==> seconds
            == POLL_INTERVAL_SECONDS,
{
}

/// A failure to persist is final: the scheduler aborts with the error it was
/// given and ignores every event after that.
pub proof fn lemma_persist_failure_is_final(error: StorageError, event: LoopEvent)
    ensures
        loop_next(LoopState::Persisting, LoopEvent::Persisted(Err(error))) == Some(
            (LoopState::Failed, LoopAction::Abort(error)),
        ),
        loop_next(LoopState::Failed, event) is None,
{
}

} // verus!
