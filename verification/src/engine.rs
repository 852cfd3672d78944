//! One polling cycle over the tracked mappings, as a state machine.
//!
//! The engine fetches nothing and delivers nothing itself. It issues one
//! [`Action`] at a time, the driver performs it and answers with the matching
//! [`Event`], and the engine decides what comes next. A cycle starts with
//! [`Event::Begin`] and ends with [`Action::Finish`].
//!
//! What the engine decides is written down once, as the function [`next`] on
//! plain mathematical values; [`Engine::step`] is proved to compute it.

use crate::dedup::DedupSet;
use crate::feed::{reference, reference_text, DeliveryError, FeedItem, FetchError, TrackedMapping, FETCH_LIMIT};
use crate::order::{newest_first, sort_newest_first};
use vstd::prelude::*;

verus! {

/// What a finished cycle reports: whether it added to the set of relayed
/// identifiers.
#[derive(Clone, Copy, Debug, PartialEq, Eq, Structural)]
pub struct CycleResult {
    pub mutated: bool,
}

/// What the engine is waiting for.
#[derive(Clone, Copy, Debug, PartialEq, Eq, Structural)]
pub enum Phase {
    /// No cycle is in progress.
    Idle,
    /// The items of a mapping were asked for; they go to `destination`.
    Fetching { destination: u64 },
    /// The item `id` was handed over for delivery to `destination`.
    Delivering { destination: u64, id: u64 },
}

/// What the driver reports to the engine.
#[derive(Debug, PartialEq, Eq)]
pub enum Event {
    /// The scheduler asks for a cycle over these mappings, in this order.
    Begin(Vec<TrackedMapping>),
    /// The fetch that was asked for ended. `Ok(None)` is a feed without data.
    Fetched(Result<Option<Vec<FeedItem>>, FetchError>),
    /// The delivery that was asked for ended.
    Delivered(Result<(), DeliveryError>),
}

/// What the engine asks the driver to do next.
#[derive(Debug, PartialEq, Eq)]
pub enum Action {
    /// Fetch at most `limit` of the most recent items of `identity`.
    Fetch { identity: u64, limit: usize },
    /// Send `text`, the reference of item `id`, to `destination` as plain
    /// text. With `suppress_mentions` the message must notify nobody.
    Deliver { destination: u64, id: u64, text: String, suppress_mentions: bool },
    /// The cycle is over.
    Finish(CycleResult),
}

/// An [`Event`] as a mathematical value.
pub enum EventView {
    Begin(Seq<TrackedMapping>),
    Fetched(Result<Option<Seq<FeedItem>>, FetchError>),
    Delivered(Result<(), DeliveryError>),
}

/// An [`Action`] as a mathematical value.
pub enum ActionView {
    Fetch { identity: u64, limit: usize },
    Deliver { destination: u64, id: u64, text: Seq<char>, suppress_mentions: bool },
    Finish(CycleResult),
}

/// The state of the engine as a mathematical value.
pub struct CycleState {
    pub phase: Phase,
    /// The mappings of the cycle that were not begun yet, in order.
    pub rest: Seq<TrackedMapping>,
    /// The identifiers of the current batch that were not examined yet, in
    /// the order in which they are examined.
    pub queue: Seq<u64>,
    /// Whether the cycle added to the set of relayed identifiers so far.
    pub mutated: bool,
}

/// One move of the engine: the state it enters, the set of relayed
/// identifiers it leaves, and the action it issues.
pub struct Step {
    pub state: CycleState,
    pub seen: Set<u64>,
    pub action: ActionView,
}

/// What a fetch brought, as a mathematical value.
pub open spec fn fetched_view(outcome: Result<Option<Vec<FeedItem>>, FetchError>) -> Result<
    Option<Seq<FeedItem>>,
    FetchError,
> {
    match outcome {
        Ok(Some(items)) => Ok(Some(items@)),
        Ok(None) => Ok(None),
        Err(error) => Err(error),
    }
}

impl View for Event {
    type V = EventView;

    open spec fn view(&self) -> EventView {
        match *self {
            Event::Begin(mappings) => EventView::Begin(mappings@),
            Event::Fetched(outcome) => EventView::Fetched(fetched_view(outcome)),
            Event::Delivered(outcome) => EventView::Delivered(outcome),
        }
    }
}

impl View for Action {
    type V = ActionView;

    open spec fn view(&self) -> ActionView {
        match *self {
            Action::Fetch { identity, limit } => ActionView::Fetch { identity, limit },
            Action::Deliver { destination, id, text, suppress_mentions } => ActionView::Deliver {
                destination,
                id,
                text: text@,
                suppress_mentions,
            },
            Action::Finish(result) => ActionView::Finish(result),
        }
    }
}

/// The state in which no cycle is in progress.
pub open spec fn idle() -> CycleState {
    CycleState { phase: Phase::Idle, rest: Seq::empty(), queue: Seq::empty(), mutated: false }
}

/// The identifiers that a fetch brought, in the order of the feed. A failed
/// fetch and a feed without data bring none.
pub open spec fn batch_ids(outcome: Result<Option<Seq<FeedItem>>, FetchError>) -> Seq<u64> {
    match outcome {
        Ok(Some(items)) => items.map_values(|item: FeedItem| item.id),
        _ => Seq::empty(),
    }
}

/// The move to the next mapping: its items are asked for, or, when no
/// mapping is left, the cycle ends and reports whether it mutated the set.
pub open spec fn next_mapping(rest: Seq<TrackedMapping>, mutated: bool, seen: Set<u64>) -> Step {
    if rest.len() == 0 {
        Step { state: idle(), seen, action: ActionView::Finish(CycleResult { mutated }) }
    } else {
        Step {
            state: CycleState {
                phase: Phase::Fetching { destination: rest[0].destination },
                rest: rest.drop_first(),
                queue: Seq::empty(),
                mutated,
            },
            seen,
            action: ActionView::Fetch { identity: rest[0].identity, limit: FETCH_LIMIT },
        }
    }
}

/// The move to the next item of the current batch: identifiers that are in
/// `seen` are passed over, the first that is not is handed over for delivery,
/// and when the queue runs out the engine moves to the next mapping.
pub open spec fn next_item(
    destination: u64,
    queue: Seq<u64>,
    rest: Seq<TrackedMapping>,
    mutated: bool,
    seen: Set<u64>,
) -> Step
    decreases queue.len(),
{
    if queue.len() == 0 {
        next_mapping(rest, mutated, seen)
    } else if seen.contains(queue[0]) {
        next_item(destination, queue.drop_first(), rest, mutated, seen)
    } else {
        Step {
            state: CycleState {
                phase: Phase::Delivering { destination, id: queue[0] },
                rest,
                queue: queue.drop_first(),
                mutated,
            },
            seen,
            action: ActionView::Deliver {
                destination,
                id: queue[0],
                text: reference(queue[0]),
                suppress_mentions: true,
            },
        }
    }
}

/// What the engine does on `event` in `state`, with `seen` the identifiers
/// relayed so far; `None` where the event answers nothing the engine asked.
///
/// * Idle, a cycle begins: the first mapping is fetched.
/// * Fetching, the fetch ended: the batch is queued newest first and its
///   first unseen item is handed over. A failed fetch queues nothing.
/// * Delivering, the delivery ended, well or badly: the item is recorded as
///   relayed, the cycle has mutated the set, and the next unseen item of the
///   batch is handed over.
pub open spec fn next(state: CycleState, seen: Set<u64>, event: EventView) -> Option<Step> {
    match (state.phase, event) {
        (Phase::Idle, EventView::Begin(mappings)) => Some(next_mapping(mappings, false, seen)),
        (Phase::Fetching { destination }, EventView::Fetched(outcome)) => Some(
            next_item(
                destination,
                newest_first(batch_ids(outcome)),
                state.rest,
                state.mutated,
                seen,
            ),
        ),
        (Phase::Delivering { destination, id }, EventView::Delivered(_)) => Some(
            next_item(destination, state.queue, state.rest, true, seen.insert(id)),
        ),
        _ => None,
    }
}

/// The engine of polling cycles. It lives as long as the relay and runs one
/// cycle after another.
pub struct Engine {
    phase: Phase,
    mappings: Vec<TrackedMapping>,
    begun: usize,
    queue: Vec<u64>,
    examined: usize,
    mutated: bool,
}

impl View for Engine {
    type V = CycleState;

    closed spec fn view(&self) -> CycleState {
        CycleState {
            phase: self.phase,
            rest: if self.begun <= self.mappings.len() {
                self.mappings@.skip(self.begun as int)
            } else {
                Seq::empty()
            },
            queue: if self.examined <= self.queue.len() {
                self.queue@.skip(self.examined as int)
            } else {
                Seq::empty()
            },
            mutated: self.mutated,
        }
    }
}

fn ids_of(outcome: &Result<Option<Vec<FeedItem>>, FetchError>) -> (ids: Vec<u64>)
    ensures
        ids@ == batch_ids(fetched_view(*outcome)),
{
    let mut ids: Vec<u64> = Vec::new();
    match outcome {
        Ok(Some(items)) => {
            let mut at: usize = 0;
            while at < items.len()
                invariant
                    at <= items.len(),
                    ids@ == items@.take(at as int).map_values(|item: FeedItem| item.id),
                decreases items.len() - at,
            {
                ids.push(items[at].id);
                at += 1;
                assert(ids@ =~= items@.take(at as int).map_values(|item: FeedItem| item.id));
            }
            assert(items@.take(at as int) =~= items@);
        },
        _ => {},
    }
    ids
}

impl Engine {
    /// An engine with no cycle in progress.
    pub fn new() -> (engine: Engine)
        ensures
            engine@ == idle(),
    {
        let engine = Engine {
            phase: Phase::Idle,
            mappings: Vec::new(),
            begun: 0,
            queue: Vec::new(),
            examined: 0,
            mutated: false,
        };
        assert(engine@.rest =~= Seq::<TrackedMapping>::empty());
        assert(engine@.queue =~= Seq::<u64>::empty());
        engine
    }

    /// What the engine is waiting for.
    pub fn phase(&self) -> (phase: Phase)
        ensures
            phase == self@.phase,
    {
        self.phase
    }

    fn turn_to_next_mapping(&mut self, seen: &DedupSet) -> (action: Action)
        ensures
            (Step { state: final(self)@, seen: seen@, action: action@ }) == next_mapping(
                old(self)@.rest,
                old(self)@.mutated,
                seen@,
            ),
    {
        self.queue = Vec::new();
        self.examined = 0;
        if self.begun < self.mappings.len() {
            let mapping: TrackedMapping = self.mappings[self.begun];
            self.begun += 1;
            self.phase = Phase::Fetching { destination: mapping.destination };
            assert(self@.rest =~= old(self)@.rest.drop_first());
            assert(self@.queue =~= Seq::<u64>::empty());
            Action::Fetch { identity: mapping.identity, limit: FETCH_LIMIT }
        } else {
            let mutated: bool = self.mutated;
            self.phase = Phase::Idle;
            self.mappings = Vec::new();
            self.begun = 0;
            self.mutated = false;
            assert(self@.rest =~= Seq::<TrackedMapping>::empty());
            assert(self@.queue =~= Seq::<u64>::empty());
            Action::Finish(CycleResult { mutated })
        }
    }

    fn turn_to_next_item(&mut self, seen: &DedupSet, destination: u64) -> (action: Action)
        ensures
            (Step { state: final(self)@, seen: seen@, action: action@ }) == next_item(
                destination,
                old(self)@.queue,
                old(self)@.rest,
                old(self)@.mutated,
                seen@,
            ),
    {
        while self.examined < self.queue.len()
            invariant
                self@.rest == old(self)@.rest,
                self@.mutated == old(self)@.mutated,
                next_item(destination, self@.queue, self@.rest, self@.mutated, seen@) == next_item(
                    destination,
                    old(self)@.queue,
                    old(self)@.rest,
                    old(self)@.mutated,
                    seen@,
                ),
            decreases self.queue.len() - self.examined,
        {
            let ghost before = self@.queue;
            let id: u64 = self.queue[self.examined];
            self.examined += 1;
            assert(self@.queue =~= before.drop_first());
            if !seen.contains(id) {
                self.phase = Phase::Delivering { destination, id };
                return Action::Deliver {
                    destination,
                    id,
                    text: reference_text(id),
                    suppress_mentions: true,
                };
            }
        }
        self.turn_to_next_mapping(seen)
    }

    /// Takes the driver's report and decides what comes next.
    ///
    /// Returns `None`, and changes nothing, where `event` answers nothing the
    /// engine asked for.
    pub fn step(&mut self, seen: &mut DedupSet, event: Event) -> (issued: Option<Action>)
        ensures
            match next(old(self)@, old(seen)@, event@) {
                Some(step) => {
                    &&& issued matches Some(action) && action@ == step.action
                    &&& final(self)@ == step.state
                    &&& final(seen)@ == step.seen
                },
                None => {
                    &&& issued is None
                    &&& final(self)@ == old(self)@
                    &&& final(seen)@ == old(seen)@
                },
            },
    {
        match event {
            Event::Begin(mappings) => match self.phase {
                Phase::Idle => {
                    self.mappings = mappings;
                    self.begun = 0;
                    self.mutated = false;
                    assert(self@.rest =~= mappings@);
                    Some(self.turn_to_next_mapping(seen))
                },
                _ => None,
            },
            Event::Fetched(outcome) => match self.phase {
                Phase::Fetching { destination } => {
                    let ids = ids_of(&outcome);
                    self.queue = sort_newest_first(&ids);
                    self.examined = 0;
                    assert(self@.queue =~= newest_first(ids@));
                    Some(self.turn_to_next_item(seen, destination))
                },
                _ => None,
            },
            Event::Delivered(_) => match self.phase {
                Phase::Delivering { destination, id } => {
                    seen.insert(id);
                    self.mutated = true;
                    Some(self.turn_to_next_item(seen, destination))
                },
                _ => None,
            },
        }
    }
}

} // verus!
