//! Runs of the engine: what holds of every move, and of every sequence of
//! moves, whatever the driver reports and in whatever order.

use crate::engine::{batch_ids, next, next_item, next_mapping, ActionView, CycleState, EventView, Phase, Step};
use crate::feed::{DeliveryError, FetchError, TrackedMapping};
use crate::order::{is_newest_first, lemma_newest_first_rearranges, newest_first};
use vstd::prelude::*;

verus! {

/// The move hands the item `id` over for delivery.
pub open spec fn hands_over(moved: Option<Step>, id: u64) -> bool {
    moved matches Some(step) && step.action matches ActionView::Deliver { id: handed, .. }
        && handed == id
}

/// The move ends a cycle.
pub open spec fn finishes(moved: Option<Step>) -> bool {
    moved matches Some(step) && step.action is Finish
}

/// The move ends a cycle and reports that the cycle mutated the set.
pub open spec fn reports_mutation(moved: Option<Step>) -> bool {
    moved matches Some(step) && step.action matches ActionView::Finish(result) && result.mutated
}

/// The set that a move leaves: the end of a delivery adds the identifier of
/// the item that was handed over, and nothing else changes the set.
pub open spec fn seen_after(state: CycleState, seen: Set<u64>, event: EventView) -> Set<u64> {
    match (state.phase, event) {
        (Phase::Delivering { id, .. }, EventView::Delivered(_)) => seen.insert(id),
        _ => seen,
    }
}

/// Whether the cycle counts as having mutated the set once the engine has
/// taken `event`: a cycle begins unmutated, and the end of a delivery makes
/// it mutated.
pub open spec fn mutated_after(state: CycleState, event: EventView) -> bool {
    match event {
        EventView::Begin(_) => false,
        EventView::Fetched(_) => state.mutated,
        EventView::Delivered(_) => true,
    }
}

/// The item `id` is in the set, or it is the item whose delivery the engine
/// waits for, or it waits in the queue behind that item.
pub open spec fn relayed_or_pending(state: CycleState, seen: Set<u64>, id: u64) -> bool {
    seen.contains(id) || (state.phase matches Phase::Delivering { id: awaited, .. } && (awaited
        == id || state.queue.contains(id)))
}

/// If `event` reports a fetch, every item it brought is in `seen`.
pub open spec fn brings_only(event: EventView, seen: Set<u64>) -> bool {
    event matches EventView::Fetched(outcome) ==> forall|id: u64|
        batch_ids(outcome).contains(id) ==> seen.contains(id)
}

/// The state and the set after the engine has taken `events` one after
/// another, from `state` and `seen`. An event that answers nothing the engine
/// asked leaves both as they are.
pub open spec fn run(state: CycleState, seen: Set<u64>, events: Seq<EventView>) -> (
    CycleState,
    Set<u64>,
)
    decreases events.len(),
{
    if events.len() == 0 {
        (state, seen)
    } else {
        let before = run(state, seen, events.drop_last());
        match next(before.0, before.1, events.last()) {
            Some(step) => (step.state, step.seen),
            None => before,
        }
    }
}

/// The move that the engine makes on the event at `index` of a run.
pub open spec fn moved(state: CycleState, seen: Set<u64>, events: Seq<EventView>, index: int) -> Option<
    Step,
>
    recommends
        0 <= index < events.len(),
{
    let before = run(state, seen, events.take(index));
    next(before.0, before.1, events[index])
}

/// The run is one whole cycle: the first event begins it, and the last move,
/// and no move before it, ends it.
pub open spec fn is_one_cycle(state: CycleState, seen: Set<u64>, events: Seq<EventView>) -> bool {
    &&& state.phase is Idle
    &&& events.len() > 0
    &&& events[0] is Begin
    &&& forall|index: int|
        0 <= index < events.len() - 1 ==> !finishes(#[trigger] moved(state, seen, events, index))
    &&& finishes(moved(state, seen, events, events.len() - 1))
}

/// Every answer to a fetch in `second` was an answer to a fetch that the
/// engine took in the run of `first`.
pub open spec fn fetches_the_same(
    state: CycleState,
    seen: Set<u64>,
    first: Seq<EventView>,
    second: Seq<EventView>,
) -> bool {
    forall|at: int|
        0 <= at < second.len() && (#[trigger] second[at]) is Fetched ==> exists|was: int|
            0 <= was < first.len() && #[trigger] first[was] == second[at] && moved(
                state,
                seen,
                first,
                was,
            ) is Some
}

proof fn lemma_next_item_shape(
    destination: u64,
    queue: Seq<u64>,
    rest: Seq<TrackedMapping>,
    mutated: bool,
    seen: Set<u64>,
)
    ensures
        ({
            let step = next_item(destination, queue, rest, mutated, seen);
            &&& step.seen == seen
            &&& match step.action {
                ActionView::Deliver { id, .. } => {
                    &&& queue.contains(id)
                    &&& !seen.contains(id)
                    &&& step.state.phase == Phase::Delivering { destination, id }
                    &&& step.state.mutated == mutated
                    &&& forall|other: u64|
                        queue.contains(other) ==> seen.contains(other) || other == id
                            || step.state.queue.contains(other)
                },
                ActionView::Fetch { .. } => {
                    &&& step.state.phase is Fetching
                    &&& step.state.mutated == mutated
                    &&& step == next_mapping(rest, mutated, seen)
                    &&& forall|other: u64| queue.contains(other) ==> seen.contains(other)
                },
                ActionView::Finish(result) => {
                    &&& step.state.phase is Idle
                    &&& result.mutated == mutated
                    &&& step == next_mapping(rest, mutated, seen)
                    &&& forall|other: u64| queue.contains(other) ==> seen.contains(other)
                },
            }
        }),
    decreases queue.len(),
{
    if queue.len() > 0 {
        let tail = queue.drop_first();
        assert forall|other: u64| queue.contains(other) implies other == queue[0] || tail.contains(
            other,
        ) by {
            let at = choose|at: int| 0 <= at < queue.len() && queue[at] == other;
            if at > 0 {
                assert(tail[at - 1] == other);
            }
        }
        assert forall|other: u64| tail.contains(other) implies queue.contains(other) by {
            let at = choose|at: int| 0 <= at < tail.len() && tail[at] == other;
            assert(queue[at + 1] == other);
        }
        assert(queue.contains(queue[0]));
        if seen.contains(queue[0]) {
            lemma_next_item_shape(destination, tail, rest, mutated, seen);
        }
    }
}

proof fn lemma_relayed_queue_is_passed_over(
    destination: u64,
    queue: Seq<u64>,
    rest: Seq<TrackedMapping>,
    mutated: bool,
    seen: Set<u64>,
)
    requires
        forall|id: u64| queue.contains(id) ==> seen.contains(id),
    ensures
        next_item(destination, queue, rest, mutated, seen) == next_mapping(rest, mutated, seen),
{
    lemma_next_item_shape(destination, queue, rest, mutated, seen);
}

/// What every move looks like: the set it leaves, and, by the action it
/// issues, what the engine then waits for and whether the cycle counts as
/// having mutated the set.
proof fn lemma_next_shape(state: CycleState, seen: Set<u64>, event: EventView)
    ensures
        next(state, seen, event) matches Some(step) ==> {
            &&& step.seen == seen_after(state, seen, event)
            &&& match step.action {
                ActionView::Deliver { id, .. } => {
                    &&& !step.seen.contains(id)
                    &&& step.state.phase matches Phase::Delivering { id: awaited, .. } && awaited
                        == id
                    &&& step.state.mutated == mutated_after(state, event)
                },
                ActionView::Fetch { .. } => {
                    &&& step.state.phase is Fetching
                    &&& step.state.mutated == mutated_after(state, event)
                },
                ActionView::Finish(result) => {
                    &&& step.state.phase is Idle
                    &&& result.mutated == mutated_after(state, event)
                },
            }
        },
{
    match (state.phase, event) {
        (Phase::Fetching { destination }, EventView::Fetched(outcome)) => {
            lemma_next_item_shape(
                destination,
                newest_first(batch_ids(outcome)),
                state.rest,
                state.mutated,
                seen,
            );
        },
        (Phase::Delivering { destination, id }, EventView::Delivered(_)) => {
            lemma_next_item_shape(destination, state.queue, state.rest, true, seen.insert(id));
        },
        _ => {},
    }
}

/// Within a batch the newest item that was not relayed yet goes first: what
/// is handed over is in the batch, is not in the set, and is at least as
/// recent as every other item of the batch that is not in the set. The batch
/// is left only when every item of it is in the set.
pub proof fn lemma_newest_unseen_goes_first(
    destination: u64,
    queue: Seq<u64>,
    rest: Seq<TrackedMapping>,
    mutated: bool,
    seen: Set<u64>,
)
    requires
        is_newest_first(queue),
    ensures
        ({
            let step = next_item(destination, queue, rest, mutated, seen);
            match step.action {
                ActionView::Deliver { id, .. } => {
                    &&& queue.contains(id)
                    &&& !seen.contains(id)
                    &&& forall|other: u64|
                        queue.contains(other) && !seen.contains(other) ==> other <= id
                    &&& is_newest_first(step.state.queue)
                    &&& forall|other: u64|
                        queue.contains(other) && !seen.contains(other) && other != id
                            ==> step.state.queue.contains(other)
                    &&& forall|other: u64| step.state.queue.contains(other) ==> other <= id
                },
                _ => forall|other: u64| queue.contains(other) ==> seen.contains(other),
            }
        }),
    decreases queue.len(),
{
    lemma_next_item_shape(destination, queue, rest, mutated, seen);
    if queue.len() > 0 {
        let tail = queue.drop_first();
        assert forall|other: u64| queue.contains(other) implies other == queue[0] || tail.contains(
            other,
        ) by {
            let at = choose|at: int| 0 <= at < queue.len() && queue[at] == other;
            if at > 0 {
                assert(tail[at - 1] == other);
            }
        }
        assert forall|other: u64| tail.contains(other) implies other <= queue[0] by {
            let at = choose|at: int| 0 <= at < tail.len() && tail[at] == other;
            assert(queue[at + 1] == other);
        }
        if seen.contains(queue[0]) {
            lemma_newest_unseen_goes_first(destination, tail, rest, mutated, seen);
        }
    }
}

/// No move takes an identifier out of the set, and only the end of a
/// delivery adds one: the identifier of the item that was handed over.
pub proof fn lemma_move_only_adds_the_delivered(state: CycleState, seen: Set<u64>, event: EventView)
    ensures
        next(state, seen, event) matches Some(step) ==> seen.subset_of(step.seen),
        next(state, seen, event) matches Some(step) ==> step.seen == seen_after(state, seen, event),
{
    lemma_next_shape(state, seen, event);
}

/// An item that a move hands over for delivery is not in the set, neither
/// before the move nor after it, and the engine then waits for that delivery.
pub proof fn lemma_move_hands_over_only_unseen(
    state: CycleState,
    seen: Set<u64>,
    event: EventView,
    id: u64,
)
    requires
        hands_over(next(state, seen, event), id),
    ensures
        !seen.contains(id),
        !next(state, seen, event)->0.seen.contains(id),
        next(state, seen, event)->0.state.phase matches Phase::Delivering { id: awaited, .. }
            && awaited == id,
{
    lemma_next_shape(state, seen, event);
}

/// A failed fetch skips its mapping and nothing else: the set and the
/// mutation flag stay as they are, and the engine moves to the next mapping
/// exactly as it does after a fetch that brought no items.
pub proof fn lemma_failed_fetch_skips_the_mapping(
    state: CycleState,
    seen: Set<u64>,
    error: FetchError,
)
    requires
        state.phase is Fetching,
    ensures
        next(state, seen, EventView::Fetched(Err(error))) == Some(
            next_mapping(state.rest, state.mutated, seen),
        ),
        next(state, seen, EventView::Fetched(Err(error))) == next(
            state,
            seen,
            EventView::Fetched(Ok(None)),
        ),
        next(state, seen, EventView::Fetched(Err(error))) == next(
            state,
            seen,
            EventView::Fetched(Ok(Some(Seq::empty()))),
        ),
{
    let none = Seq::<u64>::empty();
    lemma_newest_first_rearranges(none);
    assert(newest_first(none) =~= none);
    assert(batch_ids(Ok(Some(Seq::empty()))) =~= none);
}

/// A fetch that brings only items that are in the set hands nothing over:
/// the set and the mutation flag stay as they are, and the engine moves to
/// the next mapping.
pub proof fn lemma_relayed_batch_is_passed_over(
    state: CycleState,
    seen: Set<u64>,
    event: EventView,
)
    requires
        state.phase is Fetching,
        event is Fetched,
        brings_only(event, seen),
    ensures
        next(state, seen, event) == Some(next_mapping(state.rest, state.mutated, seen)),
{
    let ids = batch_ids(event->Fetched_0);
    lemma_newest_first_rearranges(ids);
    lemma_relayed_queue_is_passed_over(
        state.phase->Fetching_destination,
        newest_first(ids),
        state.rest,
        state.mutated,
        seen,
    );
}

/// A failed delivery counts like a successful one: the item is recorded as
/// relayed, the cycle counts as having mutated the set, and the engine goes
/// on with the rest of the batch.
pub proof fn lemma_failed_delivery_is_recorded(
    state: CycleState,
    seen: Set<u64>,
    error: DeliveryError,
)
    requires
        state.phase is Delivering,
    ensures
        next(state, seen, EventView::Delivered(Err(error))) == next(
            state,
            seen,
            EventView::Delivered(Ok(())),
        ),
        next(state, seen, EventView::Delivered(Err(error))) matches Some(step) && step.seen
            == seen.insert(state.phase->Delivering_id) && !hands_over(
            Some(step),
            state.phase->Delivering_id,
        ),
{
    lemma_next_shape(state, seen, EventView::Delivered(Err(error)));
}

proof fn lemma_run_unfolds(state: CycleState, seen: Set<u64>, events: Seq<EventView>, taken: int)
    requires
        0 <= taken < events.len(),
    ensures
        run(state, seen, events.take(taken + 1)) == (match moved(state, seen, events, taken) {
            Some(step) => (step.state, step.seen),
            None => run(state, seen, events.take(taken)),
        }),
{
    assert(events.take(taken + 1).drop_last() =~= events.take(taken));
}

/// A run never takes an identifier out of the set: what is in it after some
/// events is in it after any more.
pub proof fn lemma_run_keeps_what_was_relayed(
    state: CycleState,
    seen: Set<u64>,
    events: Seq<EventView>,
    earlier: int,
    later: int,
)
    requires
        0 <= earlier <= later <= events.len(),
    ensures
        run(state, seen, events.take(earlier)).1.subset_of(run(state, seen, events.take(later)).1),
    decreases later - earlier,
{
    if earlier < later {
        lemma_run_keeps_what_was_relayed(state, seen, events, earlier, later - 1);
        lemma_run_unfolds(state, seen, events, later - 1);
        let before = run(state, seen, events.take(later - 1));
        lemma_next_shape(before.0, before.1, events[later - 1]);
    }
}

/// An identifier that is in the set is never handed over for delivery again,
/// however the run goes on.
pub proof fn lemma_relayed_is_never_relayed_again(
    state: CycleState,
    seen: Set<u64>,
    events: Seq<EventView>,
    earlier: int,
    later: int,
    id: u64,
)
    requires
        0 <= earlier <= later < events.len(),
        run(state, seen, events.take(earlier)).1.contains(id),
    ensures
        !hands_over(moved(state, seen, events, later), id),
{
    lemma_run_keeps_what_was_relayed(state, seen, events, earlier, later);
    let before = run(state, seen, events.take(later));
    lemma_next_shape(before.0, before.1, events[later]);
}

proof fn lemma_handed_over_is_awaited_or_seen(
    state: CycleState,
    seen: Set<u64>,
    events: Seq<EventView>,
    first: int,
    taken: int,
    id: u64,
)
    requires
        0 <= first < taken <= events.len(),
        hands_over(moved(state, seen, events, first), id),
    ensures
        ({
            let after = run(state, seen, events.take(taken));
            after.1.contains(id) || (after.0.phase matches Phase::Delivering { id: awaited, .. }
                && awaited == id)
        }),
    decreases taken - first,
{
    lemma_run_unfolds(state, seen, events, taken - 1);
    let before = run(state, seen, events.take(taken - 1));
    lemma_next_shape(before.0, before.1, events[taken - 1]);
    if taken - 1 > first {
        lemma_handed_over_is_awaited_or_seen(state, seen, events, first, taken - 1, id);
    }
}

/// No item is handed over for delivery twice in a run.
pub proof fn lemma_relayed_at_most_once(
    state: CycleState,
    seen: Set<u64>,
    events: Seq<EventView>,
    first: int,
    second: int,
    id: u64,
)
    requires
        0 <= first < second < events.len(),
        hands_over(moved(state, seen, events, first), id),
    ensures
        !hands_over(moved(state, seen, events, second), id),
{
    lemma_handed_over_is_awaited_or_seen(state, seen, events, first, second, id);
    let before = run(state, seen, events.take(second));
    lemma_next_shape(before.0, before.1, events[second]);
}

/// Once the engine has taken the answer to a fetch, every item of that batch
/// is in the set or still on its way there, however the run goes on: it is
/// the item whose delivery the engine waits for, or it waits in the queue.
pub proof fn lemma_fetched_is_relayed_or_pending(
    state: CycleState,
    seen: Set<u64>,
    events: Seq<EventView>,
    at: int,
    taken: int,
    id: u64,
)
    requires
        0 <= at < taken <= events.len(),
        moved(state, seen, events, at) is Some,
        events[at] matches EventView::Fetched(outcome) && batch_ids(outcome).contains(id),
    ensures
        ({
            let now = run(state, seen, events.take(taken));
            relayed_or_pending(now.0, now.1, id)
        }),
    decreases taken - at,
{
    lemma_run_unfolds(state, seen, events, taken - 1);
    let before = run(state, seen, events.take(taken - 1));
    let event = events[taken - 1];
    if taken - 1 == at {
        let ids = batch_ids(event->Fetched_0);
        lemma_newest_first_rearranges(ids);
        lemma_next_item_shape(
            before.0.phase->Fetching_destination,
            newest_first(ids),
            before.0.rest,
            before.0.mutated,
            before.1,
        );
    } else {
        lemma_fetched_is_relayed_or_pending(state, seen, events, at, taken - 1, id);
        lemma_next_shape(before.0, before.1, event);
        if let (Phase::Delivering { destination, id: done }, EventView::Delivered(_)) = (
            before.0.phase,
            event,
        ) {
            lemma_next_item_shape(
                destination,
                before.0.queue,
                before.0.rest,
                true,
                before.1.insert(done),
            );
        }
    }
}

proof fn lemma_cycle_in_progress(
    state: CycleState,
    seen: Set<u64>,
    events: Seq<EventView>,
    taken: int,
)
    requires
        state.phase is Idle,
        0 < taken <= events.len(),
        events[0] is Begin,
        forall|index: int| 0 <= index < taken ==> !finishes(#[trigger] moved(state, seen, events, index)),
    ensures
        ({
            let now = run(state, seen, events.take(taken));
            &&& !(now.0.phase is Idle)
            &&& seen.subset_of(now.1)
            &&& now.0.mutated <==> now.1 != seen
            &&& now.0.phase matches Phase::Delivering { id, .. } ==> !now.1.contains(id)
        }),
    decreases taken,
{
    lemma_run_unfolds(state, seen, events, taken - 1);
    let before = run(state, seen, events.take(taken - 1));
    assert(!finishes(moved(state, seen, events, taken - 1)));
    lemma_next_shape(before.0, before.1, events[taken - 1]);
    if taken == 1 {
        assert(events.take(0) =~= Seq::<EventView>::empty());
    } else {
        lemma_cycle_in_progress(state, seen, events, taken - 1);
        if let Phase::Delivering { id, .. } = before.0.phase {
            assert(before.1.insert(id).contains(id));
        }
    }
}

/// A cycle reports that it mutated the set if and only if the set is larger
/// after the cycle than it was before.
pub proof fn lemma_cycle_reports_mutation_exactly(
    state: CycleState,
    seen: Set<u64>,
    events: Seq<EventView>,
)
    requires
        is_one_cycle(state, seen, events),
    ensures
        seen.subset_of(run(state, seen, events).1),
        reports_mutation(moved(state, seen, events, events.len() - 1)) <==> run(
            state,
            seen,
            events,
        ).1 != seen,
        run(state, seen, events).0.phase is Idle,
{
    let last = events.len() - 1;
    assert(events.take(last + 1) =~= events);
    lemma_run_unfolds(state, seen, events, last);
    let before = run(state, seen, events.take(last));
    lemma_next_shape(before.0, before.1, events[last]);
    if last == 0 {
        assert(events.take(0) =~= Seq::<EventView>::empty());
    } else {
        lemma_cycle_in_progress(state, seen, events, last);
        if let Phase::Delivering { id, .. } = before.0.phase {
            assert(before.1.insert(id).contains(id));
        }
    }
}

/// When a cycle has ended, every item that one of its fetches brought is in
/// the set, whether its delivery succeeded or failed.
pub proof fn lemma_finished_cycle_has_relayed_what_it_fetched(
    state: CycleState,
    seen: Set<u64>,
    events: Seq<EventView>,
    at: int,
    id: u64,
)
    requires
        is_one_cycle(state, seen, events),
        0 <= at < events.len(),
        moved(state, seen, events, at) is Some,
        events[at] matches EventView::Fetched(outcome) && batch_ids(outcome).contains(id),
    ensures
        run(state, seen, events).1.contains(id),
{
    assert(events.take(events.len() as int) =~= events);
    lemma_fetched_is_relayed_or_pending(state, seen, events, at, events.len() as int, id);
    lemma_cycle_reports_mutation_exactly(state, seen, events);
}

proof fn lemma_quiet_in_progress(
    state: CycleState,
    seen: Set<u64>,
    events: Seq<EventView>,
    taken: int,
)
    requires
        is_one_cycle(state, seen, events),
        forall|at: int| 0 <= at < events.len() ==> brings_only(#[trigger] events[at], seen),
        0 < taken < events.len(),
    ensures
        ({
            let now = run(state, seen, events.take(taken));
            &&& now.0.phase is Fetching
            &&& now.1 == seen
            &&& !now.0.mutated
        }),
    decreases taken,
{
    lemma_run_unfolds(state, seen, events, taken - 1);
    let before = run(state, seen, events.take(taken - 1));
    let event = events[taken - 1];
    assert(!finishes(moved(state, seen, events, taken - 1)));
    assert(brings_only(event, seen));
    if taken == 1 {
        assert(events.take(0) =~= Seq::<EventView>::empty());
    } else {
        lemma_quiet_in_progress(state, seen, events, taken - 1);
        if event is Fetched {
            lemma_relayed_batch_is_passed_over(before.0, before.1, event);
        }
    }
}

proof fn lemma_quiet_move(state: CycleState, seen: Set<u64>, events: Seq<EventView>, at: int)
    requires
        is_one_cycle(state, seen, events),
        forall|at: int| 0 <= at < events.len() ==> brings_only(#[trigger] events[at], seen),
        0 <= at < events.len(),
    ensures
        moved(state, seen, events, at) matches Some(step) ==> step.seen == seen && !(step.action
            is Deliver) && !reports_mutation(Some(step)),
{
    let before = run(state, seen, events.take(at));
    let event = events[at];
    assert(brings_only(event, seen));
    if at == 0 {
        assert(events.take(0) =~= Seq::<EventView>::empty());
    } else {
        lemma_quiet_in_progress(state, seen, events, at);
        if event is Fetched {
            lemma_relayed_batch_is_passed_over(before.0, before.1, event);
        }
    }
}

/// A cycle whose fetches bring only items that are in the set is quiet: it
/// hands nothing over for delivery, it leaves the set as it was, and it
/// reports no mutation.
pub proof fn lemma_cycle_over_relayed_items_is_quiet(
    state: CycleState,
    seen: Set<u64>,
    events: Seq<EventView>,
)
    requires
        is_one_cycle(state, seen, events),
        forall|at: int| 0 <= at < events.len() ==> brings_only(#[trigger] events[at], seen),
    ensures
        forall|at: int, id: u64|
            0 <= at < events.len() ==> !#[trigger] hands_over(moved(state, seen, events, at), id),
        run(state, seen, events).1 == seen,
        !reports_mutation(moved(state, seen, events, events.len() - 1)),
{
    assert forall|at: int, id: u64| 0 <= at < events.len() implies !#[trigger] hands_over(
        moved(state, seen, events, at),
        id,
    ) by {
        lemma_quiet_move(state, seen, events, at);
    }
    let last = events.len() - 1;
    lemma_quiet_move(state, seen, events, last);
    assert(events.take(last + 1) =~= events);
    lemma_run_unfolds(state, seen, events, last);
}

/// A cycle that follows a finished cycle and gets the same answers to its
/// fetches is quiet, however the deliveries of the first cycle went: nothing
/// is handed over for delivery again, the set stays as the first cycle left
/// it, and no mutation is reported.
pub proof fn lemma_cycle_on_the_same_feed_is_quiet(
    state: CycleState,
    seen: Set<u64>,
    first: Seq<EventView>,
    second: Seq<EventView>,
)
    requires
        is_one_cycle(state, seen, first),
        is_one_cycle(run(state, seen, first).0, run(state, seen, first).1, second),
        fetches_the_same(state, seen, first, second),
    ensures
        ({
            let left = run(state, seen, first);
            &&& forall|at: int, id: u64|
                0 <= at < second.len() ==> !#[trigger] hands_over(
                    moved(left.0, left.1, second, at),
                    id,
                )
            &&& run(left.0, left.1, second).1 == left.1
            &&& !reports_mutation(moved(left.0, left.1, second, second.len() - 1))
        }),
{
    let left = run(state, seen, first);
    assert forall|at: int| 0 <= at < second.len() implies brings_only(
        #[trigger] second[at],
        left.1,
    ) by {
        if second[at] is Fetched {
            let was = choose|was: int|
                0 <= was < first.len() && #[trigger] first[was] == second[at] && moved(
                    state,
                    seen,
                    first,
                    was,
                ) is Some;
            let outcome = second[at]->Fetched_0;
            assert forall|id: u64| batch_ids(outcome).contains(id) implies left.1.contains(id) by {
                lemma_finished_cycle_has_relayed_what_it_fetched(state, seen, first, was, id);
            }
        }
    }
    lemma_cycle_over_relayed_items_is_quiet(left.0, left.1, second);
}

} // verus!
