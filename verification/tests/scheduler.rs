use feed_relay::dedup::{DedupSet, StorageError};
use feed_relay::engine::{Action, CycleResult, Engine, Event};
use feed_relay::feed::{FeedItem, TrackedMapping};
use feed_relay::scheduler::{LoopAction, LoopEvent, LoopState, Scheduler, POLL_INTERVAL_SECONDS};

fn cycle_done(mutated: bool) -> LoopEvent {
    LoopEvent::CycleDone(CycleResult { mutated })
}

#[test]
fn interval_is_three_minutes() {
    assert_eq!(POLL_INTERVAL_SECONDS, 180);
}

#[test]
fn new_scheduler_is_stopped() {
    assert_eq!(Scheduler::new().state(), LoopState::Stopped);
}

#[test]
fn first_start_runs_a_cycle() {
    let mut scheduler = Scheduler::new();
    assert_eq!(scheduler.step(LoopEvent::Start), Some(LoopAction::RunCycle));
    assert_eq!(scheduler.state(), LoopState::Polling);
}

#[test]
fn second_start_is_a_no_op() {
    let mut scheduler = Scheduler::new();
    scheduler.step(LoopEvent::Start);
    assert_eq!(scheduler.step(LoopEvent::Start), None);
    assert_eq!(scheduler.state(), LoopState::Polling);
    scheduler.step(cycle_done(true));
    assert_eq!(scheduler.step(LoopEvent::Start), None);
    scheduler.step(LoopEvent::Persisted(Ok(())));
    assert_eq!(scheduler.step(LoopEvent::Start), None);
    assert_eq!(scheduler.state(), LoopState::Sleeping);
}

#[test]
fn mutating_cycle_is_persisted_then_slept_on() {
    let mut scheduler = Scheduler::new();
    scheduler.step(LoopEvent::Start);
    assert_eq!(scheduler.step(cycle_done(true)), Some(LoopAction::Persist));
    assert_eq!(scheduler.state(), LoopState::Persisting);
    assert_eq!(
        scheduler.step(LoopEvent::Persisted(Ok(()))),
        Some(LoopAction::Sleep { seconds: 180 })
    );
    assert_eq!(scheduler.state(), LoopState::Sleeping);
    assert_eq!(scheduler.step(LoopEvent::Woke), Some(LoopAction::RunCycle));
    assert_eq!(scheduler.state(), LoopState::Polling);
}

#[test]
fn cycle_without_mutation_writes_nothing() {
    let mut scheduler = Scheduler::new();
    scheduler.step(LoopEvent::Start);
    let mut writes = 0;
    for _ in 0..5 {
        let mut action = scheduler.step(cycle_done(false)).expect("a cycle was asked for");
        if action == LoopAction::Persist {
            writes += 1;
            action = scheduler.step(LoopEvent::Persisted(Ok(()))).expect("a write was asked for");
        }
        assert_eq!(action, LoopAction::Sleep { seconds: 180 });
        assert_eq!(scheduler.step(LoopEvent::Woke), Some(LoopAction::RunCycle));
    }
    assert_eq!(writes, 0);
}

#[test]
fn failure_to_persist_aborts_for_good() {
    let mut scheduler = Scheduler::new();
    scheduler.step(LoopEvent::Start);
    scheduler.step(cycle_done(true));
    assert_eq!(
        scheduler.step(LoopEvent::Persisted(Err(StorageError::Write))),
        Some(LoopAction::Abort(StorageError::Write))
    );
    assert_eq!(scheduler.state(), LoopState::Failed);
    for event in [
        LoopEvent::Start,
        cycle_done(true),
        cycle_done(false),
        LoopEvent::Persisted(Ok(())),
        LoopEvent::Woke,
    ] {
        assert_eq!(scheduler.step(event), None);
        assert_eq!(scheduler.state(), LoopState::Failed);
    }
}

#[test]
fn failure_to_serialize_aborts_with_that_error() {
    let mut scheduler = Scheduler::new();
    scheduler.step(LoopEvent::Start);
    scheduler.step(cycle_done(true));
    assert_eq!(
        scheduler.step(LoopEvent::Persisted(Err(StorageError::Serialize))),
        Some(LoopAction::Abort(StorageError::Serialize))
    );
}

#[test]
fn report_out_of_turn_is_ignored() {
    let mut scheduler = Scheduler::new();
    for event in [cycle_done(true), LoopEvent::Persisted(Ok(())), LoopEvent::Woke] {
        assert_eq!(scheduler.step(event), None);
        assert_eq!(scheduler.state(), LoopState::Stopped);
    }
    scheduler.step(LoopEvent::Start);
    assert_eq!(scheduler.step(LoopEvent::Woke), None);
    assert_eq!(scheduler.step(LoopEvent::Persisted(Ok(()))), None);
    assert_eq!(scheduler.state(), LoopState::Polling);
    scheduler.step(cycle_done(false));
    assert_eq!(scheduler.step(cycle_done(true)), None);
    assert_eq!(scheduler.state(), LoopState::Sleeping);
}

/// The whole relay against a feed that is given in advance and a store that
/// is a string: persistence happens exactly after the cycles that relayed
/// something new, and what was stored is loaded again as the same set.
#[test]
fn relay_persists_exactly_the_cycles_that_relayed() {
    let feeds: [&[u64]; 5] = [&[], &[2, 1], &[1, 2], &[3, 2], &[3]];
    let mut stored: Option<String> = None;
    let mut writes: Vec<usize> = Vec::new();
    let mut seen = DedupSet::load(stored.as_deref()).expect("absent storage");
    let mut engine = Engine::new();
    let mut scheduler = Scheduler::new();
    let mut action = scheduler.step(LoopEvent::Start).expect("first start");
    let mut round = 0;
    while round < feeds.len() {
        action = match action {
            LoopAction::RunCycle => {
                let mapping = TrackedMapping { identity: 1, destination: 2 };
                let mut next = engine.step(&mut seen, Event::Begin(vec![mapping])).expect("idle");
                let result = loop {
                    next = match next {
                        Action::Fetch { .. } => {
                            let items = feeds[round].iter().map(|id| FeedItem { id: *id }).collect();
                            engine.step(&mut seen, Event::Fetched(Ok(Some(items)))).expect("fetching")
                        }
                        Action::Deliver { .. } => {
                            engine.step(&mut seen, Event::Delivered(Ok(()))).expect("delivering")
                        }
                        Action::Finish(result) => break result,
                    }
                };
                scheduler.step(LoopEvent::CycleDone(result)).expect("polling")
            }
            LoopAction::Persist => {
                stored = Some(seen.to_json().expect("a set of numbers"));
                writes.push(round);
                scheduler.step(LoopEvent::Persisted(Ok(()))).expect("persisting")
            }
            LoopAction::Sleep { seconds } => {
                assert_eq!(seconds, 180);
                round += 1;
                scheduler.step(LoopEvent::Woke).expect("sleeping")
            }
            LoopAction::Abort(error) => panic!("aborted: {:?}", error),
        }
    }
    assert_eq!(writes, vec![1, 3]);
    let reloaded = DedupSet::load(stored.as_deref()).expect("what was stored");
    assert_eq!(reloaded.len(), 3);
    assert!(reloaded.contains(1) && reloaded.contains(2) && reloaded.contains(3));
}
