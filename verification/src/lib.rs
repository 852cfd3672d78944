//! The polling, de-duplication and delivery core of a feed-to-chat relay.
//!
//! A relay watches the recent items of tracked identities on a source feed and
//! forwards every item it has not forwarded before into a destination of a chat
//! system. This crate holds the decisions of such a relay and proves them with
//! Verus; it performs no input or output itself. A driver runs the requests that
//! the state machines here issue and hands the outcomes back.
//!
//! * [`feed`]: tracked mappings, feed items and the text an item is relayed as.
//! * [`order`]: the order in which the items of one fetch are relayed.
//! * [`dedup`]: the set of identifiers already relayed, and its durable form.
//! * [`engine`]: one polling cycle over the tracked mappings, as a state machine.
//! * [`runs`]: what holds of every sequence of moves of the engine.
//! * [`scheduler`]: the loop that repeats cycles, persists and sleeps.

pub mod dedup;
pub mod engine;
pub mod feed;
pub mod order;
pub mod runs;
pub mod scheduler;
