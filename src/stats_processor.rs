use vstd::prelude::*;

use crate::event_stream::{
    elapsed, elapsed_since, Decision, EventProcessor, EventStream, EventType, Timestamp,
};

verus! {

/// Measures typing rhythm: the time between two key presses, and how long a
/// key was held. Every event is passed on unchanged.
pub struct StatsProcessor {
    pub last_tap: Timestamp,
}

impl StatsProcessor {
    /// A processor whose last key press is taken to be at `now`.
    pub fn new(now: Timestamp) -> (r: StatsProcessor)
        ensures
            r.last_tap == now,
    {
        StatsProcessor { last_tap: now }
    }

    /// Records one event and returns the interval it measures: for a key-down,
    /// the time since the previous key-down; for a key-up, how long since then
    /// the key was pressed. A key-down becomes the new reference point.
    pub fn record(&mut self, timestamp: Timestamp, event_type: EventType) -> (r: u64)
        ensures
            r == elapsed(old(self).last_tap, timestamp),
            final(self).last_tap == (if event_type == EventType::KeyDown {
                timestamp
            } else {
                old(self).last_tap
            }),
    {
        let r = elapsed_since(self.last_tap, timestamp);
        if let EventType::KeyDown = event_type {
            self.last_tap = timestamp;
        }
        r
    }
}

impl<E> EventProcessor<E> for StatsProcessor {
    type State = Timestamp;

    open spec fn state(&self) -> Timestamp {
        self.last_tap
    }

    open spec fn well_formed(state: Timestamp) -> bool {
        true
    }

    open spec fn step(state: Timestamp, timestamp: Timestamp, event_type: EventType, event: E) -> (
        Timestamp,
        Seq<E>,
        Decision<E>,
    ) {
        let next = if event_type == EventType::KeyDown {
            timestamp
        } else {
            state
        };
        (next, Seq::empty(), Decision::Pass(event))
    }

    fn process<S: EventStream<E>>(
        &mut self,
        timestamp: Timestamp,
        event_type: EventType,
        event: E,
        stream: &mut S,
    ) -> (d: Decision<E>) {
        let _interval = self.record(timestamp, event_type);
        proof {
            assert(old(stream).posted() + Seq::<E>::empty() == old(stream).posted());
        }
        Decision::Pass(event)
    }
}

} // verus!
