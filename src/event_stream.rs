use vstd::prelude::*;

use crate::keycodes::KeyCode;

verus! {

/// The kind of a key event.
#[derive(Clone, Copy, Debug, PartialEq, Eq, Structural)]
pub enum EventType {
    KeyDown,
    KeyUp,
}

/// One physical key action: its keycode, which the processor may rewrite,
/// and the platform's own event, which is carried along untouched.
#[derive(Clone, Debug, PartialEq, Eq)]
pub struct KeyEvent<P> {
    pub keycode: KeyCode,
    pub payload: P,
}

impl<P> KeyEvent<P> {
    pub open spec fn with_keycode(self, keycode: KeyCode) -> KeyEvent<P> {
        KeyEvent { keycode, payload: self.payload }
    }

    pub fn new(keycode: KeyCode, payload: P) -> (r: KeyEvent<P>)
        ensures
            r.keycode == keycode,
            r.payload == payload,
    {
        KeyEvent { keycode, payload }
    }

    pub fn set_keycode(&mut self, keycode: KeyCode)
        ensures
            *final(self) == old(self).with_keycode(keycode),
    {
        self.keycode = keycode;
    }
}

/// The terminal answer for the current event: exactly one per event.
#[derive(Debug, PartialEq, Eq)]
pub enum Decision<E> {
    /// Deliver the current event, as it stands (its keycode may have been rewritten).
    Pass(E),
    /// Suppress the current event.
    Drop,
    /// Suppress the current event for now: the processor keeps it for a later replay.
    Steal,
}

/// Where synthesized and replayed events go, in the order they are posted.
pub trait EventStream<E>: Sized {
    /// Every event posted to this stream so far, oldest first.
    spec fn posted(&self) -> Seq<E>;

    fn post(&mut self, event: E)
        ensures
            final(self).posted() == old(self).posted().push(event),
    ;
}

/// A stream that records what is posted to it.
impl<E> EventStream<E> for Vec<E> {
    open spec fn posted(&self) -> Seq<E> {
        self@
    }

    fn post(&mut self, event: E) {
        self.push(event);
    }
}

/// Nanoseconds on a monotonic clock.
pub type Timestamp = u64;

/// Time elapsed from `earlier` to `later`, zero if `later` comes first.
pub open spec fn elapsed(earlier: Timestamp, later: Timestamp) -> nat {
    if later >= earlier {
        (later - earlier) as nat
    } else {
        0
    }
}

pub fn elapsed_since(earlier: Timestamp, later: Timestamp) -> (r: u64)
    ensures
        r == elapsed(earlier, later),
{
    if later >= earlier {
        later - earlier
    } else {
        0
    }
}

/// One delivered event: when it happened, its kind, and the event itself.
pub type Input<E> = (Timestamp, EventType, E);

/// A processor of key events: it holds its own state across calls and gives
/// exactly one decision for each event, after posting zero or more events.
pub trait EventProcessor<E>: Sized {
    /// The mathematical state of the processor.
    type State;

    spec fn state(&self) -> Self::State;

    /// The states that the processor can be in between two events.
    spec fn well_formed(state: Self::State) -> bool;

    /// What one call of `process` does: the next state, the events it posts
    /// (in order) and its decision.
    spec fn step(state: Self::State, timestamp: Timestamp, event_type: EventType, event: E) -> (
        Self::State,
        Seq<E>,
        Decision<E>,
    );

    fn process<S: EventStream<E>>(
        &mut self,
        timestamp: Timestamp,
        event_type: EventType,
        event: E,
        stream: &mut S,
    ) -> (d: Decision<E>)
        requires
            Self::well_formed(old(self).state()),
        ensures
            Self::well_formed(final(self).state()),
            final(self).state() == Self::step(old(self).state(), timestamp, event_type, event).0,
            final(stream).posted() == old(stream).posted() + Self::step(
                old(self).state(),
                timestamp,
                event_type,
                event,
            ).1,
            d == Self::step(old(self).state(), timestamp, event_type, event).2,
    ;
}

/// Feeds a sequence of events to a processor in the given state, oldest first:
/// the final state, everything posted, and the decisions, one per event.
pub open spec fn run<E, T: EventProcessor<E>>(state: T::State, inputs: Seq<Input<E>>) -> (
    T::State,
    Seq<E>,
    Seq<Decision<E>>,
)
    decreases inputs.len(),
{
    if inputs.len() == 0 {
        (state, Seq::empty(), Seq::empty())
    } else {
        let (ts, ty, ev) = inputs[0];
        let (next, posted, decision) = T::step(state, ts, ty, ev);
        let (last, rest_posted, rest_decisions) = run::<E, T>(next, inputs.drop_first());
        (last, posted + rest_posted, seq![decision] + rest_decisions)
    }
}

/// Every delivered event gets exactly one decision, whatever the sequence.
pub proof fn lemma_one_decision_per_event<E, T: EventProcessor<E>>(
    state: T::State,
    inputs: Seq<Input<E>>,
)
    ensures
        run::<E, T>(state, inputs).2.len() == inputs.len(),
    decreases inputs.len(),
{
    if inputs.len() > 0 {
        let (ts, ty, ev) = inputs[0];
        lemma_one_decision_per_event::<E, T>(T::step(state, ts, ty, ev).0, inputs.drop_first());
    }
}

/// Two processors that start in the same state and are fed the same events
/// post the same events and give the same decisions.
pub proof fn lemma_deterministic<E, T: EventProcessor<E>>(
    first: T::State,
    second: T::State,
    inputs: Seq<Input<E>>,
)
    requires
        first == second,
    ensures
        run::<E, T>(first, inputs) == run::<E, T>(second, inputs),
{
}

} // verus!
