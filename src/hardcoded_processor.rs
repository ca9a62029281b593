use vstd::prelude::*;

use crate::event_stream::{
    elapsed, elapsed_since, Decision, EventProcessor, EventStream, EventType, KeyEvent, Timestamp,
};
use crate::keycodes::{arrow_for, arrow_of, is_dependent, is_dependent_key, TRIGGER};

verus! {

/// How long the trigger key must be held before it counts as a hold (200 ms).
pub const TAPPING_TERM: u64 = 200_000_000;

/// The state of the layer: when the trigger went down (`None`: the layer is
/// idle), and the events held back since, oldest first.
pub struct LayerState<P> {
    pub pressed: Option<Timestamp>,
    pub stolen: Seq<KeyEvent<P>>,
}

pub open spec fn idle<P>() -> LayerState<P> {
    LayerState { pressed: None, stolen: Seq::empty() }
}

/// Whether `now` is still inside the tapping term of a press at `pressed`.
pub open spec fn within_term(pressed: Timestamp, now: Timestamp) -> bool {
    elapsed(pressed, now) < TAPPING_TERM
}

/// The event with its keycode replaced by the arrow it stands for.
pub open spec fn to_arrow<P>(event: KeyEvent<P>) -> KeyEvent<P> {
    event.with_keycode(arrow_of(event.keycode))
}

/// The held-back events above the bottom one (the trigger's own key-down),
/// each turned into its arrow.
pub open spec fn dependents_as_arrows<P>(stolen: Seq<KeyEvent<P>>) -> Seq<KeyEvent<P>> {
    if stolen.len() == 0 {
        Seq::empty()
    } else {
        stolen.drop_first().map_values(|e: KeyEvent<P>| to_arrow(e))
    }
}

/// The layer's states between two events: an idle layer holds nothing back,
/// and everything held back above the bottom entry is a dependent key.
pub open spec fn layer_well_formed<P>(s: LayerState<P>) -> bool {
    &&& s.pressed is None ==> s.stolen.len() == 0
    &&& forall|i: int| 1 <= i < s.stolen.len() ==> is_dependent(#[trigger] s.stolen[i].keycode)
}

/// The tap-hold layer: one event in, the next state, what is posted and the decision.
pub open spec fn layer_step<P>(
    s: LayerState<P>,
    now: Timestamp,
    event_type: EventType,
    event: KeyEvent<P>,
) -> (LayerState<P>, Seq<KeyEvent<P>>, Decision<KeyEvent<P>>) {
    let k = event.keycode;
    if k == TRIGGER {
        match event_type {
            EventType::KeyDown => match s.pressed {
                None => (
                    LayerState { pressed: Some(now), stolen: s.stolen.push(event) },
                    Seq::empty(),
                    Decision::Steal,
                ),
                Some(_) => (s, Seq::empty(), Decision::Pass(event)),
            },
            EventType::KeyUp => match s.pressed {
                Some(t0) => if within_term(t0, now) {
                    (idle(), s.stolen, Decision::Pass(event))
                } else {
                    (idle(), Seq::empty(), Decision::Drop)
                },
                None => (idle(), s.stolen, Decision::Pass(event)),
            },
        }
    } else if s.pressed is Some && is_dependent(k) {
        let t0 = s.pressed->Some_0;
        if within_term(t0, now) {
            match event_type {
                EventType::KeyDown => (
                    LayerState { pressed: s.pressed, stolen: s.stolen.push(event) },
                    Seq::empty(),
                    Decision::Steal,
                ),
                EventType::KeyUp => if s.stolen.len() > 0 && s.stolen.last().keycode == k {
                    (
                        LayerState { pressed: s.pressed, stolen: s.stolen.drop_last() },
                        seq![to_arrow(s.stolen.last())],
                        Decision::Pass(to_arrow(event)),
                    )
                } else {
                    (idle(), s.stolen, Decision::Pass(event))
                },
            }
        } else {
            (
                LayerState { pressed: s.pressed, stolen: Seq::empty() },
                dependents_as_arrows(s.stolen),
                Decision::Pass(to_arrow(event)),
            )
        }
    } else {
        (s, Seq::empty(), Decision::Pass(event))
    }
}

/// A fixed layer: holding J turns E, S, D, F into the arrow keys.
pub struct HardcodedProcessor<P> {
    pub layer_pressed_time: Option<Timestamp>,
    pub stolen_events: Vec<KeyEvent<P>>,
}

impl<P> View for HardcodedProcessor<P> {
    type V = LayerState<P>;

    open spec fn view(&self) -> LayerState<P> {
        LayerState { pressed: self.layer_pressed_time, stolen: self.stolen_events@ }
    }
}

impl<P> HardcodedProcessor<P> {

    /// Takes every held-back event out of the buffer.
    fn take_stolen(&mut self) -> (r: Vec<KeyEvent<P>>)
        ensures
            r@ == old(self).stolen_events@,
            final(self).stolen_events@ == Seq::<KeyEvent<P>>::empty(),
            final(self).layer_pressed_time == old(self).layer_pressed_time,
    {
        let mut taken: Vec<KeyEvent<P>> = Vec::new();
        std::mem::swap(&mut taken, &mut self.stolen_events);
        taken
    }

    /// Posts every held-back event, oldest first, and empties the buffer.
    fn replay_stolen<S: EventStream<KeyEvent<P>>>(&mut self, stream: &mut S)
        ensures
            final(stream).posted() == old(stream).posted() + old(self).stolen_events@,
            final(self).stolen_events@ == Seq::<KeyEvent<P>>::empty(),
            final(self).layer_pressed_time == old(self).layer_pressed_time,
    {
        let mut events = self.take_stolen();
        let ghost all = events@;
        let ghost start = stream.posted();
        let ghost mut n: int = 0;
        while events.len() > 0
            invariant
                0 <= n <= all.len(),
                events@ == all.subrange(n, all.len() as int),
                stream.posted() == start + all.subrange(0, n),
            decreases events.len(),
        {
            assert(events@.len() == all.len() - n);
            let event = events.remove(0);
            stream.post(event);
            proof {
                n = n + 1;
            }
            assert(all.subrange(0, n) == all.subrange(0, n - 1).push(event));
        }
        assert(all.subrange(0, n) == all);
    }

    /// Posts every held-back event above the bottom one, each turned into
    /// its arrow, and empties the buffer; the bottom one is discarded.
    fn replay_stolen_as_arrows<S: EventStream<KeyEvent<P>>>(&mut self, stream: &mut S)
        requires
            layer_well_formed(old(self)@),
        ensures
            final(stream).posted() == old(stream).posted() + dependents_as_arrows(
                old(self).stolen_events@,
            ),
            final(self).stolen_events@ == Seq::<KeyEvent<P>>::empty(),
            final(self).layer_pressed_time == old(self).layer_pressed_time,
    {
        let mut events = self.take_stolen();
        if events.len() == 0 {
            proof {
                assert(old(stream).posted() + Seq::<KeyEvent<P>>::empty() == old(stream).posted());
            }
            return;
        }
        let ghost taken = events@;
        let _bottom = events.remove(0);
        let ghost all = events@;
        let ghost start = stream.posted();
        let ghost arrows = all.map_values(|e: KeyEvent<P>| to_arrow(e));
        assert(forall|i: int| 0 <= i < all.len() ==> is_dependent(#[trigger] all[i].keycode)) by {
            assert forall|i: int| 0 <= i < all.len() implies is_dependent(#[trigger] all[i].keycode) by {
                assert(all[i] == taken[i + 1]);
                assert(is_dependent(old(self)@.stolen[i + 1].keycode));
            }
        }
        let ghost mut n: int = 0;
        while events.len() > 0
            invariant
                0 <= n <= all.len(),
                events@ == all.subrange(n, all.len() as int),
                stream.posted() == start + arrows.subrange(0, n),
                forall|i: int| 0 <= i < all.len() ==> is_dependent(#[trigger] all[i].keycode),
                arrows == all.map_values(|e: KeyEvent<P>| to_arrow(e)),
            decreases events.len(),
        {
            assert(events@.len() == all.len() - n);
            let mut event = events.remove(0);
            assert(event == all[n]);
            let arrow = arrow_for(event.keycode);
            event.set_keycode(arrow);
            stream.post(event);
            proof {
                n = n + 1;
            }
            assert(arrows.subrange(0, n) == arrows.subrange(0, n - 1).push(event));
        }
        assert(arrows.subrange(0, n) == arrows);
        assert(old(self).stolen_events@.drop_first() == all);
    }
}

impl<P> Default for HardcodedProcessor<P> {
    /// An idle layer with nothing held back.
    fn default() -> (r: HardcodedProcessor<P>)
        ensures
            r@ == idle::<P>(),
    {
        HardcodedProcessor { layer_pressed_time: None, stolen_events: Vec::new() }
    }
}

impl<P> EventProcessor<KeyEvent<P>> for HardcodedProcessor<P> {
    type State = LayerState<P>;

    open spec fn state(&self) -> LayerState<P> {
        self@
    }

    open spec fn well_formed(state: LayerState<P>) -> bool {
        layer_well_formed(state)
    }

    open spec fn step(
        state: LayerState<P>,
        timestamp: Timestamp,
        event_type: EventType,
        event: KeyEvent<P>,
    ) -> (LayerState<P>, Seq<KeyEvent<P>>, Decision<KeyEvent<P>>) {
        layer_step(state, timestamp, event_type, event)
    }

    fn process<S: EventStream<KeyEvent<P>>>(
        &mut self,
        timestamp: Timestamp,
        event_type: EventType,
        event: KeyEvent<P>,
        stream: &mut S,
    ) -> (d: Decision<KeyEvent<P>>) {
        let ghost nothing = Seq::<KeyEvent<P>>::empty();
        proof {
            assert(old(stream).posted() + nothing == old(stream).posted());
        }
        let keycode = event.keycode;
        if keycode == TRIGGER {
            match event_type {
                EventType::KeyDown => {
                    if self.layer_pressed_time.is_none() {
                        self.layer_pressed_time = Some(timestamp);
                        self.stolen_events.push(event);
                        Decision::Steal
                    } else {
                        Decision::Pass(event)
                    }
                },
                EventType::KeyUp => {
                    match self.layer_pressed_time {
                        Some(pressed) => {
                            self.layer_pressed_time = None;
                            if elapsed_since(pressed, timestamp) < TAPPING_TERM {
                                self.replay_stolen(stream);
                                Decision::Pass(event)
                            } else {
                                self.stolen_events = Vec::new();
                                Decision::Drop
                            }
                        },
                        None => {
                            self.replay_stolen(stream);
                            Decision::Pass(event)
                        },
                    }
                },
            }
        } else if self.layer_pressed_time.is_some() && is_dependent_key(keycode) {
            let pressed = self.layer_pressed_time.unwrap();
            if elapsed_since(pressed, timestamp) < TAPPING_TERM {
                match event_type {
                    EventType::KeyDown => {
                        self.stolen_events.push(event);
                        Decision::Steal
                    },
                    EventType::KeyUp => {
                        let matches_top = match self.stolen_events.last() {
                            Some(top) => top.keycode == keycode,
                            None => false,
                        };
                        if matches_top {
                            let mut down_event = self.stolen_events.pop().unwrap();
                            let arrow = arrow_for(keycode);
                            down_event.set_keycode(arrow);
                            stream.post(down_event);
                            let mut up_event = event;
                            up_event.set_keycode(arrow);
                            Decision::Pass(up_event)
                        } else {
                            self.layer_pressed_time = None;
                            self.replay_stolen(stream);
                            Decision::Pass(event)
                        }
                    },
                }
            } else {
                self.replay_stolen_as_arrows(stream);
                let mut current = event;
                current.set_keycode(arrow_for(keycode));
                Decision::Pass(current)
            }
        } else {
            Decision::Pass(event)
        }
    }
}

} // verus!
