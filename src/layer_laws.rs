//! What the layer does over whole sequences of events.
use vstd::prelude::*;

use crate::event_stream::{run, Decision, EventType, Input, KeyEvent, Timestamp};
use crate::hardcoded_processor::{
    idle, layer_step, within_term, HardcodedProcessor, LayerState,
};
use crate::keycodes::{arrow_of, is_dependent, TRIGGER};

verus! {

/// The layer processor fed a sequence of events from `state`.
pub open spec fn run_layer<P>(state: LayerState<P>, inputs: Seq<Input<KeyEvent<P>>>) -> (
    LayerState<P>,
    Seq<KeyEvent<P>>,
    Seq<Decision<KeyEvent<P>>>,
) {
    run::<KeyEvent<P>, HardcodedProcessor<P>>(state, inputs)
}

/// The layer pending since `pressed`, holding back `stolen`.
pub open spec fn pending<P>(pressed: Timestamp, stolen: Seq<KeyEvent<P>>) -> LayerState<P> {
    LayerState { pressed: Some(pressed), stolen }
}

/// `n` decisions to hold the event back.
pub open spec fn steals<P>(n: nat) -> Seq<Decision<KeyEvent<P>>> {
    Seq::new(n, |i: int| Decision::Steal)
}

/// The events of a sequence of inputs.
pub open spec fn events_of<P>(inputs: Seq<Input<KeyEvent<P>>>) -> Seq<KeyEvent<P>> {
    inputs.map_values(|x: Input<KeyEvent<P>>| x.2)
}

/// Feeding a single event is one step.
pub proof fn lemma_run_one<P>(state: LayerState<P>, input: Input<KeyEvent<P>>)
    ensures
        run_layer(state, seq![input]) == ({
            let (next, posted, decision) = layer_step(state, input.0, input.1, input.2);
            (next, posted, seq![decision])
        }),
{
    let rest = seq![input].drop_first();
    assert(rest =~= Seq::<Input<KeyEvent<P>>>::empty());
    assert(run_layer(layer_step(state, input.0, input.1, input.2).0, rest).1 =~= Seq::empty());
    let (next, posted, decision) = layer_step(state, input.0, input.1, input.2);
    assert(posted + Seq::<KeyEvent<P>>::empty() =~= posted);
    assert(seq![decision] + Seq::<Decision<KeyEvent<P>>>::empty() =~= seq![decision]);
}

/// Feeding two sequences one after the other is feeding their concatenation.
pub proof fn lemma_run_append<P>(
    state: LayerState<P>,
    first: Seq<Input<KeyEvent<P>>>,
    second: Seq<Input<KeyEvent<P>>>,
)
    ensures
        run_layer(state, first + second) == ({
            let (mid, posted1, decided1) = run_layer(state, first);
            let (last, posted2, decided2) = run_layer(mid, second);
            (last, posted1 + posted2, decided1 + decided2)
        }),
    decreases first.len(),
{
    if first.len() == 0 {
        assert(first + second =~= second);
        let r = run_layer(state, second);
        assert(Seq::<KeyEvent<P>>::empty() + r.1 =~= r.1);
        assert(Seq::<Decision<KeyEvent<P>>>::empty() + r.2 =~= r.2);
    } else {
        let (ts, ty, ev) = first[0];
        let next = layer_step(state, ts, ty, ev).0;
        assert((first + second).drop_first() =~= first.drop_first() + second);
        assert((first + second)[0] == first[0]);
        lemma_run_append(next, first.drop_first(), second);
        let (mid, p1, d1) = run_layer(next, first.drop_first());
        let (last, p2, d2) = run_layer(mid, second);
        let step = layer_step(state, ts, ty, ev);
        assert(step.1 + (p1 + p2) =~= (step.1 + p1) + p2);
        assert(seq![step.2] + (d1 + d2) =~= (seq![step.2] + d1) + d2);
    }
}

/// Dependent keys pressed inside the tapping term are all held back, in order.
pub proof fn lemma_dependent_downs_are_held<P>(
    pressed: Timestamp,
    stolen: Seq<KeyEvent<P>>,
    downs: Seq<Input<KeyEvent<P>>>,
)
    requires
        forall|i: int|
            0 <= i < downs.len() ==> {
                &&& (#[trigger] downs[i]).1 == EventType::KeyDown
                &&& is_dependent(downs[i].2.keycode)
                &&& within_term(pressed, downs[i].0)
            },
    ensures
        run_layer(pending(pressed, stolen), downs) == (
            pending(pressed, stolen + events_of(downs)),
            Seq::<KeyEvent<P>>::empty(),
            steals::<P>(downs.len()),
        ),
    decreases downs.len(),
{
    if downs.len() == 0 {
        assert(stolen + events_of(downs) =~= stolen);
        assert(steals::<P>(0) =~= Seq::empty());
    } else {
        let (ts, ty, ev) = downs[0];
        let rest = downs.drop_first();
        assert forall|i: int| 0 <= i < rest.len() implies {
            &&& (#[trigger] rest[i]).1 == EventType::KeyDown
            &&& is_dependent(rest[i].2.keycode)
            &&& within_term(pressed, rest[i].0)
        } by {
            assert(rest[i] == downs[i + 1]);
        }
        assert(ev.keycode != TRIGGER);
        lemma_dependent_downs_are_held(pressed, stolen.push(ev), rest);
        assert(stolen.push(ev) + events_of(rest) =~= stolen + events_of(downs));
        assert(seq![Decision::<KeyEvent<P>>::Steal] + steals::<P>(rest.len()) =~= steals::<P>(
            downs.len(),
        ));
        assert(Seq::<KeyEvent<P>>::empty() + Seq::<KeyEvent<P>>::empty() =~= Seq::<
            KeyEvent<P>,
        >::empty());
    }
}

/// A tap: the trigger pressed and released inside the tapping term, with
/// dependent keys pressed in between, replays the trigger's key-down and then
/// the dependent key-downs in their order, passes the release, and leaves
/// the layer idle.
pub proof fn lemma_tap_replays_in_order<P>(
    down: Input<KeyEvent<P>>,
    downs: Seq<Input<KeyEvent<P>>>,
    up: Input<KeyEvent<P>>,
)
    requires
        down.1 == EventType::KeyDown,
        down.2.keycode == TRIGGER,
        up.1 == EventType::KeyUp,
        up.2.keycode == TRIGGER,
        within_term(down.0, up.0),
        forall|i: int|
            0 <= i < downs.len() ==> {
                &&& (#[trigger] downs[i]).1 == EventType::KeyDown
                &&& is_dependent(downs[i].2.keycode)
                &&& within_term(down.0, downs[i].0)
            },
    ensures
        run_layer(idle(), seq![down] + downs + seq![up]) == (
            idle::<P>(),
            seq![down.2] + events_of(downs),
            seq![Decision::Steal] + steals::<P>(downs.len()) + seq![Decision::Pass(up.2)],
        ),
{
    let s0 = idle::<P>();
    let s1 = pending(down.0, seq![down.2]);
    lemma_run_one(s0, down);
    assert(Seq::<KeyEvent<P>>::empty().push(down.2) =~= seq![down.2]);
    lemma_dependent_downs_are_held(down.0, seq![down.2], downs);
    let s2 = pending(down.0, seq![down.2] + events_of(downs));
    lemma_run_one(s2, up);
    lemma_run_append(s0, seq![down], downs);
    lemma_run_append(s0, seq![down] + downs, seq![up]);
    assert(Seq::<KeyEvent<P>>::empty() + Seq::<KeyEvent<P>>::empty() + s2.stolen =~= s2.stolen);
}

/// A hold: the trigger pressed and released at least the tapping term apart,
/// with nothing in between, holds back the press and drops the release, so
/// that nothing at all reaches the output.
pub proof fn lemma_hold_alone_emits_nothing<P>(down: Input<KeyEvent<P>>, up: Input<KeyEvent<P>>)
    requires
        down.1 == EventType::KeyDown,
        down.2.keycode == TRIGGER,
        up.1 == EventType::KeyUp,
        up.2.keycode == TRIGGER,
        !within_term(down.0, up.0),
    ensures
        run_layer(idle(), seq![down, up]) == (
            idle::<P>(),
            Seq::<KeyEvent<P>>::empty(),
            seq![Decision::<KeyEvent<P>>::Steal, Decision::Drop],
        ),
{
    let s0 = idle::<P>();
    lemma_run_one(s0, down);
    let s1 = layer_step(s0, down.0, down.1, down.2).0;
    lemma_run_one(s1, up);
    lemma_run_append(s0, seq![down], seq![up]);
    assert(seq![down] + seq![up] =~= seq![down, up]);
    assert(Seq::<KeyEvent<P>>::empty() + Seq::<KeyEvent<P>>::empty() =~= Seq::<
        KeyEvent<P>,
    >::empty());
    assert(seq![Decision::<KeyEvent<P>>::Steal] + seq![Decision::Drop] =~= seq![
        Decision::<KeyEvent<P>>::Steal,
        Decision::Drop,
    ]);
}

/// A dependent key tapped inside the tapping term while the trigger is down
/// comes out as its arrow: its press is posted as the arrow on its release,
/// which passes as the arrow too, and the layer stays pending.
pub proof fn lemma_release_inside_term_remaps<P>(
    trigger: Input<KeyEvent<P>>,
    down: Input<KeyEvent<P>>,
    up: Input<KeyEvent<P>>,
)
    requires
        trigger.1 == EventType::KeyDown,
        trigger.2.keycode == TRIGGER,
        down.1 == EventType::KeyDown,
        is_dependent(down.2.keycode),
        up.1 == EventType::KeyUp,
        up.2.keycode == down.2.keycode,
        within_term(trigger.0, down.0),
        within_term(trigger.0, up.0),
    ensures
        run_layer(idle(), seq![trigger, down, up]) == (
            pending(trigger.0, seq![trigger.2]),
            seq![down.2.with_keycode(arrow_of(down.2.keycode))],
            seq![
                Decision::Steal,
                Decision::Steal,
                Decision::Pass(up.2.with_keycode(arrow_of(down.2.keycode))),
            ],
        ),
{
    let s0 = idle::<P>();
    lemma_run_one(s0, trigger);
    let s1 = layer_step(s0, trigger.0, trigger.1, trigger.2).0;
    lemma_run_one(s1, down);
    let s2 = layer_step(s1, down.0, down.1, down.2).0;
    lemma_run_one(s2, up);
    assert(s2.stolen.drop_last() =~= seq![trigger.2]);
    lemma_run_append(s0, seq![trigger], seq![down]);
    lemma_run_append(s0, seq![trigger] + seq![down], seq![up]);
    assert(seq![trigger] + seq![down] + seq![up] =~= seq![trigger, down, up]);
    let r = run_layer(idle(), seq![trigger, down, up]);
    assert(r.1 =~= seq![down.2.with_keycode(arrow_of(down.2.keycode))]);
    assert(r.2 =~= seq![
        Decision::Steal,
        Decision::Steal,
        Decision::Pass(up.2.with_keycode(arrow_of(down.2.keycode))),
    ]);
}

/// Once the tapping term has passed, a dependent key pressed while the
/// trigger is held passes straight away as its arrow, and nothing is replayed.
pub proof fn lemma_press_after_term_remaps<P>(trigger: Input<KeyEvent<P>>, down: Input<KeyEvent<P>>)
    requires
        trigger.1 == EventType::KeyDown,
        trigger.2.keycode == TRIGGER,
        down.1 == EventType::KeyDown,
        is_dependent(down.2.keycode),
        !within_term(trigger.0, down.0),
    ensures
        run_layer(idle(), seq![trigger, down]) == (
            pending::<P>(trigger.0, Seq::empty()),
            Seq::<KeyEvent<P>>::empty(),
            seq![Decision::Steal, Decision::Pass(down.2.with_keycode(arrow_of(down.2.keycode)))],
        ),
{
    let s0 = idle::<P>();
    lemma_run_one(s0, trigger);
    let s1 = layer_step(s0, trigger.0, trigger.1, trigger.2).0;
    lemma_run_one(s1, down);
    assert(s1.stolen.drop_first() =~= Seq::<KeyEvent<P>>::empty());
    lemma_run_append(s0, seq![trigger], seq![down]);
    assert(seq![trigger] + seq![down] =~= seq![trigger, down]);
    let r = run_layer(idle(), seq![trigger, down]);
    assert(r.1 =~= Seq::<KeyEvent<P>>::empty());
    assert(r.2 =~= seq![Decision::Steal, Decision::Pass(down.2.with_keycode(arrow_of(down.2.keycode)))]);
}

/// A dependent key released inside the tapping term that is not the last
/// one held back cancels the layer: what was held back after the trigger's
/// own press is replayed unchanged, the release passes unchanged, and the
/// layer is idle.
pub proof fn lemma_mismatched_release_cancels<P>(
    trigger: Input<KeyEvent<P>>,
    down: Input<KeyEvent<P>>,
    up: Input<KeyEvent<P>>,
)
    requires
        trigger.1 == EventType::KeyDown,
        trigger.2.keycode == TRIGGER,
        down.1 == EventType::KeyDown,
        is_dependent(down.2.keycode),
        up.1 == EventType::KeyUp,
        is_dependent(up.2.keycode),
        up.2.keycode != down.2.keycode,
        within_term(trigger.0, down.0),
        within_term(trigger.0, up.0),
    ensures
        run_layer(idle(), seq![trigger, down, up]) == (
            idle::<P>(),
            seq![trigger.2, down.2],
            seq![Decision::Steal, Decision::Steal, Decision::Pass(up.2)],
        ),
{
    let s0 = idle::<P>();
    lemma_run_one(s0, trigger);
    let s1 = layer_step(s0, trigger.0, trigger.1, trigger.2).0;
    lemma_run_one(s1, down);
    let s2 = layer_step(s1, down.0, down.1, down.2).0;
    lemma_run_one(s2, up);
    assert(s2.stolen =~= seq![trigger.2, down.2]);
    lemma_run_append(s0, seq![trigger], seq![down]);
    lemma_run_append(s0, seq![trigger] + seq![down], seq![up]);
    assert(seq![trigger] + seq![down] + seq![up] =~= seq![trigger, down, up]);
    let r = run_layer(idle(), seq![trigger, down, up]);
    assert(r.1 =~= seq![trigger.2, down.2]);
    assert(r.2 =~= seq![Decision::Steal, Decision::Steal, Decision::Pass(up.2)]);
}

} // verus!
