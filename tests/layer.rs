use keyboard_layers::event_stream::Timestamp;
use keyboard_layers::hardcoded_processor::TAPPING_TERM;
use keyboard_layers::keycodes::{
    D, DOWN_ARROW, E, F, J, LEFT_ARROW, RIGHT_ARROW, S, UP_ARROW,
};
use keyboard_layers::{Decision, EventProcessor, EventType, HardcodedProcessor, KeyEvent};

const MS: Timestamp = 1_000_000;

type Ev = KeyEvent<u32>;

fn ev(keycode: u16, id: u32) -> Ev {
    KeyEvent::new(keycode, id)
}

fn feed(
    p: &mut HardcodedProcessor<u32>,
    ts: Timestamp,
    ty: EventType,
    e: Ev,
) -> (Vec<Ev>, Decision<Ev>) {
    let mut posted: Vec<Ev> = Vec::new();
    let d = p.process(ts, ty, e, &mut posted);
    (posted, d)
}

#[test]
fn tap_alone_replays_trigger() {
    let mut p = HardcodedProcessor::default();
    let (posted, d) = feed(&mut p, 0, EventType::KeyDown, ev(J, 1));
    assert!(posted.is_empty());
    assert_eq!(d, Decision::Steal);
    let (posted, d) = feed(&mut p, 50 * MS, EventType::KeyUp, ev(J, 2));
    assert_eq!(posted, vec![ev(J, 1)]);
    assert_eq!(d, Decision::Pass(ev(J, 2)));
    assert_eq!(p.layer_pressed_time, None);
    assert!(p.stolen_events.is_empty());
}

#[test]
fn tap_with_dependent_presses_replays_in_order() {
    let mut p = HardcodedProcessor::default();
    assert_eq!(feed(&mut p, 0, EventType::KeyDown, ev(J, 1)).1, Decision::Steal);
    assert_eq!(feed(&mut p, 10 * MS, EventType::KeyDown, ev(S, 2)).1, Decision::Steal);
    assert_eq!(feed(&mut p, 20 * MS, EventType::KeyDown, ev(E, 3)).1, Decision::Steal);
    assert_eq!(feed(&mut p, 30 * MS, EventType::KeyDown, ev(F, 4)).1, Decision::Steal);
    let (posted, d) = feed(&mut p, 150 * MS, EventType::KeyUp, ev(J, 5));
    assert_eq!(posted, vec![ev(J, 1), ev(S, 2), ev(E, 3), ev(F, 4)]);
    assert_eq!(d, Decision::Pass(ev(J, 5)));
    assert_eq!(p.layer_pressed_time, None);
    assert!(p.stolen_events.is_empty());
}

#[test]
fn hold_alone_emits_nothing() {
    let mut p = HardcodedProcessor::default();
    let (posted, d) = feed(&mut p, 1000, EventType::KeyDown, ev(J, 1));
    assert!(posted.is_empty());
    assert_eq!(d, Decision::Steal);
    let (posted, d) = feed(&mut p, 1000 + TAPPING_TERM, EventType::KeyUp, ev(J, 2));
    assert!(posted.is_empty());
    assert_eq!(d, Decision::Drop);
    assert_eq!(p.layer_pressed_time, None);
    assert!(p.stolen_events.is_empty());
}

#[test]
fn tap_just_inside_term() {
    let mut p = HardcodedProcessor::default();
    feed(&mut p, 1000, EventType::KeyDown, ev(J, 1));
    let (posted, d) = feed(&mut p, 1000 + TAPPING_TERM - 1, EventType::KeyUp, ev(J, 2));
    assert_eq!(posted, vec![ev(J, 1)]);
    assert_eq!(d, Decision::Pass(ev(J, 2)));
}

#[test]
fn release_inside_term_remaps_to_arrow() {
    let mut p = HardcodedProcessor::default();
    feed(&mut p, 0, EventType::KeyDown, ev(J, 1));
    assert_eq!(feed(&mut p, 20 * MS, EventType::KeyDown, ev(S, 2)).1, Decision::Steal);
    let (posted, d) = feed(&mut p, 60 * MS, EventType::KeyUp, ev(S, 3));
    assert_eq!(posted, vec![ev(LEFT_ARROW, 2)]);
    assert_eq!(d, Decision::Pass(ev(LEFT_ARROW, 3)));
    assert_eq!(p.layer_pressed_time, Some(0));
    assert_eq!(p.stolen_events, vec![ev(J, 1)]);
}

#[test]
fn press_after_term_remaps_to_arrow() {
    let mut p = HardcodedProcessor::default();
    feed(&mut p, 0, EventType::KeyDown, ev(J, 1));
    let (posted, d) = feed(&mut p, 250 * MS, EventType::KeyDown, ev(D, 2));
    assert!(posted.is_empty());
    assert_eq!(d, Decision::Pass(ev(DOWN_ARROW, 2)));
    let (posted, d) = feed(&mut p, 300 * MS, EventType::KeyUp, ev(D, 3));
    assert!(posted.is_empty());
    assert_eq!(d, Decision::Pass(ev(DOWN_ARROW, 3)));
    let (posted, d) = feed(&mut p, 400 * MS, EventType::KeyUp, ev(J, 4));
    assert!(posted.is_empty());
    assert_eq!(d, Decision::Drop);
}

#[test]
fn held_presses_are_flushed_as_arrows_after_term() {
    let mut p = HardcodedProcessor::default();
    feed(&mut p, 0, EventType::KeyDown, ev(J, 1));
    feed(&mut p, 10 * MS, EventType::KeyDown, ev(E, 2));
    feed(&mut p, 20 * MS, EventType::KeyDown, ev(F, 3));
    let (posted, d) = feed(&mut p, 210 * MS, EventType::KeyUp, ev(E, 4));
    assert_eq!(posted, vec![ev(UP_ARROW, 2), ev(RIGHT_ARROW, 3)]);
    assert_eq!(d, Decision::Pass(ev(UP_ARROW, 4)));
    assert!(p.stolen_events.is_empty());
    assert_eq!(p.layer_pressed_time, Some(0));
}

#[test]
fn mismatched_release_cancels_layer() {
    let mut p = HardcodedProcessor::default();
    feed(&mut p, 0, EventType::KeyDown, ev(J, 1));
    feed(&mut p, 10 * MS, EventType::KeyDown, ev(S, 2));
    let (posted, d) = feed(&mut p, 20 * MS, EventType::KeyUp, ev(F, 3));
    assert_eq!(posted, vec![ev(J, 1), ev(S, 2)]);
    assert_eq!(d, Decision::Pass(ev(F, 3)));
    assert_eq!(p.layer_pressed_time, None);
    assert!(p.stolen_events.is_empty());
    // the trigger's release after a cancellation passes, with nothing left to replay
    let (posted, d) = feed(&mut p, 30 * MS, EventType::KeyUp, ev(J, 4));
    assert!(posted.is_empty());
    assert_eq!(d, Decision::Pass(ev(J, 4)));
}

#[test]
fn release_of_trigger_press_itself_is_mismatch() {
    let mut p = HardcodedProcessor::default();
    feed(&mut p, 0, EventType::KeyDown, ev(J, 1));
    let (posted, d) = feed(&mut p, 10 * MS, EventType::KeyUp, ev(D, 2));
    assert_eq!(posted, vec![ev(J, 1)]);
    assert_eq!(d, Decision::Pass(ev(D, 2)));
    assert_eq!(p.layer_pressed_time, None);
}

#[test]
fn second_trigger_press_passes() {
    let mut p = HardcodedProcessor::default();
    feed(&mut p, 0, EventType::KeyDown, ev(J, 1));
    let (posted, d) = feed(&mut p, 5 * MS, EventType::KeyDown, ev(J, 2));
    assert!(posted.is_empty());
    assert_eq!(d, Decision::Pass(ev(J, 2)));
    assert_eq!(p.layer_pressed_time, Some(0));
    assert_eq!(p.stolen_events, vec![ev(J, 1)]);
}

#[test]
fn other_keys_pass_unchanged() {
    let mut p = HardcodedProcessor::default();
    let (posted, d) = feed(&mut p, 0, EventType::KeyDown, ev(S, 1));
    assert!(posted.is_empty());
    assert_eq!(d, Decision::Pass(ev(S, 1)));
    feed(&mut p, 0, EventType::KeyDown, ev(J, 2));
    let (posted, d) = feed(&mut p, 10 * MS, EventType::KeyDown, ev(0x00, 3));
    assert!(posted.is_empty());
    assert_eq!(d, Decision::Pass(ev(0x00, 3)));
    assert_eq!(p.stolen_events, vec![ev(J, 2)]);
}

#[test]
fn one_decision_per_event_over_a_session() {
    let mut p = HardcodedProcessor::default();
    let inputs: Vec<(Timestamp, EventType, u16)> = vec![
        (0, EventType::KeyDown, J),
        (10 * MS, EventType::KeyDown, S),
        (20 * MS, EventType::KeyUp, S),
        (30 * MS, EventType::KeyDown, D),
        (400 * MS, EventType::KeyUp, D),
        (500 * MS, EventType::KeyUp, J),
        (600 * MS, EventType::KeyDown, F),
        (610 * MS, EventType::KeyUp, F),
    ];
    let mut decisions = Vec::new();
    let mut posted: Vec<Ev> = Vec::new();
    for (i, (ts, ty, k)) in inputs.iter().enumerate() {
        decisions.push(p.process(*ts, *ty, ev(*k, i as u32), &mut posted));
    }
    assert_eq!(decisions.len(), inputs.len());
    assert_eq!(
        decisions,
        vec![
            Decision::Steal,
            Decision::Steal,
            Decision::Pass(ev(LEFT_ARROW, 2)),
            Decision::Steal,
            Decision::Pass(ev(DOWN_ARROW, 4)),
            Decision::Drop,
            Decision::Pass(ev(F, 6)),
            Decision::Pass(ev(F, 7)),
        ]
    );
    assert_eq!(posted, vec![ev(LEFT_ARROW, 1), ev(DOWN_ARROW, 3)]);
}

#[test]
fn two_processors_agree() {
    let inputs: Vec<(Timestamp, EventType, u16)> = vec![
        (0, EventType::KeyDown, J),
        (10 * MS, EventType::KeyDown, S),
        (15 * MS, EventType::KeyDown, D),
        (20 * MS, EventType::KeyUp, S),
        (30 * MS, EventType::KeyUp, J),
        (40 * MS, EventType::KeyDown, J),
        (300 * MS, EventType::KeyDown, E),
        (320 * MS, EventType::KeyUp, E),
    ];
    let mut a = HardcodedProcessor::default();
    let mut b = HardcodedProcessor::default();
    let mut posted_a: Vec<Ev> = Vec::new();
    let mut posted_b: Vec<Ev> = Vec::new();
    let mut decisions_a = Vec::new();
    let mut decisions_b = Vec::new();
    for (i, (ts, ty, k)) in inputs.iter().enumerate() {
        decisions_a.push(a.process(*ts, *ty, ev(*k, i as u32), &mut posted_a));
    }
    for (i, (ts, ty, k)) in inputs.iter().enumerate() {
        decisions_b.push(b.process(*ts, *ty, ev(*k, i as u32), &mut posted_b));
    }
    assert_eq!(decisions_a, decisions_b);
    assert_eq!(posted_a, posted_b);
    assert_eq!(posted_a, vec![ev(J, 0), ev(S, 1), ev(D, 2)]);
}
