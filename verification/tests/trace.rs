use runt_core::float::{F32, Vec2};
use runt_core::input::{
    Edges, Input, InputEvent, Key, Level, LiveTouch, PadButton, PadStick, PadTrigger, Touch, TouchPhase,
};
use runt_core::sim::Sim;
use runt_core::trace::{apply, record, InputTrace, Playback, TickEvent, TraceError};

fn f(v: f32) -> F32 {
    F32(v.to_bits())
}

fn v2(x: f32, y: f32) -> Vec2 {
    Vec2 { x: f(x), y: f(y) }
}

fn quiet() -> Input {
    Input {
        keys: vec![],
        buttons: vec![],
        mouse_delta: v2(0.0, 0.0),
        wheel: f(0.0),
        drive: Level { dir: v2(0.0, 0.0), changed: false },
        pad: vec![],
        sticks: vec![],
        triggers: vec![],
        started: vec![],
        live: vec![],
        ended: vec![],
    }
}

fn edges(pressed: bool, released: bool, held: bool) -> Edges {
    Edges { pressed, released, held }
}

#[test]
fn events_at_finds_the_ticks_run() {
    let trace = InputTrace::from_pairs(vec![
        (0, InputEvent::KeyDown(Key::W)),
        (4, InputEvent::KeyDown(Key::A)),
        (4, InputEvent::KeyUp(Key::W)),
        (9, InputEvent::KeyUp(Key::A)),
    ]);
    assert_eq!(trace.events_at(4).len(), 2);
    assert_eq!(
        trace.events_at(4).first(),
        Some(&InputEvent::KeyDown(Key::A)),
        "same-tick order is the order it was written in"
    );
    assert_eq!(trace.events_at(5).len(), 0);
    assert_eq!(trace.last_tick(), Some(9));
}

#[test]
fn pairs_are_sorted_by_tick_and_keep_their_order_within_one() {
    let trace = InputTrace::from_pairs(vec![
        (7, InputEvent::KeyDown(Key::D)),
        (2, InputEvent::KeyDown(Key::W)),
        (7, InputEvent::KeyUp(Key::D)),
        (2, InputEvent::KeyUp(Key::W)),
    ]);
    let ticks: Vec<u64> = trace.events.iter().map(|e| e.tick).collect();
    assert_eq!(ticks, [2, 2, 7, 7]);
    assert_eq!(trace.events_at(7), vec![InputEvent::KeyDown(Key::D), InputEvent::KeyUp(Key::D)]);
    assert_eq!(trace.len(), 4);
    assert!(InputTrace::new().is_empty());
    assert_eq!(InputTrace::new().last_tick(), None);
}

#[test]
fn a_recorded_tick_reads_back() {
    let mut trace = InputTrace::new();
    let mut input = quiet();
    input.keys = vec![(Key::W, edges(true, false, true)), (Key::A, edges(true, true, false)), (Key::D, edges(true, true, true))];
    input.mouse_delta = v2(-1.5, 2.0);
    input.wheel = f(0.25);
    record(&mut trace, 3, &input);
    record(&mut trace, 4, &quiet());
    assert_eq!(
        trace.events_at(3),
        vec![
            InputEvent::KeyDown(Key::W),
            // A tap ends up, and a re-press ends down.
            InputEvent::KeyDown(Key::A),
            InputEvent::KeyUp(Key::A),
            InputEvent::KeyUp(Key::D),
            InputEvent::KeyDown(Key::D),
            InputEvent::MouseMove { dx: f(-1.5), dy: f(2.0) },
            InputEvent::Wheel { dy: f(0.25) },
        ]
    );
    assert_eq!(trace.events_at(4), vec![]);
    assert_eq!(trace.last_tick(), Some(3));
}

#[test]
fn fingers_are_recorded_so_that_they_end_where_they_were() {
    let mut trace = InputTrace::new();
    let mut input = quiet();
    let a = Touch { id: 1, pos: v2(10.0, 20.0) };
    let b = Touch { id: 2, pos: v2(30.0, 40.0) };
    input.started = vec![a];
    input.live = vec![LiveTouch { touch: a, moved: false }];
    input.ended = vec![b];
    record(&mut trace, 0, &input);
    let events = trace.events_at(0);
    assert!(events.contains(&InputEvent::Touch { id: 1, phase: TouchPhase::Started, x: f(10.0), y: f(20.0) }));
    assert!(events.contains(&InputEvent::Touch { id: 2, phase: TouchPhase::Ended, x: f(30.0), y: f(40.0) }));
    assert_eq!(input.touch(1), Some(a));
    assert!(input.touch_ended(2) && !input.touch_ended(1));
}

#[test]
fn a_replay_gives_what_was_recorded_and_knows_how_long_it_lasts() {
    let trace = InputTrace::from_pairs(vec![(2, InputEvent::KeyDown(Key::W)), (9, InputEvent::KeyUp(Key::W))]);
    let mut playback = Playback::new(trace, &devices());
    assert_eq!(playback.remaining(0), 9);
    assert_eq!(playback.remaining(9), 0);
    assert_eq!(playback.remaining(50), 0);
    let mut input = quiet();
    apply(&mut playback, 2, &mut input, begin_tick);
    assert!(input.just_pressed(Key::W) && input.held(Key::W));
    apply(&mut playback, 3, &mut input, begin_tick);
    assert!(!input.just_pressed(Key::W) && input.held(Key::W));
    apply(&mut playback, 9, &mut input, begin_tick);
    assert!(!input.held(Key::W));
    assert_eq!(playback.trace.events[0], TickEvent { tick: 2, event: InputEvent::KeyDown(Key::W) });
}

#[test]
fn a_replayed_tick_keeps_nothing_of_the_input_before() {
    let trace = || InputTrace::from_pairs(vec![(0, InputEvent::KeyDown(Key::W))]);
    // The devices are busy when the replay begins, and the host's input is busier still.
    let mut busy = devices();
    busy.keys = vec![(Key::W, edges(false, false, false)), (Key::A, edges(true, false, true))];
    busy.live = vec![LiveTouch { touch: Touch { id: 4, pos: v2(1.0, 1.0) }, moved: true }];
    let mut one = Playback::new(trace(), &busy);
    let mut other = Playback::new(trace(), &devices());
    let mut a = busy.copy();
    let mut b = quiet();
    apply(&mut one, 0, &mut a, begin_tick);
    apply(&mut other, 0, &mut b, begin_tick);
    assert_eq!(a.keys, vec![(Key::W, edges(true, false, true)), (Key::A, edges(false, false, false))]);
    assert_eq!((&a.keys, &a.live, &a.started), (&b.keys, &b.live, &b.started));
    assert!(a.live.is_empty());
}

#[test]
fn a_fresh_state_has_every_device_at_rest() {
    let mut busy = quiet();
    busy.keys = vec![(Key::W, edges(true, true, true))];
    busy.buttons = vec![(2, edges(false, false, true))];
    busy.pad = vec![(PadButton(1), edges(false, false, true))];
    busy.sticks = vec![(PadStick(0), Level { dir: v2(1.0, 0.0), changed: true })];
    busy.triggers = vec![(PadTrigger(0), f(0.5), true)];
    busy.wheel = f(2.0);
    busy.ended = vec![Touch { id: 4, pos: v2(1.0, 1.0) }];
    let fresh = busy.fresh();
    assert_eq!(fresh.keys, vec![(Key::W, edges(false, false, false))]);
    assert_eq!(fresh.buttons, vec![(2, edges(false, false, false))]);
    assert_eq!(fresh.pad, vec![(PadButton(1), edges(false, false, false))]);
    assert_eq!(fresh.sticks, vec![(PadStick(0), Level { dir: v2(0.0, 0.0), changed: false })]);
    assert_eq!(fresh.triggers, vec![(PadTrigger(0), f(0.0), false)]);
    assert_eq!(fresh.wheel, f(0.0));
    assert!(fresh.ended.is_empty());
    let same = busy.copy();
    assert_eq!((same.keys, same.sticks, same.triggers), (busy.keys, busy.sticks, busy.triggers));
    assert_eq!((same.wheel, same.ended), (busy.wheel, busy.ended));
}

#[test]
fn a_trace_error_says_what_it_is_about() {
    assert_eq!(TraceError("cut short".to_string()).message(), "input trace: cut short");
}

#[test]
fn every_device_is_recorded_on_its_own_terms() {
    let mut trace = InputTrace::new();
    let mut input = quiet();
    input.buttons = vec![(0, edges(true, true, true)), (1, edges(false, false, true))];
    input.drive = Level { dir: v2(0.5, 0.0), changed: true };
    input.pad = vec![(PadButton(3), edges(true, true, false)), (PadButton(4), edges(false, true, false))];
    input.sticks = vec![
        (PadStick(0), Level { dir: v2(1.0, 0.0), changed: false }),
        (PadStick(1), Level { dir: v2(0.0, -1.0), changed: true }),
    ];
    input.triggers = vec![(PadTrigger(0), f(0.75), true), (PadTrigger(1), f(0.5), false)];
    record(&mut trace, 8, &input);
    assert_eq!(
        trace.events_at(8),
        vec![
            InputEvent::MouseButton { button: 0, pressed: false },
            InputEvent::MouseButton { button: 0, pressed: true },
            InputEvent::TouchDrive { dir: v2(0.5, 0.0) },
            InputEvent::PadButton { button: PadButton(3), pressed: true },
            InputEvent::PadButton { button: PadButton(3), pressed: false },
            InputEvent::PadButton { button: PadButton(4), pressed: false },
            InputEvent::PadStick { stick: PadStick(1), dir: v2(0.0, -1.0) },
            InputEvent::PadTrigger { trigger: PadTrigger(0), value: f(0.75) },
        ]
    );
}

#[test]
fn a_contact_number_taken_over_leaves_before_it_arrives() {
    let finger = |phase, x, y| InputEvent::Touch { id: 5, phase, x: f(x), y: f(y) };
    let mut trace = InputTrace::new();
    let mut input = quiet();
    input.ended = vec![Touch { id: 5, pos: v2(1.0, 1.0) }];
    input.started = vec![Touch { id: 5, pos: v2(9.0, 9.0) }];
    input.live = vec![LiveTouch { touch: Touch { id: 5, pos: v2(9.5, 9.0) }, moved: true }];
    record(&mut trace, 0, &input);
    assert_eq!(
        trace.events_at(0),
        vec![finger(TouchPhase::Ended, 1.0, 1.0), finger(TouchPhase::Started, 9.0, 9.0), finger(TouchPhase::Moved, 9.5, 9.0)]
    );
    // A tap inside one tick goes out the other way round.
    input.live = vec![];
    input.ended = vec![Touch { id: 5, pos: v2(9.0, 9.0) }];
    record(&mut trace, 1, &input);
    assert_eq!(
        trace.events_at(1),
        vec![finger(TouchPhase::Started, 9.0, 9.0), finger(TouchPhase::Ended, 9.0, 9.0)]
    );
}

/// Two keys, at rest.
fn devices() -> Input {
    Input { keys: vec![(Key::W, edges(false, false, false)), (Key::A, edges(false, false, false))], ..quiet() }
}

/// What events make of the state of keys and fingers.
fn begin_tick(before: &Input, events: Vec<InputEvent>) -> Input {
    let mut input = quiet();
    input.keys = before.keys.iter().map(|(k, e)| (*k, edges(false, false, e.held))).collect();
    input.live = before.live.iter().map(|t| LiveTouch { touch: t.touch, moved: false }).collect();
    for event in events {
        match event {
            InputEvent::KeyDown(key) | InputEvent::KeyUp(key) => {
                let down = matches!(event, InputEvent::KeyDown(_));
                let (_, e) = input.keys.iter_mut().find(|(k, _)| *k == key).expect("a key of the list");
                *e = edges(e.pressed || down, e.released || !down, down);
            }
            InputEvent::Touch { id, phase, x, y } => {
                let touch = Touch { id, pos: Vec2 { x, y } };
                match phase {
                    TouchPhase::Started => {
                        input.live.retain(|t| t.touch.id != id);
                        input.live.push(LiveTouch { touch, moved: false });
                        input.started.push(touch);
                    }
                    TouchPhase::Moved => {
                        for t in input.live.iter_mut().filter(|t| t.touch.id == id) {
                            *t = LiveTouch { touch, moved: true };
                        }
                    }
                    TouchPhase::Ended => {
                        input.live.retain(|t| t.touch.id != id);
                        input.ended.push(touch);
                    }
                }
            }
            _ => panic!("not of this state"),
        }
    }
    input
}

#[test]
fn a_run_that_is_replayed_records_the_same_trace() {
    let finger = |id, phase, x| InputEvent::Touch { id, phase, x: f(x), y: f(0.0) };
    let pushed = [
        vec![InputEvent::KeyDown(Key::W), finger(1, TouchPhase::Started, 1.0), finger(2, TouchPhase::Started, 2.0)],
        vec![finger(2, TouchPhase::Moved, 2.5), finger(1, TouchPhase::Moved, 1.5), InputEvent::KeyUp(Key::W), InputEvent::KeyDown(Key::W)],
        vec![finger(1, TouchPhase::Ended, 1.5), finger(3, TouchPhase::Started, 3.0), finger(1, TouchPhase::Started, 9.0), finger(3, TouchPhase::Ended, 3.0)],
        vec![InputEvent::KeyDown(Key::A), InputEvent::KeyUp(Key::A), finger(1, TouchPhase::Moved, 9.5), finger(2, TouchPhase::Ended, 2.5)],
        vec![],
    ];
    let mut sim = Sim::new(&devices());
    sim.record_input_trace();
    let mut seen = Vec::new();
    for events in &pushed {
        for event in events {
            sim.push_input(*event);
        }
        sim.tick(begin_tick);
        seen.push(sim.input().copy());
    }
    let trace = InputTrace { events: sim.input_trace().expect("recorded").events.clone() };
    let mut replay = Sim::new(&devices());
    replay.record_input_trace();
    replay.play_input_trace(InputTrace { events: trace.events.clone() });
    for (now, input) in seen.iter().enumerate() {
        // What the host does meanwhile makes no difference.
        replay.push_input(InputEvent::KeyDown(Key::A));
        assert_eq!(replay.tick_count(), now as u64);
        replay.tick(begin_tick);
        let replayed = replay.input();
        assert_eq!(replayed.keys, input.keys, "tick {now}");
        assert_eq!(replayed.live, input.live, "tick {now}");
        assert_eq!(replayed.started, input.started, "tick {now}");
    }
    assert_eq!(*replay.input_trace().expect("recorded"), trace);
}
