use runt_core::clock::{Backlog, Clock, ALPHA_MAX_BITS, MAX_ACCUMULATED_BITS};
use runt_core::float::{F32, F64, Vec2};
use runt_core::input::{Edges, Input, InputEvent, Key, Level};
use runt_core::sim::{camera_entity, Sim, SimConfig, SimSpeed, TICK_DT_BITS};
use runt_core::trace::InputTrace;

fn f(v: f32) -> F32 {
    F32(v.to_bits())
}

fn d(v: f64) -> F64 {
    F64(v.to_bits())
}

/// One call of the host's, at a speed: how many ticks ran.
fn update(clock: &mut Clock, elapsed: f64, speed: f64) -> u64 {
    let v = |x: F64| f64::from_bits(x.0);
    clock.update(
        d(elapsed),
        d(speed),
        |a, b| d(v(a) + v(b)),
        |a, b| d(v(a) - v(b)),
        |a, b| d(v(a) * v(b)),
        |a, b| f((v(a) / v(b)) as f32),
    )
}

#[test]
fn the_first_reading_is_the_origin_and_never_ticks() {
    let mut clock = Clock::new(d(1.0 / 64.0));
    assert_eq!(update(&mut clock, 1000.0, 1.0), 0);
    assert_eq!(clock.origin, Some(d(1000.0)));
    assert_eq!(update(&mut clock, 1000.0 + 1.0 / 64.0, 1.0), 1);
    assert_eq!(update(&mut clock, 1000.0 + 2.5 / 64.0, 1.0), 1);
    assert_eq!(clock.alpha(), f(0.5));
}

#[test]
fn a_clock_that_jumps_back_is_ignored() {
    let mut clock = Clock::new(d(1.0 / 64.0));
    update(&mut clock, 10.0, 1.0);
    update(&mut clock, 10.1, 1.0);
    let reading = clock.read(d(5.0)).expect("finite");
    assert_eq!(reading.since, None);
    assert_eq!(clock.last, d(10.1));
    assert_eq!(update(&mut clock, 9.0, 1.0), 0);
}

#[test]
fn a_clock_that_is_no_number_is_refused() {
    let mut clock = Clock::new(d(1.0 / 64.0));
    update(&mut clock, 1.0, 1.0);
    update(&mut clock, 1.01, 1.0);
    let before = clock;
    assert_eq!(clock.read(d(f64::NAN)), None);
    assert_eq!(clock.read(d(f64::INFINITY)), None);
    assert_eq!(clock.alpha(), f(0.0));
    assert_eq!((clock.origin, clock.last, clock.consumed), (before.origin, before.last, before.consumed));
}

#[test]
fn a_stall_is_dropped_rather_than_caught_up() {
    let mut clock = Clock::new(d(1.0 / 64.0));
    update(&mut clock, 0.0, 1.0);
    assert_eq!(update(&mut clock, 10.0, 1.0), 16);
    assert_eq!(update(&mut clock, 10.0 + 1.0 / 64.0, 1.0), 1);
    assert_eq!(MAX_ACCUMULATED_BITS, 0.25f64.to_bits());
    // A tick longer than the cap still comes.
    let slow = Clock::new(d(2.0));
    assert_eq!(slow.backlog(d(9.0)), Backlog::Over(d(9.0), d(2.0)));
    assert_eq!(slow.backlog(d(1.0)), Backlog::Whole(d(1.0)));
    assert_eq!(slow.backlog(d(-1.0)), Backlog::Whole(d(0.0)));
    assert_eq!(slow.backlog(d(f64::NAN)), Backlog::Whole(d(0.0)));
}

#[test]
fn a_frozen_sim_does_not_tick() {
    let mut clock = Clock::new(d(1.0 / 64.0));
    update(&mut clock, 0.0, 0.0);
    for i in 1..50 {
        assert_eq!(update(&mut clock, i as f64, 0.0), 0);
    }
    assert_eq!(clock.drag(d(f64::INFINITY)), d(0.0));
}

#[test]
fn a_frame_is_drawn_before_the_next_tick() {
    let mut clock = Clock::new(d(1.0));
    clock.show(f(1.0));
    assert_eq!(clock.alpha(), F32(ALPHA_MAX_BITS));
    assert!(f32::from_bits(ALPHA_MAX_BITS) < 1.0);
    assert_eq!(f32::from_bits(ALPHA_MAX_BITS + 1), 1.0);
    clock.show(f(-3.0));
    assert_eq!(clock.alpha(), f(0.0));
    clock.show(f(f32::NAN));
    assert_eq!(clock.alpha(), f(0.0));
    clock.show(f(0.25));
    assert_eq!(clock.alpha(), f(0.25));
}

#[test]
fn a_speed_is_always_one_that_can_be_run_at() {
    assert_eq!(SimSpeed::default().get(), f(1.0));
    assert_eq!(SimSpeed::new(f(0.5)).get(), f(0.5));
    assert_eq!(SimSpeed::new(f(-1.0)).get(), f(0.0));
    assert_eq!(SimSpeed::new(f(100.0)).get(), f(4.0));
    assert_eq!(SimSpeed::new(f(f32::NAN)).get(), f(1.0));
    assert_eq!(SimSpeed(f(9.0)).get(), f(4.0));
    assert!(SimSpeed::new(f(0.0)).is_frozen());
    let mut speed = SimSpeed::default();
    speed.set(f(f32::INFINITY));
    assert!(!speed.is_frozen());
    assert_eq!(speed.get(), f(1.0));
}

#[test]
fn a_config_says_whether_it_can_tick() {
    let config = SimConfig { tick_dt: d(1.0 / 60.0), quality: f(1.0), scene: None };
    assert!(config.can_tick());
    for bad in [0.0, -0.0, -1.0, f64::NAN, f64::INFINITY] {
        let config = SimConfig { tick_dt: d(bad), quality: f(1.0), scene: None };
        assert!(!config.can_tick(), "{bad}");
    }
    let config = config.with_tick_dt(d(0.5)).with_quality(f(2.0)).with_scene("s".to_string());
    assert_eq!((config.tick_dt, config.quality, config.scene.clone()), (d(0.5), f(2.0), Some("s".to_string())));
    assert_eq!(config.without_scene().scene, None);
}

fn devices(keys: &[Key]) -> Input {
    Input {
        keys: keys.iter().map(|k| (*k, Edges { pressed: false, released: false, held: false })).collect(),
        buttons: vec![],
        mouse_delta: Vec2 { x: f(0.0), y: f(0.0) },
        wheel: f(0.0),
        drive: Level { dir: Vec2 { x: f(0.0), y: f(0.0) }, changed: false },
        pad: vec![],
        sticks: vec![],
        triggers: vec![],
        started: vec![],
        live: vec![],
        ended: vec![],
    }
}

/// What keys going down and up make of their state.
fn begin_tick(before: &Input, events: Vec<InputEvent>) -> Input {
    let mut input = before.copy();
    for (key, e) in &mut input.keys {
        let down = events.contains(&InputEvent::KeyDown(*key));
        let up = events.contains(&InputEvent::KeyUp(*key));
        *e = Edges { pressed: down, released: up, held: (e.held || down) && !up };
    }
    input
}

#[test]
fn a_tick_takes_what_was_pushed_and_a_replay_overrules_it() {
    let mut sim = Sim::new(&devices(&[Key::W, Key::A, Key::D]));
    sim.push_input(InputEvent::KeyDown(Key::W));
    assert_eq!(sim.pending_input_len(), 1);
    sim.tick(begin_tick);
    assert!(sim.input().just_pressed(Key::W) && sim.input().held(Key::W));
    assert_eq!((sim.pending_input_len(), sim.tick_count()), (0, 1));

    // The key that is held when the replay begins does not leak into it.
    sim.play_input_trace(InputTrace::from_pairs(vec![(1, InputEvent::KeyDown(Key::A))]));
    sim.push_input(InputEvent::KeyDown(Key::D));
    sim.tick(begin_tick);
    assert!(sim.input().just_pressed(Key::A));
    assert!(!sim.input().held(Key::D) && !sim.input().held(Key::W));
    assert_eq!(sim.pending_input_len(), 0);
    sim.tick(begin_tick);
    assert!(sim.input().held(Key::A) && !sim.input().just_pressed(Key::A));
}

#[test]
fn a_recording_goes_on_when_it_is_asked_for_twice() {
    let mut sim = Sim::new(&devices(&[Key::W, Key::A]));
    assert!(sim.input_trace().is_none());
    sim.push_input(InputEvent::KeyDown(Key::W));
    sim.tick(begin_tick);
    sim.record_input_trace();
    sim.push_input(InputEvent::KeyDown(Key::A));
    sim.tick(begin_tick);
    sim.record_input_trace();
    let trace = sim.input_trace().expect("recording");
    assert_eq!(trace.len(), 1);
    assert_eq!(trace.events_at(1), vec![InputEvent::KeyDown(Key::A)]);
    sim.set_sim_speed(f(-2.0));
    assert_eq!(sim.sim_speed(), f(0.0));
}

/// One call of a simulation's host: how many ticks are due.
fn advance(sim: &mut Sim, elapsed: f64) -> u64 {
    let v = |x: F64| f64::from_bits(x.0);
    sim.update(
        d(elapsed),
        |s| d(f32::from_bits(s.0) as f64),
        |a, b| d(v(a) + v(b)),
        |a, b| d(v(a) - v(b)),
        |a, b| d(v(a) * v(b)),
        |a, b| f((v(a) / v(b)) as f32),
    )
}

#[test]
fn a_simulation_is_due_nothing_where_no_time_goes_by() {
    let config = SimConfig { tick_dt: d(1.0 / 64.0), quality: f(1.0), scene: None };
    let mut sim = Sim::from_config(&config, &devices(&[]));
    assert_eq!((sim.tick_count(), sim.tick_dt(), sim.alpha()), (0, d(1.0 / 64.0), f(0.0)));
    // Not a number, the first reading, and the same reading again.
    assert_eq!(advance(&mut sim, f64::NAN), 0);
    assert_eq!(advance(&mut sim, 3.0), 0);
    assert_eq!(advance(&mut sim, 3.0), 0);
    assert_eq!(advance(&mut sim, 3.0 + 2.5 / 64.0), 2);
    // An earlier one, and the latest again.
    assert_eq!(advance(&mut sim, 1.0), 0);
    assert_eq!(advance(&mut sim, 3.0 + 2.5 / 64.0), 0);
    assert_eq!(sim.alpha(), f(0.5));
    // Frozen, for as long as it takes; what was behind is still there.
    sim.set_sim_speed(f(0.0));
    assert_eq!(advance(&mut sim, 50.0), 0);
    assert_eq!(sim.alpha(), f(0.5));
    sim.set_sim_speed(f(1.0));
    assert_eq!(advance(&mut sim, 50.0 + 0.5 / 64.0), 1);
    // A stall is capped.
    assert_eq!(advance(&mut sim, 100.0), 16);
    assert_eq!(advance(&mut sim, 100.0), 0);
    assert_eq!(TICK_DT_BITS, (1.0f64 / 60.0).to_bits());
}

#[test]
fn the_lowest_camera_is_the_one() {
    assert_eq!(camera_entity(&vec![9, 3, 7]), Some(3));
    assert_eq!(camera_entity(&vec![]), None);
}
