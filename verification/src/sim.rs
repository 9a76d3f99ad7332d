//! What a simulation decides from tick to tick: how fast it runs, which input a
//! tick is given, and which of several cameras is the one.

use vstd::prelude::*;

use crate::clock::{advanced, backlog_cap, counts_down, Clock};
use crate::clock_laws::{
    behind, drags, due_at, fits, holds, is_zero, near, negates, no_time_no_ticks, nothing_is_nothing,
    pulls, rounds, second, sim_time_goes_by_at_its_speed,
};
use crate::float::{
    clamped, double_below, double_value, magnitude, rank, same_value, DOUBLE_INFINITY_BITS, F32,
    F64, INFINITY_BITS, ONE_BITS,
};
use crate::input::{at_rest, Input, InputEvent};
use crate::trace::{
    apply, in_tick_order, may_begin, may_go_on, record, replayed, stamped, tick_events, InputTrace,
    Playback,
};

verus! {

/// How fast sim time runs against wall time. The field may hold anything; what
/// counts is what [`SimSpeed::get`] reads of it.
#[derive(Clone, Copy, Debug, PartialEq, Eq, Structural)]
pub struct SimSpeed(pub F32);

/// A speed that can be run at: from frozen to four times real time, and real time
/// for what is no finite number.
pub open spec fn sane_speed(speed: F32) -> F32 {
    if magnitude(speed) < INFINITY_BITS {
        clamped(speed, F32(SimSpeed::MIN_BITS), F32(SimSpeed::MAX_BITS))
    } else {
        F32(ONE_BITS)
    }
}

impl SimSpeed {
    /// Frozen.
    pub const MIN_BITS: u32 = 0;

    /// Four times real time.
    pub const MAX_BITS: u32 = 0x4080_0000;

    /// A speed that can be run at.
    pub fn new(speed: F32) -> (r: SimSpeed)
        ensures
            r == SimSpeed(sane_speed(speed)),
    {
        SimSpeed(SimSpeed::sanitise(speed))
    }

    /// The speed to run at.
    pub fn get(self) -> (r: F32)
        ensures
            r == sane_speed(self.0),
    {
        SimSpeed::sanitise(self.0)
    }

    /// Set a speed that can be run at.
    pub fn set(&mut self, speed: F32)
        ensures
            *final(self) == SimSpeed(sane_speed(speed)),
    {
        self.0 = SimSpeed::sanitise(speed);
    }

    /// Whether time stands still.
    pub fn is_frozen(self) -> (r: bool)
        ensures
            r == same_value(sane_speed(self.0), F32(0)),
    {
        self.get().same(F32(0))
    }

    fn sanitise(speed: F32) -> (r: F32)
        ensures
            r == sane_speed(speed),
    {
        if speed.is_finite() {
            speed.clamp(F32(SimSpeed::MIN_BITS), F32(SimSpeed::MAX_BITS))
        } else {
            F32(ONE_BITS)
        }
    }
}

impl Default for SimSpeed {
    /// Real time.
    fn default() -> (r: SimSpeed)
        ensures
            r == SimSpeed(F32(ONE_BITS)),
    {
        SimSpeed(F32(ONE_BITS))
    }
}

/// A speed that can be run at is left alone, and every speed reads as one.
pub proof fn sane_speeds_stay(speed: F32)
    ensures
        sane_speed(sane_speed(speed)) == sane_speed(speed),
        !crate::float::is_nan(sane_speed(speed)),
        0 <= crate::float::rank(sane_speed(speed)) <= SimSpeed::MAX_BITS,
{
}

/// What a simulation is built with.
pub struct SimConfig {
    /// Seconds in a tick.
    pub tick_dt: F64,
    /// The multiplier on every generator's detail.
    pub quality: F32,
    /// The scene to load at the start, if any.
    pub scene: Option<String>,
}

impl SimConfig {
    pub fn with_tick_dt(self, tick_dt: F64) -> (r: SimConfig)
        ensures
            r == (SimConfig { tick_dt, ..self }),
    {
        SimConfig { tick_dt, quality: self.quality, scene: self.scene }
    }

    pub fn with_quality(self, quality: F32) -> (r: SimConfig)
        ensures
            r == (SimConfig { quality, ..self }),
    {
        SimConfig { tick_dt: self.tick_dt, quality, scene: self.scene }
    }

    pub fn with_scene(self, scene: String) -> (r: SimConfig)
        ensures
            r == (SimConfig { scene: Some(scene), ..self }),
    {
        SimConfig { tick_dt: self.tick_dt, quality: self.quality, scene: Some(scene) }
    }

    pub fn without_scene(self) -> (r: SimConfig)
        ensures
            r == (SimConfig { scene: None, ..self }),
    {
        SimConfig { tick_dt: self.tick_dt, quality: self.quality, scene: None }
    }

    /// Whether the tick is one that time can be cut into: positive and finite.
    pub fn can_tick(&self) -> (r: bool)
        ensures
            r == (0 < self.tick_dt.0 < DOUBLE_INFINITY_BITS),
    {
        0 < self.tick_dt.0 && self.tick_dt.0 < DOUBLE_INFINITY_BITS
    }
}

/// The length of a tick where nobody asks for another, in bits: a sixtieth of a second.
pub const TICK_DT_BITS: u64 = 0x3f91_1111_1111_1111;

/// The part of a simulation that time and input go through: the clock, the input that the
/// last tick saw, what the host has pushed and no tick has seen, the trace that is being
/// recorded, and the one that is being replayed.
pub struct Sim {
    pub clock: Clock,
    /// How many ticks there were.
    pub ticks: u64,
    pub input: Input,
    pub pending: Vec<InputEvent>,
    pub speed: SimSpeed,
    pub recording: Option<InputTrace>,
    pub playback: Option<Playback>,
}

/// Whether `after` is `before` one tick on. The input state begins the tick with what the
/// host pushed; a replay takes that away again, and has the tick see its own.
pub open spec fn ticked<B: Fn(&Input, Vec<InputEvent>) -> Input>(
    begin: B,
    before: Sim,
    after: Sim,
) -> bool {
    &&& after.clock == before.clock
    &&& after.ticks == before.ticks + 1
    &&& after.pending@.len() == 0
    &&& after.speed == before.speed
    &&& match before.playback {
        Some(playback) => after.playback is Some && replayed(
            begin,
            playback@,
            before.ticks,
            after.playback->0@,
            after.input,
        ),
        None => after.playback is None && begin.ensures(
            (&before.input, before.pending),
            after.input,
        ),
    }
    &&& match before.recording {
        Some(trace) => after.recording is Some && after.recording->0.events@ == trace.events@
            + stamped(tick_events(after.input), before.ticks),
        None => after.recording is None,
    }
}

/// Whether `after` is `before` at `elapsed` seconds of wall time, with so many ticks due:
/// the clock has advanced at the simulation's speed, and nothing else has changed.
pub open spec fn went_on<
    W: Fn(F32) -> F64,
    P: Fn(F64, F64) -> F64,
    M: Fn(F64, F64) -> F64,
    T: Fn(F64, F64) -> F64,
    D: Fn(F64, F64) -> F32,
>(
    widen: W,
    plus: P,
    minus: M,
    times: T,
    part: D,
    before: Sim,
    elapsed: F64,
    after: Sim,
    due: int,
) -> bool {
    &&& after == (Sim { clock: after.clock, ..before })
    &&& exists|speed: F64| #[trigger]
        widen.ensures((sane_speed(before.speed.0),), speed) && advanced(
            plus,
            minus,
            times,
            part,
            before.clock,
            elapsed,
            speed,
            after.clock,
            due,
        )
}

impl Sim {
    /// The clock runs, a replayed trace is in tick order, and a recorded one can go on.
    pub open spec fn wf(&self) -> bool {
        &&& self.clock.wf()
        &&& self.playback matches Some(p) ==> in_tick_order(p@.events)
        &&& self.recording matches Some(t) ==> may_go_on(t.events@, self.ticks)
    }

    /// A simulation as configured, with nothing pushed, recorded or replayed, at real
    /// time, on the devices that `devices` lists. None of them is doing anything.
    pub fn from_config(config: &SimConfig, devices: &Input) -> (r: Sim)
        requires
            0 < config.tick_dt.0 < DOUBLE_INFINITY_BITS,
        ensures
            r.wf(),
            r.clock == (Clock {
                tick_dt: config.tick_dt,
                origin: None,
                consumed: F64(0),
                last: F64(0),
                warp: F64(0),
                alpha: F32(0),
            }),
            r.ticks == 0,
            at_rest(*devices, r.input),
            r.pending@.len() == 0,
            r.speed == SimSpeed(F32(ONE_BITS)),
            r.recording is None,
            r.playback is None,
    {
        Sim {
            clock: Clock::new(config.tick_dt),
            ticks: 0,
            input: devices.fresh(),
            pending: Vec::new(),
            speed: SimSpeed::default(),
            recording: None,
            playback: None,
        }
    }

    /// A simulation with sixty ticks to the second.
    pub fn new(devices: &Input) -> (r: Sim)
        ensures
            r.wf(),
            r.clock.tick_dt == F64(TICK_DT_BITS),
            r.clock.origin is None,
            r.clock.alpha == F32(0),
            r.ticks == 0,
            at_rest(*devices, r.input),
            r.pending@.len() == 0,
            r.speed == SimSpeed(F32(ONE_BITS)),
            r.recording is None,
            r.playback is None,
    {
        let config = SimConfig {
            tick_dt: F64(TICK_DT_BITS),
            quality: F32(ONE_BITS),
            scene: None,
        };
        Sim::from_config(&config, devices)
    }

    /// How many ticks there were.
    pub fn tick_count(&self) -> (r: u64)
        ensures
            r == self.ticks,
    {
        self.ticks
    }

    /// The input that the last tick saw.
    pub fn input(&self) -> (r: &Input)
        ensures
            *r == self.input,
    {
        &self.input
    }

    /// How far between two ticks the last frame was drawn.
    pub fn alpha(&self) -> (r: F32)
        ensures
            r == self.clock.alpha,
    {
        self.clock.alpha()
    }

    /// Seconds in a tick.
    pub fn tick_dt(&self) -> (r: F64)
        ensures
            r == self.clock.tick_dt,
    {
        self.clock.tick_dt()
    }

    /// Advance to `elapsed` seconds of wall time at the simulation's speed, and give back
    /// how many ticks come due; the host runs each by [`Sim::tick`]. `widen` gives a single
    /// as a double, and the others are [`Clock::update`]'s.
    pub fn update<
        W: Fn(F32) -> F64,
        P: Fn(F64, F64) -> F64,
        M: Fn(F64, F64) -> F64,
        T: Fn(F64, F64) -> F64,
        D: Fn(F64, F64) -> F32,
    >(&mut self, elapsed: F64, widen: W, plus: P, minus: M, times: T, part: D) -> (due: u64)
        requires
            old(self).wf(),
            forall|a: F32| #[trigger] widen.requires((a,)),
            forall|a: F64, b: F64| #[trigger] plus.requires((a, b)),
            forall|a: F64, b: F64| #[trigger] minus.requires((a, b)),
            forall|a: F64, b: F64| #[trigger] times.requires((a, b)),
            forall|a: F64, b: F64| #[trigger] part.requires((a, b)),
            counts_down(minus, old(self).clock.tick_dt),
        ensures
            final(self).wf(),
            went_on(
                widen,
                plus,
                minus,
                times,
                part,
                *old(self),
                elapsed,
                *final(self),
                due as int,
            ),
    {
        let speed: F64 = widen(self.sim_speed());
        self.clock.update(elapsed, speed, plus, minus, times, part)
    }

    /// Hold an event of the host's for the next tick.
    pub fn push_input(&mut self, event: InputEvent)
        ensures
            final(self).pending@ == old(self).pending@.push(event),
            *final(self) == (Sim { pending: final(self).pending, ..*old(self) }),
    {
        self.pending.push(event);
    }

    /// How many events wait for the next tick.
    pub fn pending_input_len(&self) -> (r: usize)
        ensures
            r == self.pending@.len(),
    {
        self.pending.len()
    }

    /// The speed that sim time runs at.
    pub fn sim_speed(&self) -> (r: F32)
        ensures
            r == sane_speed(self.speed.0),
    {
        self.speed.get()
    }

    /// Set the speed from outside a tick.
    pub fn set_sim_speed(&mut self, speed: F32)
        ensures
            *final(self) == (Sim { speed: SimSpeed(sane_speed(speed)), ..*old(self) }),
    {
        self.speed = SimSpeed::new(speed);
    }

    /// Record every tick's input from now on. A trace that is being recorded goes
    /// on.
    pub fn record_input_trace(&mut self)
        ensures
            match old(self).recording {
                Some(_) => final(self).recording == old(self).recording,
                None => final(self).recording is Some && final(self).recording->0.events@.len()
                    == 0,
            },
            *final(self) == (Sim { recording: final(self).recording, ..*old(self) }),
            old(self).wf() ==> final(self).wf(),
    {
        if self.recording.is_none() {
            self.recording = Some(InputTrace::new());
        }
    }

    /// Replay a trace from now on: every tick's input comes from it and from nothing else.
    pub fn play_input_trace(&mut self, trace: InputTrace)
        requires
            in_tick_order(trace.events@),
        ensures
            final(self).playback is Some,
            final(self).playback->0@.events == trace.events@,
            at_rest(old(self).input, final(self).playback->0@.state),
            *final(self) == (Sim { playback: final(self).playback, ..*old(self) }),
            old(self).wf() ==> final(self).wf(),
    {
        self.playback = Some(Playback::new(trace, &self.input));
    }

    /// The trace recorded so far, where one is.
    pub fn input_trace(&self) -> (r: Option<&InputTrace>)
        ensures
            match r {
                Some(trace) => self.recording == Some(*trace),
                None => self.recording is None,
            },
    {
        match &self.recording {
            Some(trace) => Some(trace),
            None => None,
        }
    }

    /// One tick's input: the state begins the tick with what was pushed, or a replay has
    /// the tick see its own, and the tick is recorded where a trace is. The tick goes by
    /// the number of ticks before it. `begin` is how an input state begins a tick with some
    /// events.
    pub fn tick<B: Fn(&Input, Vec<InputEvent>) -> Input>(&mut self, begin: B)
        requires
            old(self).wf(),
            old(self).ticks < u64::MAX,
            may_begin(begin),
        ensures
            final(self).wf(),
            ticked(begin, *old(self), *final(self)),
    {
        let now: u64 = self.ticks;
        let mut drained: Vec<InputEvent> = Vec::new();
        std::mem::swap(&mut drained, &mut self.pending);
        match &mut self.playback {
            Some(playback) => {
                apply(playback, now, &mut self.input, begin);
            },
            None => {
                self.input = begin(&self.input, drained);
            },
        }
        if let Some(trace) = &mut self.recording {
            record(trace, now, &self.input);
        }
        self.ticks = now + 1;
    }
}

/// Nothing is due of a simulation at its first reading, at one that is not later than the
/// latest, or while it is frozen, unless what is behind is within rounding of a tick; and
/// what is behind stays, up to rounding.
pub proof fn a_sim_at_rest_is_due_nothing<
    W: Fn(F32) -> F64,
    P: Fn(F64, F64) -> F64,
    M: Fn(F64, F64) -> F64,
    T: Fn(F64, F64) -> F64,
    D: Fn(F64, F64) -> F32,
>(
    widen: W,
    plus: P,
    minus: M,
    times: T,
    part: D,
    before: Sim,
    elapsed: F64,
    after: Sim,
    due: int,
    size: int,
    e: int,
)
    requires
        before.wf(),
        holds(before.clock, size),
        fits(elapsed, size),
        0 <= e <= size,
        forall|a: F32, r: F64|
            rank(a) == 0 && #[trigger] widen.ensures((a,), r) ==> is_zero(r),
        forall|speed: F64| #[trigger]
            widen.ensures((sane_speed(before.speed.0),), speed) ==> pulls(minus, speed),
        rounds(plus, minus, 8 * size, e),
        nothing_is_nothing(times),
        negates(minus, times),
        before.clock.origin is None || !double_below(before.clock.last, elapsed) || same_value(
            sane_speed(before.speed.0),
            F32(0),
        ),
        behind(before.clock) + 5 * e < double_value(before.clock.tick_dt),
        went_on(widen, plus, minus, times, part, before, elapsed, after, due),
    ensures
        due == 0,
        near(behind(after.clock), behind(before.clock), 2 * e),
{
    let speed = choose|speed: F64| #[trigger]
        widen.ensures((sane_speed(before.speed.0),), speed) && advanced(
            plus,
            minus,
            times,
            part,
            before.clock,
            elapsed,
            speed,
            after.clock,
            due,
        );
    no_time_no_ticks(
        plus,
        minus,
        times,
        part,
        before.clock,
        elapsed,
        speed,
        after.clock,
        due,
        size,
        e,
    );
}

/// Whether a simulation that was asked to run at `asked` runs at `at`: at what was asked
/// where that is from nothing to four times real time, else at the end that it passed, and
/// at real time where it is no finite number.
pub open spec fn runs_at(asked: F32, at: F32) -> bool {
    &&& asked.0 <= 0x4080_0000 ==> at == asked
    &&& 0x4080_0000 < asked.0 < 0x7f80_0000 ==> at.0 == 0x4080_0000
    &&& 0x8000_0000 < asked.0 < 0xff80_0000 ==> at.0 == 0
    &&& asked.0 == 0x8000_0000 ==> at == asked
    &&& 0x7f80_0000 <= asked.0 < 0x8000_0000 || 0xff80_0000 <= asked.0 ==> at.0 == 0x3f80_0000
}

/// Every speed that is asked for is one of those.
pub proof fn a_sim_runs_at_what_was_asked(asked: F32)
    ensures
        runs_at(asked, sane_speed(asked)),
{
}

/// A simulation's time goes by at its speed: where a reading is later than the latest and
/// what is due is within the cap, what is behind afterwards and the ticks that are due come
/// to what was behind and the wall time gone by times that speed, up to rounding.
pub proof fn a_sim_goes_by_at_its_speed<
    W: Fn(F32) -> F64,
    P: Fn(F64, F64) -> F64,
    M: Fn(F64, F64) -> F64,
    T: Fn(F64, F64) -> F64,
    D: Fn(F64, F64) -> F32,
>(
    widen: W,
    plus: P,
    minus: M,
    times: T,
    part: D,
    before: Sim,
    elapsed: F64,
    after: Sim,
    due: int,
    speed: F64,
    size: int,
    e: int,
)
    requires
        before.wf(),
        before.clock.origin is Some,
        due >= 0,
        holds(before.clock, size),
        fits(elapsed, size),
        double_below(before.clock.last, elapsed),
        forall|at: F32, r: F64| #[trigger]
            widen.ensures((at,), r) && runs_at(before.speed.0, at) ==> r == speed,
        0 <= double_value(speed) <= 4 * second(),
        0 <= 2 * e <= double_value(before.clock.tick_dt),
        rounds(plus, minus, 64 * size, e),
        drags(minus, times, 3 * size, e),
        counts_down(minus, before.clock.tick_dt),
        due_at(before.clock, elapsed, speed) + 8 * e * second() <= double_value(
            backlog_cap(before.clock.tick_dt),
        ) * second(),
        went_on(widen, plus, minus, times, part, before, elapsed, after, due),
    ensures
        near(
            (behind(after.clock) + due * double_value(before.clock.tick_dt)) * second(),
            due_at(before.clock, elapsed, speed),
            (due + 5) * e * second(),
        ),
        after.ticks == before.ticks,
        after.input == before.input,
        after.pending == before.pending,
        after.speed == before.speed,
        after.recording == before.recording,
        after.playback == before.playback,
{
    let at = choose|at: F64| #[trigger]
        widen.ensures((sane_speed(before.speed.0),), at) && advanced(
            plus,
            minus,
            times,
            part,
            before.clock,
            elapsed,
            at,
            after.clock,
            due,
        );
    a_sim_runs_at_what_was_asked(before.speed.0);
    assert(at == speed);
    sim_time_goes_by_at_its_speed(
        plus,
        minus,
        times,
        part,
        before.clock,
        elapsed,
        speed,
        after.clock,
        due,
        size,
        e,
    );
}

/// The least of some numbers.
pub open spec fn is_least(s: Seq<u64>, least: u64) -> bool {
    s.contains(least) && forall|i: int| 0 <= i < s.len() ==> least <= #[trigger] s[i]
}

/// Which of the cameras is the one: the lowest entity, however they come.
pub fn camera_entity(cameras: &Vec<u64>) -> (r: Option<u64>)
    ensures
        match r {
            Some(entity) => is_least(cameras@, entity),
            None => cameras@.len() == 0,
        },
{
    if cameras.len() == 0 {
        return None;
    }
    let mut best: u64 = cameras[0];
    let mut i: usize = 1;
    while i < cameras.len()
        invariant
            1 <= i <= cameras@.len(),
            cameras@.contains(best),
            forall|j: int| 0 <= j < i ==> best <= #[trigger] cameras@[j],
        decreases cameras@.len() - i,
    {
        if cameras[i] < best {
            best = cameras[i];
        }
        i = i + 1;
    }
    Some(best)
}

/// Of several cameras the one with the lowest entity is the one, however they come.
pub proof fn the_lowest_camera_is_the_one(cameras: Seq<u64>, entity: u64, i: int)
    requires
        is_least(cameras, entity),
        0 <= i < cameras.len(),
    ensures
        cameras.contains(entity),
        entity <= cameras[i],
{
}

} // verus!
