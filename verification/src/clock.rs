//! The clock of a simulation: how wall time becomes ticks.
//!
//! The host hands in wall time; the engine never reads a clock. It hands in the
//! arithmetic on doubles too. Here stand the decisions between the sums, which
//! readings count, what a backlog may come to, when a tick is due, and how far between
//! two ticks a frame is drawn; and [`Clock::update`], which puts them together.

use vstd::prelude::*;

use crate::float::{
    below, clamped, double_below, double_is_finite, double_rank, is_nan, magnitude, rank,
    DOUBLE_INFINITY_BITS, F32, F64, INFINITY_BITS, ONE_BITS,
};

verus! {

/// The bits of a quarter of a second: the most that a backlog may come to, where a
/// tick is no longer than that.
pub const MAX_ACCUMULATED_BITS: u64 = 0x3fd0_0000_0000_0000;

/// The bits of the largest single below one.
pub const ALPHA_MAX_BITS: u32 = 0x3f7f_ffff;

/// The bits of one, as a double.
pub const DOUBLE_ONE_BITS: u64 = 0x3ff0_0000_0000_0000;

/// A clock.
#[derive(Clone, Copy, Debug, PartialEq, Eq)]
pub struct Clock {
    /// Seconds in a tick.
    pub tick_dt: F64,
    /// The first reading, which all time is measured from.
    pub origin: Option<F64>,
    /// Time that was ticked, or dropped.
    pub consumed: F64,
    /// The latest reading.
    pub last: F64,
    /// How far the speed has dragged sim time from wall time.
    pub warp: F64,
    /// How far the last frame was between two ticks.
    pub alpha: F32,
}

/// A reading that counts.
#[derive(Clone, Copy, Debug, PartialEq, Eq)]
pub struct Reading {
    /// What time is measured from.
    pub origin: F64,
    /// The reading that this one is later than, or nothing where no time has gone by.
    pub since: Option<F64>,
}

/// What a backlog comes to.
#[derive(Clone, Copy, Debug, PartialEq, Eq, Structural)]
pub enum Backlog {
    /// All of it is ticked.
    Whole(F64),
    /// It is over the cap: the cap is ticked, and what is over it is charged without
    /// being ticked.
    Over(F64, F64),
}

/// The later of two readings.
pub open spec fn later(a: F64, b: F64) -> F64 {
    if double_below(a, b) {
        b
    } else {
        a
    }
}

/// The cap on a backlog: a quarter of a second, but never less than a tick.
pub open spec fn backlog_cap(tick_dt: F64) -> F64 {
    later(F64(MAX_ACCUMULATED_BITS), tick_dt)
}

/// A backlog that is no number, or below nothing, is nothing.
pub open spec fn outstanding(sum: F64) -> F64 {
    if !double_is_finite(sum) || double_below(sum, F64(0)) {
        F64(0)
    } else {
        sum
    }
}

/// How far between two ticks a frame is drawn: from zero up to, and without, one.
pub open spec fn between_ticks(raw: F32) -> F32 {
    if magnitude(raw) < INFINITY_BITS {
        clamped(raw, F32(0), F32(ALPHA_MAX_BITS))
    } else {
        F32(0)
    }
}

impl Clock {
    /// The tick is positive and finite, what was read is finite, a frame is drawn
    /// between two ticks, and nothing is ticked or dragged before the first reading.
    pub open spec fn wf(&self) -> bool {
        &&& 0 < self.tick_dt.0 < DOUBLE_INFINITY_BITS
        &&& self.origin is Some ==> double_is_finite(self.origin->0)
        &&& double_is_finite(self.last)
        &&& double_is_finite(self.warp)
        &&& self.origin is None ==> self.consumed == F64(0) && self.warp == F64(0)
        &&& !is_nan(self.alpha)
        &&& 0 <= rank(self.alpha) < ONE_BITS
    }

    /// A clock that nothing was read of yet.
    pub fn new(tick_dt: F64) -> (r: Clock)
        requires
            0 < tick_dt.0 < DOUBLE_INFINITY_BITS,
        ensures
            r.wf(),
            r.tick_dt == tick_dt,
            r.origin is None,
            r.consumed == F64(0),
            r.last == F64(0),
            r.warp == F64(0),
            r.alpha == F32(0),
    {
        Clock {
            tick_dt,
            origin: None,
            consumed: F64(0),
            last: F64(0),
            warp: F64(0),
            alpha: F32(0),
        }
    }

    /// Read the wall clock. A time that is not finite is refused, and the frame is
    /// drawn at the last tick; the first one that counts is the origin, and no time
    /// has gone by at it; and a time that is not later than the latest is none.
    pub fn read(&mut self, elapsed: F64) -> (r: Option<Reading>)
        requires
            old(self).wf(),
        ensures
            final(self).wf(),
            r is Some <==> double_is_finite(elapsed),
            final(self).tick_dt == old(self).tick_dt,
            final(self).consumed == old(self).consumed,
            final(self).warp == old(self).warp,
            match r {
                None => {
                    &&& final(self).alpha == F32(0)
                    &&& final(self).origin == old(self).origin
                    &&& final(self).last == old(self).last
                },
                Some(reading) => {
                    &&& final(self).alpha == old(self).alpha
                    &&& final(self).origin == Some(reading.origin)
                    &&& match old(self).origin {
                        None => reading.origin == elapsed && reading.since is None
                            && final(self).last == elapsed,
                        Some(origin) => {
                            &&& reading.origin == origin
                            &&& reading.since == if double_below(old(self).last, elapsed) {
                                Some(old(self).last)
                            } else {
                                None
                            }
                            &&& final(self).last == later(old(self).last, elapsed)
                        },
                    }
                },
            },
    {
        if !elapsed.is_finite() {
            self.alpha = F32(0);
            return None;
        }
        match self.origin {
            None => {
                self.origin = Some(elapsed);
                self.last = elapsed;
                Some(Reading { origin: elapsed, since: None })
            },
            Some(origin) => {
                if self.last.lt(elapsed) {
                    let since: F64 = self.last;
                    self.last = elapsed;
                    Some(Reading { origin, since: Some(since) })
                } else {
                    Some(Reading { origin, since: None })
                }
            },
        }
    }

    /// Keep how far the speed has dragged time, or nothing where that is no finite
    /// number. Gives back what was kept.
    pub fn drag(&mut self, warp: F64) -> (r: F64)
        requires
            old(self).wf(),
            old(self).origin is Some,
        ensures
            final(self).wf(),
            r == if double_is_finite(warp) {
                warp
            } else {
                F64(0)
            },
            *final(self) == (Clock { warp: r, ..*old(self) }),
    {
        let kept: F64 = if warp.is_finite() {
            warp
        } else {
            F64(0)
        };
        self.warp = kept;
        kept
    }

    /// What is to be ticked of a backlog.
    pub fn backlog(&self, sum: F64) -> (r: Backlog)
        ensures
            r == if double_below(backlog_cap(self.tick_dt), outstanding(sum)) {
                Backlog::Over(outstanding(sum), backlog_cap(self.tick_dt))
            } else {
                Backlog::Whole(outstanding(sum))
            },
    {
        let due: F64 = if !sum.is_finite() || sum.lt(F64(0)) {
            F64(0)
        } else {
            sum
        };
        let least: F64 = F64(MAX_ACCUMULATED_BITS);
        let cap: F64 = if least.lt(self.tick_dt) {
            self.tick_dt
        } else {
            least
        };
        if cap.lt(due) {
            Backlog::Over(due, cap)
        } else {
            Backlog::Whole(due)
        }
    }

    /// Whether there is a tick's worth of time left.
    pub fn is_due(&self, left: F64) -> (r: bool)
        requires
            self.wf(),
            double_is_finite(left),
        ensures
            r == (double_rank(left) >= double_rank(self.tick_dt)),
    {
        !left.lt(self.tick_dt)
    }

    /// Charge time that was ticked, or dropped.
    pub fn charge(&mut self, consumed: F64)
        requires
            old(self).wf(),
            old(self).origin is Some,
        ensures
            final(self).wf(),
            *final(self) == (Clock { consumed, ..*old(self) }),
    {
        self.consumed = consumed;
    }

    /// Note how far between two ticks the frame is drawn.
    pub fn show(&mut self, raw: F32)
        requires
            old(self).wf(),
        ensures
            final(self).wf(),
            *final(self) == (Clock { alpha: between_ticks(raw), ..*old(self) }),
    {
        self.alpha = if raw.is_finite() {
            raw.clamp(F32(0), F32(ALPHA_MAX_BITS))
        } else {
            F32(0)
        };
    }

    /// How far between two ticks the last frame was drawn.
    pub fn alpha(&self) -> (r: F32)
        ensures
            r == self.alpha,
    {
        self.alpha
    }

    /// Seconds in a tick.
    pub fn tick_dt(&self) -> (r: F64)
        ensures
            r == self.tick_dt,
    {
        self.tick_dt
    }
}

/// The sums of one update.
pub struct Sums {
    /// Wall time since the latest reading.
    pub delta: F64,
    /// How much faster than wall time sim time runs.
    pub pull: F64,
    /// How far this update drags sim time from wall time.
    pub dragged: F64,
    /// How far all updates have.
    pub warp: F64,
    /// Wall time since the first reading.
    pub wall: F64,
    /// What is not ticked of it.
    pub unticked: F64,
    /// That, dragged.
    pub sum: F64,
    /// What is over the cap.
    pub over: F64,
    /// What is left of the backlog, before the first tick and after each.
    pub lefts: Seq<F64>,
    /// The time that was ticked or dropped, before the first tick and after each.
    pub consumed: Seq<F64>,
    /// How much of a tick is left.
    pub raw: F32,
}

/// A finite number, or nothing in place of one that is not.
pub open spec fn kept(v: F64) -> F64 {
    if double_is_finite(v) {
        v
    } else {
        F64(0)
    }
}

/// The reading that `elapsed` is later than, where time has gone by.
pub open spec fn since(clock: Clock, elapsed: F64) -> Option<F64> {
    if clock.origin is Some && double_below(clock.last, elapsed) {
        Some(clock.last)
    } else {
        None
    }
}

/// The first reading, which `elapsed` is where there was none.
pub open spec fn origin_at(clock: Clock, elapsed: F64) -> F64 {
    match clock.origin {
        Some(origin) => origin,
        None => elapsed,
    }
}

/// Whether `s` has the sums of an update before its ticks.
pub open spec fn summed<
    P: Fn(F64, F64) -> F64,
    M: Fn(F64, F64) -> F64,
    T: Fn(F64, F64) -> F64,
>(plus: P, minus: M, times: T, clock: Clock, elapsed: F64, speed: F64, s: Sums) -> bool {
    let cap = backlog_cap(clock.tick_dt);
    &&& match since(clock, elapsed) {
        Some(last) => minus.ensures((elapsed, last), s.delta),
        None => s.delta == F64(0),
    }
    &&& minus.ensures((speed, F64(DOUBLE_ONE_BITS)), s.pull)
    &&& times.ensures((s.delta, s.pull), s.dragged)
    &&& plus.ensures((clock.warp, s.dragged), s.warp)
    &&& minus.ensures((elapsed, origin_at(clock, elapsed)), s.wall)
    &&& minus.ensures((s.wall, clock.consumed), s.unticked)
    &&& plus.ensures((s.unticked, kept(s.warp)), s.sum)
    &&& s.lefts.len() > 0
    &&& s.consumed.len() > 0
    &&& if double_below(cap, outstanding(s.sum)) {
        &&& minus.ensures((outstanding(s.sum), cap), s.over)
        &&& plus.ensures((clock.consumed, s.over), s.consumed[0])
        &&& s.lefts[0] == cap
    } else {
        &&& s.consumed[0] == clock.consumed
        &&& s.lefts[0] == outstanding(s.sum)
    }
}

/// Whether `s` has the sums of the ticks: each takes its length off what is left and
/// charges it.
pub open spec fn ticked<P: Fn(F64, F64) -> F64, M: Fn(F64, F64) -> F64>(
    plus: P,
    minus: M,
    tick_dt: F64,
    s: Sums,
    ticks: int,
) -> bool {
    &&& s.lefts.len() == ticks + 1
    &&& s.consumed.len() == ticks + 1
    &&& forall|k: int|
        0 <= k < ticks ==> double_rank(#[trigger] s.lefts[k]) >= double_rank(tick_dt)
            && minus.ensures((s.lefts[k], tick_dt), s.lefts[k + 1]) && plus.ensures(
            (s.consumed[k], tick_dt),
            s.consumed[k + 1],
        )
}

/// What an update leaves.
pub open spec fn updated(clock: Clock, elapsed: F64, s: Sums, ticks: int) -> Clock {
    Clock {
        tick_dt: clock.tick_dt,
        origin: Some(origin_at(clock, elapsed)),
        consumed: s.consumed[ticks],
        last: if clock.origin is Some {
            later(clock.last, elapsed)
        } else {
            elapsed
        },
        warp: kept(s.warp),
        alpha: between_ticks(s.raw),
    }
}

/// Whether an update takes a clock from `before` to `after` with so many ticks. A time
/// that is not finite is refused, and the frame is drawn at the last tick.
pub open spec fn advanced<
    P: Fn(F64, F64) -> F64,
    M: Fn(F64, F64) -> F64,
    T: Fn(F64, F64) -> F64,
    D: Fn(F64, F64) -> F32,
>(
    plus: P,
    minus: M,
    times: T,
    part: D,
    before: Clock,
    elapsed: F64,
    speed: F64,
    after: Clock,
    ticks: int,
) -> bool {
    if double_is_finite(elapsed) {
        exists|s: Sums| #[trigger]
            summed(plus, minus, times, before, elapsed, speed, s) && ticked(
                plus,
                minus,
                before.tick_dt,
                s,
                ticks,
            ) && double_rank(s.lefts[ticks]) < double_rank(before.tick_dt) && part.ensures(
                (s.lefts[ticks], before.tick_dt),
                s.raw,
            ) && after == updated(before, elapsed, s, ticks)
    } else {
        ticks == 0 && after == (Clock { alpha: F32(0), ..before })
    }
}

/// Whether taking a tick off a backlog leaves less of it and no debt. It does not
/// where a tick is lost beside the backlog's own precision.
pub open spec fn counts_down<M: Fn(F64, F64) -> F64>(minus: M, tick_dt: F64) -> bool {
    forall|left: F64, r: F64|
        double_is_finite(left) && double_rank(tick_dt) <= double_rank(left) <= double_rank(
            backlog_cap(tick_dt),
        ) && #[trigger] minus.ensures((left, tick_dt), r) ==> double_is_finite(r) && 0
            <= double_rank(r) < double_rank(left)
}

impl Clock {
    /// Advance to `elapsed` seconds of wall time at `speed`, and give back how many
    /// ticks come due; the host runs them. `plus`, `minus` and `times` compute on
    /// doubles, and `part` gives how much of the second number the first is.
    pub fn update<
        P: Fn(F64, F64) -> F64,
        M: Fn(F64, F64) -> F64,
        T: Fn(F64, F64) -> F64,
        D: Fn(F64, F64) -> F32,
    >(&mut self, elapsed: F64, speed: F64, plus: P, minus: M, times: T, part: D) -> (ticks: u64)
        requires
            old(self).wf(),
            forall|a: F64, b: F64| #[trigger] plus.requires((a, b)),
            forall|a: F64, b: F64| #[trigger] minus.requires((a, b)),
            forall|a: F64, b: F64| #[trigger] times.requires((a, b)),
            forall|a: F64, b: F64| #[trigger] part.requires((a, b)),
            counts_down(minus, old(self).tick_dt),
        ensures
            final(self).wf(),
            advanced(
                plus,
                minus,
                times,
                part,
                *old(self),
                elapsed,
                speed,
                *final(self),
                ticks as int,
            ),
    {
        let ghost before = *self;
        let tick_dt: F64 = self.tick_dt;
        let reading: Reading = match self.read(elapsed) {
            Some(reading) => reading,
            None => {
                return 0;
            },
        };
        let delta: F64 = match reading.since {
            Some(last) => minus(elapsed, last),
            None => F64(0),
        };
        let pull: F64 = minus(speed, F64(DOUBLE_ONE_BITS));
        let dragged: F64 = times(delta, pull);
        let warp: F64 = plus(self.warp, dragged);
        let warped: F64 = self.drag(warp);
        let wall: F64 = minus(elapsed, reading.origin);
        let unticked: F64 = minus(wall, self.consumed);
        let sum: F64 = plus(unticked, warped);
        let mut over: F64 = F64(0);
        let mut left: F64 = F64(0);
        match self.backlog(sum) {
            Backlog::Whole(all) => {
                left = all;
            },
            Backlog::Over(all, cap) => {
                over = minus(all, cap);
                let charged: F64 = plus(self.consumed, over);
                self.charge(charged);
                left = cap;
            },
        }
        proof {
            backlogs_are_capped(tick_dt, sum);
        }
        let ghost start = *self;
        let ghost mut lefts: Seq<F64> = seq![left];
        let ghost mut consumed: Seq<F64> = seq![self.consumed];
        let ghost first_left = left;
        let ghost top = double_rank(left);
        let mut ticks: u64 = 0;
        while self.is_due(left)
            invariant
                self.wf(),
                tick_dt == before.tick_dt,
                *self == (Clock { consumed: self.consumed, ..start }),
                start.tick_dt == tick_dt,
                start.origin is Some,
                double_is_finite(left),
                0 <= double_rank(left) <= double_rank(backlog_cap(tick_dt)),
                counts_down(minus, tick_dt),
                forall|a: F64, b: F64| #[trigger] plus.requires((a, b)),
                forall|a: F64, b: F64| #[trigger] minus.requires((a, b)),
                lefts.len() == ticks + 1,
                consumed.len() == ticks + 1,
                lefts[ticks as int] == left,
                consumed[ticks as int] == self.consumed,
                lefts[0] == first_left,
                consumed[0] == start.consumed,
                forall|k: int|
                    0 <= k < ticks ==> double_rank(#[trigger] lefts[k]) >= double_rank(tick_dt)
                        && minus.ensures((lefts[k], tick_dt), lefts[k + 1]) && plus.ensures(
                        (consumed[k], tick_dt),
                        consumed[k + 1],
                    ),
                ticks + double_rank(left) <= top < u64::MAX,
            decreases double_rank(left),
        {
            let less: F64 = minus(left, tick_dt);
            let charged: F64 = plus(self.consumed, tick_dt);
            self.charge(charged);
            left = less;
            proof {
                lefts = lefts.push(left);
                consumed = consumed.push(charged);
            }
            ticks = ticks + 1;
        }
        let raw: F32 = part(left, tick_dt);
        self.show(raw);
        proof {
            let s = Sums {
                delta,
                pull,
                dragged,
                warp,
                wall,
                unticked,
                sum,
                over,
                lefts,
                consumed,
                raw,
            };
            assert(summed(plus, minus, times, before, elapsed, speed, s));
        }
        ticks
    }
}

/// A frame is always drawn at or after a tick and before the next, whatever was
/// computed.
pub proof fn frames_are_between_ticks(raw: F32)
    ensures
        !is_nan(between_ticks(raw)),
        !below(between_ticks(raw), F32(0)),
        below(between_ticks(raw), F32(ONE_BITS)),
{
}

/// Every backlog that is ticked is at most the cap, whatever was computed; and the
/// cap leaves room for a tick, so that no tick is too long to come.
pub proof fn backlogs_are_capped(tick_dt: F64, sum: F64)
    requires
        0 < tick_dt.0 < DOUBLE_INFINITY_BITS,
    ensures
        double_rank(tick_dt) <= double_rank(backlog_cap(tick_dt)),
        double_is_finite(outstanding(sum)),
        0 <= double_rank(outstanding(sum)),
        !double_below(backlog_cap(tick_dt), outstanding(sum)) ==> double_rank(outstanding(sum))
            <= double_rank(backlog_cap(tick_dt)),
{
}

/// The latest reading never goes back, however the wall clock jumps.
pub proof fn time_does_not_go_back(last: F64, elapsed: F64)
    requires
        double_is_finite(last),
        double_is_finite(elapsed),
    ensures
        double_rank(last) <= double_rank(later(last, elapsed)),
        double_rank(elapsed) <= double_rank(later(last, elapsed)),
        later(last, elapsed) == last || later(last, elapsed) == elapsed,
{
}

} // verus!
