//! What a clock promises of every call: when no tick comes, how many may, and what is
//! left of a backlog behind them.
//!
//! The arithmetic on doubles is the host's, so the laws ask of it what IEEE-754 has it
//! do. Three of them hold to the bit, from identities and from order. The others add up
//! time, which doubles round: they are stated of the numbers as they are, up to a
//! rounding error of `e` in each sum, and with an `e` of zero they are exact.

use vstd::prelude::*;
use crate::clock::{
    Clock, DOUBLE_ONE_BITS, Sums, advanced, backlog_cap, backlogs_are_capped, between_ticks,
    counts_down, kept, outstanding, summed, ticked, updated,
};
use crate::float::{
    DOUBLE_INFINITY_BITS, F32, F64, double_below, double_is_finite, double_magnitude, double_rank,
    double_value, double_values_keep_order,
};

verus! {

/// Neither of the zeros is above or below nothing.
pub open spec fn is_zero(f: F64) -> bool {
    double_rank(f) == 0
}

/// A number or an infinity.
pub open spec fn is_ordered(f: F64) -> bool {
    double_magnitude(f) <= DOUBLE_INFINITY_BITS
}

/// Whether a speed less one is a finite number, as it is of every speed that can be run
/// at.
pub open spec fn pulls<M: Fn(F64, F64) -> F64>(minus: M, speed: F64) -> bool {
    forall|pull: F64| #[trigger]
        minus.ensures((speed, F64(DOUBLE_ONE_BITS)), pull) ==> double_is_finite(pull)
}

/// Nothing times a number is nothing.
pub open spec fn nothing_is_nothing<T: Fn(F64, F64) -> F64>(times: T) -> bool {
    forall|pull: F64, r: F64|
        double_is_finite(pull) && #[trigger] times.ensures((F64(0), pull), r) ==> is_zero(r)
}

/// A number less itself is nothing, and so is what nothing and nothing come to.
pub open spec fn cancels<P: Fn(F64, F64) -> F64, M: Fn(F64, F64) -> F64>(
    plus: P,
    minus: M,
) -> bool {
    &&& forall|x: F64, r: F64|
        double_is_finite(x) && #[trigger] minus.ensures((x, x), r) ==> is_zero(r)
    &&& forall|x: F64, y: F64, r: F64|
        is_zero(x) && is_zero(y) && #[trigger] minus.ensures((x, y), r) ==> is_zero(r)
    &&& forall|x: F64, y: F64, r: F64|
        is_zero(x) && is_zero(y) && #[trigger] plus.ensures((x, y), r) ==> is_zero(r)
}

/// A larger number plus a larger one is no smaller, nor is a larger one less a smaller
/// one; and a number plus nothing is that number.
pub open spec fn keeps_order<P: Fn(F64, F64) -> F64, M: Fn(F64, F64) -> F64>(
    plus: P,
    minus: M,
) -> bool {
    &&& forall|a: F64, b: F64, c: F64, d: F64, r: F64, s: F64|
        #![trigger plus.ensures((a, b), r), plus.ensures((c, d), s)]
        is_ordered(a) && double_is_finite(b) && is_ordered(c) && double_is_finite(d)
            && double_rank(a) <= double_rank(c) && double_rank(b) <= double_rank(d)
            && plus.ensures((a, b), r) && plus.ensures((c, d), s) ==> is_ordered(r) && is_ordered(
            s,
        ) && double_rank(r) <= double_rank(s)
    &&& forall|a: F64, b: F64, c: F64, d: F64, r: F64, s: F64|
        #![trigger minus.ensures((a, b), r), minus.ensures((c, d), s)]
        is_ordered(a) && double_is_finite(b) && is_ordered(c) && double_is_finite(d)
            && double_rank(a) <= double_rank(c) && double_rank(d) <= double_rank(b)
            && minus.ensures((a, b), r) && minus.ensures((c, d), s) ==> is_ordered(r)
            && is_ordered(s) && double_rank(r) <= double_rank(s)
    &&& forall|x: F64, z: F64, r: F64|
        double_is_finite(x) && is_zero(z) && #[trigger] plus.ensures((x, z), r)
            ==> double_is_finite(r) && double_rank(r) == double_rank(x)
}

/// A time that is no finite number ticks nothing and is not remembered.
pub proof fn a_reading_that_is_no_number_ticks_nothing<
    P: Fn(F64, F64) -> F64,
    M: Fn(F64, F64) -> F64,
    T: Fn(F64, F64) -> F64,
    D: Fn(F64, F64) -> F32,
>(
    plus: P,
    minus: M,
    times: T,
    part: D,
    before: Clock,
    elapsed: F64,
    speed: F64,
    after: Clock,
    ticks: int,
)
    requires
        before.wf(),
        !double_is_finite(elapsed),
        advanced(plus, minus, times, part, before, elapsed, speed, after, ticks),
    ensures
        ticks == 0,
        after.origin == before.origin,
        after.last == before.last,
        after.consumed == before.consumed,
        after.warp == before.warp,
{
}

/// The first finite reading ticks nothing, to the bit and at any speed.
pub proof fn the_first_reading_ticks_nothing<
    P: Fn(F64, F64) -> F64,
    M: Fn(F64, F64) -> F64,
    T: Fn(F64, F64) -> F64,
    D: Fn(F64, F64) -> F32,
>(
    plus: P,
    minus: M,
    times: T,
    part: D,
    before: Clock,
    elapsed: F64,
    speed: F64,
    after: Clock,
    ticks: int,
)
    requires
        before.wf(),
        before.origin is None,
        double_is_finite(elapsed),
        pulls(minus, speed),
        nothing_is_nothing(times),
        cancels(plus, minus),
        advanced(plus, minus, times, part, before, elapsed, speed, after, ticks),
    ensures
        ticks == 0,
        after.consumed == F64(0),
{
    let s = choose|s: Sums| #[trigger]
        summed(plus, minus, times, before, elapsed, speed, s) && ticked(
            plus,
            minus,
            before.tick_dt,
            s,
            ticks,
        ) && double_rank(s.lefts[ticks]) < double_rank(before.tick_dt) && part.ensures(
            (s.lefts[ticks], before.tick_dt),
            s.raw,
        ) && after == updated(before, elapsed, s, ticks);
    assert(minus.ensures((speed, F64(DOUBLE_ONE_BITS)), s.pull));
    assert(is_zero(s.dragged));
    assert(is_zero(s.warp));
    assert(is_zero(s.wall));
    assert(is_zero(s.unticked));
    assert(is_zero(s.sum));
    if ticks > 0 {
        assert(double_rank(s.lefts[0]) >= double_rank(before.tick_dt));
    }
}

/// A reading that is not later than the latest ticks nothing, to the bit and at any
/// speed, where reading the latest again would not: `wall`, `unticked` and `sum` are what
/// that comes to. Only where a call's own ticks were rounded can it come to one.
pub proof fn a_late_reading_ticks_nothing<
    P: Fn(F64, F64) -> F64,
    M: Fn(F64, F64) -> F64,
    T: Fn(F64, F64) -> F64,
    D: Fn(F64, F64) -> F32,
>(
    plus: P,
    minus: M,
    times: T,
    part: D,
    before: Clock,
    elapsed: F64,
    speed: F64,
    after: Clock,
    ticks: int,
    wall: F64,
    unticked: F64,
    sum: F64,
)
    requires
        before.wf(),
        before.origin is Some,
        double_is_finite(elapsed),
        double_is_finite(before.consumed),
        !double_below(before.last, elapsed),
        minus.ensures((before.last, before.origin->0), wall),
        minus.ensures((wall, before.consumed), unticked),
        plus.ensures((unticked, before.warp), sum),
        double_rank(sum) < double_rank(before.tick_dt),
        pulls(minus, speed),
        nothing_is_nothing(times),
        keeps_order(plus, minus),
        advanced(plus, minus, times, part, before, elapsed, speed, after, ticks),
    ensures
        ticks == 0,
        after.consumed == before.consumed,
        after.last == before.last,
{
    let s = choose|s: Sums| #[trigger]
        summed(plus, minus, times, before, elapsed, speed, s) && ticked(
            plus,
            minus,
            before.tick_dt,
            s,
            ticks,
        ) && double_rank(s.lefts[ticks]) < double_rank(before.tick_dt) && part.ensures(
            (s.lefts[ticks], before.tick_dt),
            s.raw,
        ) && after == updated(before, elapsed, s, ticks);
    assert(minus.ensures((speed, F64(DOUBLE_ONE_BITS)), s.pull));
    assert(is_zero(s.dragged));
    assert(plus.ensures((before.warp, s.dragged), s.warp));
    assert(kept(s.warp) == s.warp);
    assert(minus.ensures((elapsed, before.origin->0), s.wall));
    assert(double_rank(s.wall) <= double_rank(wall));
    assert(minus.ensures((s.wall, before.consumed), s.unticked));
    assert(double_rank(s.unticked) <= double_rank(unticked));
    assert(plus.ensures((s.unticked, s.warp), s.sum));
    assert(double_rank(s.sum) <= double_rank(sum));
    if ticks > 0 {
        assert(double_rank(s.lefts[0]) >= double_rank(before.tick_dt));
    }
}

// ---------------------------------------------------------------------------
// Up to rounding
// ---------------------------------------------------------------------------

/// A finite number of at most this size.
pub open spec fn fits(f: F64, size: int) -> bool {
    double_is_finite(f) && -size <= double_value(f) <= size
}

/// Two numbers that are at most `e` apart.
pub open spec fn near(a: int, b: int, e: int) -> bool {
    -e <= a - b <= e
}

/// Sums and differences of numbers of at most this size are finite, and at most `e` off.
pub open spec fn rounds<P: Fn(F64, F64) -> F64, M: Fn(F64, F64) -> F64>(
    plus: P,
    minus: M,
    size: int,
    e: int,
) -> bool {
    &&& forall|a: F64, b: F64, r: F64|
        fits(a, size) && fits(b, size) && #[trigger] plus.ensures((a, b), r) ==> double_is_finite(
            r,
        ) && near(double_value(r), double_value(a) + double_value(b), e)
    &&& forall|a: F64, b: F64, r: F64|
        fits(a, size) && fits(b, size) && #[trigger] minus.ensures((a, b), r) ==> double_is_finite(
            r,
        ) && near(double_value(r), double_value(a) - double_value(b), e)
}

/// What is a number times nothing less one is that number below nothing.
pub open spec fn negates<M: Fn(F64, F64) -> F64, T: Fn(F64, F64) -> F64>(
    minus: M,
    times: T,
) -> bool {
    forall|speed: F64, pull: F64, d: F64, r: F64|
        #![trigger minus.ensures((speed, F64(DOUBLE_ONE_BITS)), pull), times.ensures((d, pull), r)]
        is_zero(speed) && double_is_finite(d) && minus.ensures(
            (speed, F64(DOUBLE_ONE_BITS)),
            pull,
        ) && times.ensures((d, pull), r) ==> double_is_finite(r) && double_value(r)
            == -double_value(d)
}

/// Sim time that has gone by at the latest reading and is not ticked.
pub open spec fn behind(clock: Clock) -> int {
    match clock.origin {
        Some(origin) => double_value(clock.last) - double_value(origin) - double_value(
            clock.consumed,
        ) + double_value(clock.warp),
        None => 0,
    }
}

/// What a clock holds is of at most this size, and so is the cap on a backlog.
pub open spec fn holds(clock: Clock, size: int) -> bool {
    &&& clock.origin is Some ==> fits(clock.origin->0, size)
    &&& fits(clock.last, size)
    &&& fits(clock.consumed, size)
    &&& fits(clock.warp, size)
    &&& fits(backlog_cap(clock.tick_dt), size)
}

/// Whether no sim time goes by: at the first reading, at one that is not later than the
/// latest, and at speed zero.
pub open spec fn stands_still(clock: Clock, elapsed: F64, speed: F64) -> bool {
    clock.origin is None || !double_below(clock.last, elapsed) || is_zero(speed)
}

/// Where no sim time goes by no tick comes, unless what is behind is within rounding of
/// one; and what is behind stays, up to rounding.
pub proof fn no_time_no_ticks<
    P: Fn(F64, F64) -> F64,
    M: Fn(F64, F64) -> F64,
    T: Fn(F64, F64) -> F64,
    D: Fn(F64, F64) -> F32,
>(
    plus: P,
    minus: M,
    times: T,
    part: D,
    before: Clock,
    elapsed: F64,
    speed: F64,
    after: Clock,
    ticks: int,
    size: int,
    e: int,
)
    requires
        before.wf(),
        holds(before, size),
        fits(elapsed, size),
        0 <= e <= size,
        rounds(plus, minus, 8 * size, e),
        pulls(minus, speed),
        nothing_is_nothing(times),
        negates(minus, times),
        stands_still(before, elapsed, speed),
        behind(before) + 5 * e < double_value(before.tick_dt),
        advanced(plus, minus, times, part, before, elapsed, speed, after, ticks),
    ensures
        ticks == 0,
        after.consumed == before.consumed,
        near(behind(after), behind(before), 2 * e),
{
    let s = choose|s: Sums| #[trigger]
        summed(plus, minus, times, before, elapsed, speed, s) && ticked(
            plus,
            minus,
            before.tick_dt,
            s,
            ticks,
        ) && double_rank(s.lefts[ticks]) < double_rank(before.tick_dt) && part.ensures(
            (s.lefts[ticks], before.tick_dt),
            s.raw,
        ) && after == updated(before, elapsed, s, ticks);
    let dt = before.tick_dt;
    let origin = match before.origin {
        Some(o) => o,
        None => elapsed,
    };
    double_values_keep_order(F64(0), dt);
    assert(minus.ensures((speed, F64(DOUBLE_ONE_BITS)), s.pull));
    assert(times.ensures((s.delta, s.pull), s.dragged));
    double_values_keep_order(s.dragged, F64(0));
    assert(minus.ensures((elapsed, origin), s.wall));
    assert(fits(s.wall, 3 * size));
    assert(minus.ensures((s.wall, before.consumed), s.unticked));
    assert(fits(s.unticked, 5 * size));
    double_values_keep_order(before.last, elapsed);
    let goes = before.origin is Some && double_below(before.last, elapsed);
    if goes {
        assert(minus.ensures((elapsed, before.last), s.delta));
        assert(fits(s.delta, 3 * size));
        assert(double_value(s.dragged) == -double_value(s.delta));
    } else {
        assert(s.delta == F64(0));
        assert(is_zero(s.dragged));
        assert(double_value(s.dragged) == 0);
    }
    assert(fits(s.dragged, 3 * size));
    assert(plus.ensures((before.warp, s.dragged), s.warp));
    assert(kept(s.warp) == s.warp);
    assert(fits(s.warp, 5 * size));
    assert(plus.ensures((s.unticked, s.warp), s.sum));
    assert(double_value(s.sum) <= behind(before) + 5 * e);
    double_values_keep_order(s.sum, dt);
    assert(double_rank(s.sum) < double_rank(dt));
    assert(double_rank(outstanding(s.sum)) < double_rank(dt));
    assert(!double_below(backlog_cap(dt), outstanding(s.sum)));
    if ticks > 0 {
        assert(double_rank(s.lefts[0]) >= double_rank(dt));
    }
    assert(after.last == if goes || before.origin is None {
        elapsed
    } else {
        before.last
    });
}

/// What is left behind `k` ticks, and what they charged, up to rounding.
proof fn ticks_add_up<P: Fn(F64, F64) -> F64, M: Fn(F64, F64) -> F64>(
    plus: P,
    minus: M,
    tick_dt: F64,
    s: Sums,
    ticks: int,
    size: int,
    e: int,
    k: int,
)
    requires
        0 < tick_dt.0 < DOUBLE_INFINITY_BITS,
        0 <= k <= ticks,
        0 <= e,
        ticked(plus, minus, tick_dt, s, ticks),
        counts_down(minus, tick_dt),
        double_is_finite(s.lefts[0]),
        0 <= double_rank(s.lefts[0]) <= double_rank(backlog_cap(tick_dt)),
        fits(backlog_cap(tick_dt), size),
        rounds(plus, minus, size, e),
    ensures
        double_is_finite(s.lefts[k]),
        0 <= double_rank(s.lefts[k]) <= double_rank(backlog_cap(tick_dt)),
        near(
            double_value(s.lefts[k]),
            double_value(s.lefts[0]) - k * double_value(tick_dt),
            k * e,
        ),
    decreases k,
{
    let dt = double_value(tick_dt);
    double_values_keep_order(F64(0), tick_dt);
    if k > 0 {
        let j = k - 1;
        ticks_add_up(plus, minus, tick_dt, s, ticks, size, e, j);
        let left = s.lefts[j];
        assert(double_rank(left) >= double_rank(tick_dt));
        assert(minus.ensures((left, tick_dt), s.lefts[j + 1]));
        let cap = backlog_cap(tick_dt);
        double_values_keep_order(cap, left);
        double_values_keep_order(cap, tick_dt);
        double_values_keep_order(F64(0), left);
        assert(fits(left, size));
        assert(fits(tick_dt, size));
        assert(k * dt == j * dt + dt && k * e == j * e + e) by (nonlinear_arith)
            requires
                k == j + 1,
        ;
    } else {
        assert(0 * dt == 0 && 0 * e == 0);
    }
}

/// A call ticks no more than the cap on a backlog holds, up to the rounding of each tick.
pub proof fn a_call_ticks_no_more_than_the_cap<
    P: Fn(F64, F64) -> F64,
    M: Fn(F64, F64) -> F64,
    T: Fn(F64, F64) -> F64,
    D: Fn(F64, F64) -> F32,
>(
    plus: P,
    minus: M,
    times: T,
    part: D,
    before: Clock,
    elapsed: F64,
    speed: F64,
    after: Clock,
    ticks: int,
    size: int,
    e: int,
)
    requires
        before.wf(),
        ticks >= 0,
        0 <= e,
        fits(backlog_cap(before.tick_dt), size),
        rounds(plus, minus, size, e),
        counts_down(minus, before.tick_dt),
        advanced(plus, minus, times, part, before, elapsed, speed, after, ticks),
    ensures
        ticks * double_value(before.tick_dt) <= double_value(backlog_cap(before.tick_dt)) + ticks
            * e,
{
    let dt = before.tick_dt;
    let cap = backlog_cap(dt);
    double_values_keep_order(F64(0), cap);
    if double_is_finite(elapsed) {
        let s = choose|s: Sums| #[trigger]
            summed(plus, minus, times, before, elapsed, speed, s) && ticked(
                plus,
                minus,
                before.tick_dt,
                s,
                ticks,
            ) && double_rank(s.lefts[ticks]) < double_rank(before.tick_dt) && part.ensures(
                (s.lefts[ticks], before.tick_dt),
                s.raw,
            ) && after == updated(before, elapsed, s, ticks);
        backlogs_are_capped(dt, s.sum);
        ticks_add_up(plus, minus, dt, s, ticks, size, e, ticks);
        double_values_keep_order(F64(0), s.lefts[ticks]);
        double_values_keep_order(cap, s.lefts[0]);
    }
}

/// What `k` ticks charged, up to rounding.
proof fn charges_add_up<P: Fn(F64, F64) -> F64, M: Fn(F64, F64) -> F64>(
    plus: P,
    minus: M,
    tick_dt: F64,
    s: Sums,
    ticks: int,
    size: int,
    e: int,
    k: int,
)
    requires
        0 < tick_dt.0 < DOUBLE_INFINITY_BITS,
        0 <= k <= ticks,
        0 <= 2 * e <= double_value(tick_dt),
        ticked(plus, minus, tick_dt, s, ticks),
        counts_down(minus, tick_dt),
        double_is_finite(s.lefts[0]),
        0 <= double_rank(s.lefts[0]) <= double_rank(backlog_cap(tick_dt)),
        fits(s.consumed[0], size - 3 * double_value(backlog_cap(tick_dt))),
        fits(backlog_cap(tick_dt), size),
        rounds(plus, minus, size, e),
    ensures
        fits(s.consumed[k], size),
        near(
            double_value(s.consumed[k]),
            double_value(s.consumed[0]) + k * double_value(tick_dt),
            k * e,
        ),
    decreases k,
{
    let dt = double_value(tick_dt);
    let cap = double_value(backlog_cap(tick_dt));
    ticks_add_up(plus, minus, tick_dt, s, ticks, size, e, k);
    double_values_keep_order(F64(0), s.lefts[k]);
    double_values_keep_order(F64(0), tick_dt);
    double_values_keep_order(backlog_cap(tick_dt), tick_dt);
    double_values_keep_order(backlog_cap(tick_dt), s.lefts[0]);
    assert(2 * (k * e) <= k * dt && 0 <= k * e && 0 <= k * dt) by (nonlinear_arith)
        requires
            0 <= 2 * e <= dt,
            0 <= k,
    ;
    assert(k * dt <= 2 * cap);
    if k > 0 {
        let j = k - 1;
        charges_add_up(plus, minus, tick_dt, s, ticks, size, e, j);
        assert(double_rank(s.lefts[j]) >= double_rank(tick_dt));
        assert(plus.ensures((s.consumed[j], tick_dt), s.consumed[j + 1]));
        assert(fits(tick_dt, size));
        assert(k * dt == j * dt + dt && k * e == j * e + e) by (nonlinear_arith)
            requires
                k == j + 1,
        ;
    }
}

/// Behind a call at which time has gone by, what is not ticked is less than a tick, up to
/// the rounding of its sums: so the next call at which none goes by ticks nothing.
pub proof fn what_is_left_is_less_than_a_tick<
    P: Fn(F64, F64) -> F64,
    M: Fn(F64, F64) -> F64,
    T: Fn(F64, F64) -> F64,
    D: Fn(F64, F64) -> F32,
>(
    plus: P,
    minus: M,
    times: T,
    part: D,
    before: Clock,
    elapsed: F64,
    speed: F64,
    after: Clock,
    ticks: int,
    size: int,
    e: int,
)
    requires
        before.wf(),
        ticks >= 0,
        holds(before, size),
        fits(elapsed, size),
        fits(after.warp, size),
        before.origin is None || double_below(before.last, elapsed),
        0 <= 2 * e <= double_value(before.tick_dt),
        rounds(plus, minus, 32 * size, e),
        counts_down(minus, before.tick_dt),
        advanced(plus, minus, times, part, before, elapsed, speed, after, ticks),
    ensures
        behind(after) < double_value(before.tick_dt) + (2 * ticks + 5) * e,
{
    let s = choose|s: Sums| #[trigger]
        summed(plus, minus, times, before, elapsed, speed, s) && ticked(
            plus,
            minus,
            before.tick_dt,
            s,
            ticks,
        ) && double_rank(s.lefts[ticks]) < double_rank(before.tick_dt) && part.ensures(
            (s.lefts[ticks], before.tick_dt),
            s.raw,
        ) && after == updated(before, elapsed, s, ticks);
    let dt = before.tick_dt;
    let cap = backlog_cap(dt);
    let origin = match before.origin {
        Some(o) => o,
        None => elapsed,
    };
    double_values_keep_order(F64(0), dt);
    double_values_keep_order(dt, cap);
    assert(e <= size);
    assert(minus.ensures((elapsed, origin), s.wall));
    assert(fits(s.wall, 3 * size));
    assert(minus.ensures((s.wall, before.consumed), s.unticked));
    assert(fits(s.unticked, 5 * size));
    assert(after.warp == kept(s.warp));
    assert(plus.ensures((s.unticked, kept(s.warp)), s.sum));
    assert(fits(s.sum, 7 * size));
    let gone = double_value(elapsed) - double_value(origin) - double_value(before.consumed)
        + double_value(after.warp);
    assert(near(double_value(s.sum), gone, 3 * e));
    let due = outstanding(s.sum);
    double_values_keep_order(s.sum, F64(0));
    double_values_keep_order(cap, due);
    assert(double_value(due) >= double_value(s.sum));
    backlogs_are_capped(dt, s.sum);
    if double_below(cap, due) {
        assert(minus.ensures((due, cap), s.over));
        assert(fits(s.over, 9 * size));
        assert(plus.ensures((before.consumed, s.over), s.consumed[0]));
    }
    assert(fits(s.consumed[0], 11 * size));
    assert(gone - (double_value(s.consumed[0]) - double_value(before.consumed)) <= double_value(
        s.lefts[0],
    ) + 5 * e);
    ticks_add_up(plus, minus, dt, s, ticks, 32 * size, e, ticks);
    charges_add_up(plus, minus, dt, s, ticks, 32 * size, e, ticks);
    double_values_keep_order(s.lefts[ticks], dt);
    assert((2 * ticks + 5) * e == ticks * e + ticks * e + 5 * e) by (nonlinear_arith);
    assert(after.last == elapsed) by {
        double_values_keep_order(before.last, elapsed);
    }
}

/// What one second is, counted as doubles are.
pub open spec fn second() -> int {
    double_value(F64(DOUBLE_ONE_BITS))
}

/// A time of at most this size, times a speed less one, is at most `e` off.
pub open spec fn drags<M: Fn(F64, F64) -> F64, T: Fn(F64, F64) -> F64>(
    minus: M,
    times: T,
    size: int,
    e: int,
) -> bool {
    forall|speed: F64, pull: F64, d: F64, r: F64|
        #![trigger minus.ensures((speed, F64(DOUBLE_ONE_BITS)), pull), times.ensures((d, pull), r)]
        fits(d, size) && 0 <= double_value(speed) <= 4 * second() && minus.ensures(
            (speed, F64(DOUBLE_ONE_BITS)),
            pull,
        ) && times.ensures((d, pull), r) ==> double_is_finite(r) && near(
            double_value(r) * second(),
            double_value(d) * (double_value(speed) - second()),
            e * second(),
        )
}

/// Sim time that is due at a reading, times a second: what is behind, and wall time since
/// the latest reading at the speed that sim time runs at.
pub open spec fn due_at(clock: Clock, elapsed: F64, speed: F64) -> int {
    behind(clock) * second() + double_value(speed) * (double_value(elapsed) - double_value(
        clock.last,
    ))
}

proof fn a_second_is_some_time()
    ensures
        second() > 0,
{
    double_values_keep_order(F64(0), F64(DOUBLE_ONE_BITS));
}

/// The sums of one update, as numbers.
proof fn sums_are_near<
    P: Fn(F64, F64) -> F64,
    M: Fn(F64, F64) -> F64,
    T: Fn(F64, F64) -> F64,
>(
    plus: P,
    minus: M,
    times: T,
    before: Clock,
    elapsed: F64,
    speed: F64,
    s: Sums,
    size: int,
    e: int,
)
    requires
        before.wf(),
        before.origin is Some,
        holds(before, size),
        fits(elapsed, size),
        double_below(before.last, elapsed),
        0 <= double_value(speed) <= 4 * second(),
        0 <= e <= size,
        rounds(plus, minus, 64 * size, e),
        drags(minus, times, 3 * size, e),
        summed(plus, minus, times, before, elapsed, speed, s),
    ensures
        kept(s.warp) == s.warp,
        fits(s.warp, 12 * size),
        fits(s.sum, 18 * size),
        near(
            double_value(s.warp) * second(),
            double_value(before.warp) * second() + (double_value(elapsed) - double_value(
                before.last,
            )) * (double_value(speed) - second()),
            5 * e * second(),
        ),
        near(
            double_value(s.sum),
            double_value(elapsed) - double_value(before.origin->0) - double_value(before.consumed)
                + double_value(s.warp),
            3 * e,
        ),
        near(double_value(s.sum) * second(), due_at(before, elapsed, speed), 8 * e * second()),
{
    let u = second();
    a_second_is_some_time();
    let (sp, g) = (double_value(speed), double_value(elapsed) - double_value(before.last));
    let (de, dr) = (double_value(s.delta), double_value(s.dragged));
    let (w, wa) = (double_value(before.warp), double_value(s.warp));
    let origin = before.origin->0;
    assert(minus.ensures((elapsed, before.last), s.delta));
    assert(fits(s.delta, 3 * size));
    assert(minus.ensures((speed, F64(DOUBLE_ONE_BITS)), s.pull));
    assert(times.ensures((s.delta, s.pull), s.dragged));
    assert(near(dr * u, de * (sp - u), e * u));
    assert(-10 * size <= dr <= 10 * size && near(dr * u, g * (sp - u), 4 * e * u)) by (nonlinear_arith)
        requires
            u > 0,
            0 <= e <= size,
            -3 * size <= de <= 3 * size,
            -e <= de - g <= e,
            0 <= sp <= 4 * u,
            -(e * u) <= dr * u - de * (sp - u) <= e * u,
    {
        let p = sp - u;
        assert(-u <= p <= 3 * u);
        assert(de * p - g * p == (de - g) * p) by (nonlinear_arith);
        assert(-(3 * e * u) <= (de - g) * p <= 3 * e * u) by (nonlinear_arith)
            requires
                u > 0,
                0 <= e,
                -e <= de - g <= e,
                -u <= p <= 3 * u,
        ;
        assert(-(9 * size * u) <= de * p <= 9 * size * u) by (nonlinear_arith)
            requires
                u > 0,
                0 <= size,
                -3 * size <= de <= 3 * size,
                -u <= p <= 3 * u,
        ;
        assert(e * u <= size * u) by (nonlinear_arith)
            requires
                e <= size,
                u > 0,
        ;
        assert(-(10 * size * u) <= dr * u <= 10 * size * u);
        assert(-10 * size <= dr <= 10 * size) by (nonlinear_arith)
            requires
                u > 0,
                -(10 * size * u) <= dr * u <= 10 * size * u,
        ;
    }
    assert(fits(s.dragged, 10 * size));
    assert(plus.ensures((before.warp, s.dragged), s.warp));
    assert(near(wa, w + dr, e));
    assert(near(wa * u, w * u + g * (sp - u), 5 * e * u)) by (nonlinear_arith)
        requires
            u > 0,
            -e <= wa - (w + dr) <= e,
            near(dr * u, g * (sp - u), 4 * e * u),
    {
        assert(-(e * u) <= (wa - (w + dr)) * u <= e * u) by (nonlinear_arith)
            requires
                u > 0,
                -e <= wa - (w + dr) <= e,
        ;
        assert((wa - (w + dr)) * u == wa * u - w * u - dr * u) by (nonlinear_arith);
    }
    assert(minus.ensures((elapsed, origin), s.wall));
    assert(fits(s.wall, 3 * size));
    assert(minus.ensures((s.wall, before.consumed), s.unticked));
    assert(fits(s.unticked, 5 * size));
    assert(plus.ensures((s.unticked, s.warp), s.sum));
    let (sum, o, c) = (double_value(s.sum), double_value(origin), double_value(before.consumed));
    let el = double_value(elapsed);
    let gone = el - o - c + wa;
    assert(near(sum, gone, 3 * e));
    let b = behind(before);
    assert(gone == b + g + (wa - w));
    assert(near(sum * u, b * u + sp * g, 8 * e * u)) by (nonlinear_arith)
        requires
            u > 0,
            -(3 * e) <= sum - gone <= 3 * e,
            gone == b + g + (wa - w),
            near(wa * u, w * u + g * (sp - u), 5 * e * u),
    {
        assert(-(3 * e * u) <= (sum - gone) * u <= 3 * e * u) by (nonlinear_arith)
            requires
                u > 0,
                -(3 * e) <= sum - gone <= 3 * e,
        ;
        assert((sum - gone) * u == sum * u - (b * u + g * u + wa * u - w * u)) by (nonlinear_arith)
            requires
                gone == b + g + (wa - w),
        ;
        assert(g * (sp - u) == sp * g - g * u) by (nonlinear_arith);
    }
}

/// Sim time goes by at its speed. Where a reading is later than the latest, and what is
/// due is within the cap, what is behind afterwards and the ticks that came are what was
/// behind and the wall time gone by times the speed, up to rounding, at every speed that
/// can be run at. No tick comes before its time, and the frame is drawn as far behind the
/// last one as time is.
pub proof fn sim_time_goes_by_at_its_speed<
    P: Fn(F64, F64) -> F64,
    M: Fn(F64, F64) -> F64,
    T: Fn(F64, F64) -> F64,
    D: Fn(F64, F64) -> F32,
>(
    plus: P,
    minus: M,
    times: T,
    part: D,
    before: Clock,
    elapsed: F64,
    speed: F64,
    after: Clock,
    ticks: int,
    size: int,
    e: int,
)
    requires
        before.wf(),
        before.origin is Some,
        ticks >= 0,
        holds(before, size),
        fits(elapsed, size),
        double_below(before.last, elapsed),
        0 <= double_value(speed) <= 4 * second(),
        0 <= 2 * e <= double_value(before.tick_dt),
        rounds(plus, minus, 64 * size, e),
        drags(minus, times, 3 * size, e),
        counts_down(minus, before.tick_dt),
        due_at(before, elapsed, speed) + 8 * e * second() <= double_value(
            backlog_cap(before.tick_dt),
        ) * second(),
        advanced(plus, minus, times, part, before, elapsed, speed, after, ticks),
    ensures
        near(
            (behind(after) + ticks * double_value(before.tick_dt)) * second(),
            due_at(before, elapsed, speed),
            (ticks + 5) * e * second(),
        ),
        ticks > 0 ==> ticks * double_value(before.tick_dt) * second() <= due_at(
            before,
            elapsed,
            speed,
        ) + (ticks + 8) * e * second(),
        due_at(before, elapsed, speed) >= 8 * e * second() ==> exists|left: F64, raw: F32|
            {
                &&& #[trigger] part.ensures((left, before.tick_dt), raw)
                &&& 0 <= double_value(left) < double_value(before.tick_dt)
                &&& near(double_value(left), behind(after), (2 * ticks + 3) * e)
                &&& after.alpha == between_ticks(raw)
            },
{
    let s = choose|s: Sums| #[trigger]
        summed(plus, minus, times, before, elapsed, speed, s) && ticked(
            plus,
            minus,
            before.tick_dt,
            s,
            ticks,
        ) && double_rank(s.lefts[ticks]) < double_rank(before.tick_dt) && part.ensures(
            (s.lefts[ticks], before.tick_dt),
            s.raw,
        ) && after == updated(before, elapsed, s, ticks);
    let dt = before.tick_dt;
    let cap = backlog_cap(dt);
    let u = second();
    a_second_is_some_time();
    double_values_keep_order(F64(0), dt);
    double_values_keep_order(dt, cap);
    sums_are_near(plus, minus, times, before, elapsed, speed, s, size, e);
    let sum = double_value(s.sum);
    let all = due_at(before, elapsed, speed);
    assert(sum <= double_value(cap)) by (nonlinear_arith)
        requires
            u > 0,
            sum * u <= all + 8 * e * u,
            all + 8 * e * u <= double_value(cap) * u,
    ;
    let due = outstanding(s.sum);
    double_values_keep_order(s.sum, F64(0));
    double_values_keep_order(cap, due);
    double_values_keep_order(F64(0), due);
    backlogs_are_capped(dt, s.sum);
    assert(!double_below(cap, due));
    assert(s.lefts[0] == due && s.consumed[0] == before.consumed);
    ticks_add_up(plus, minus, dt, s, ticks, 64 * size, e, ticks);
    charges_add_up(plus, minus, dt, s, ticks, 64 * size, e, ticks);
    let left = s.lefts[ticks];
    double_values_keep_order(F64(0), left);
    double_values_keep_order(left, dt);
    let step = double_value(dt);
    let (c, ca) = (double_value(before.consumed), double_value(after.consumed));
    let (w, wa) = (double_value(before.warp), double_value(after.warp));
    let (sp, g) = (double_value(speed), double_value(elapsed) - double_value(before.last));
    assert(after.last == elapsed);
    assert(near(ca, c + ticks * step, ticks * e));
    let (b, now) = (behind(before), behind(after));
    let td = ticks * step;
    let te = ticks * e;
    assert(now + td == b + g + (wa - w) - (ca - c - td));
    assert(near((now + td) * u, b * u + sp * g, (te + 5 * e) * u)) by (nonlinear_arith)
        requires
            u > 0,
            now + td == b + g + (wa - w) - (ca - c - td),
            -te <= ca - c - td <= te,
            near(wa * u, w * u + g * (sp - u), 5 * e * u),
    {
        let off = ca - c - td;
        assert(-(te * u) <= off * u <= te * u) by (nonlinear_arith)
            requires
                u > 0,
                -te <= off <= te,
        ;
        assert((now + td) * u == b * u + g * u + wa * u - w * u - off * u) by (nonlinear_arith)
            requires
                now + td == b + g + (wa - w) - off,
        ;
        assert(g * (sp - u) == sp * g - g * u) by (nonlinear_arith);
        assert((te + 5 * e) * u == te * u + 5 * e * u) by (nonlinear_arith);
    }
    assert((ticks + 5) * e == te + 5 * e && (ticks + 8) * e == te + 8 * e && (2 * ticks + 3) * e == 2
        * te + 3 * e) by (nonlinear_arith)
        requires
            te == ticks * e,
    ;
    if ticks > 0 {
        assert(double_rank(s.lefts[0]) >= double_rank(dt));
        assert(due == s.sum);
        assert(td <= sum + te);
        assert(td * u <= all + (te + 8 * e) * u) by (nonlinear_arith)
            requires
                u > 0,
                td <= sum + te,
                sum * u <= all + 8 * e * u,
        ;
    }
    if all >= 8 * e * u {
        assert(sum >= 0) by (nonlinear_arith)
            requires
                u > 0,
                all - 8 * e * u <= sum * u,
                all >= 8 * e * u,
        ;
        assert(double_value(due) == sum);
        assert(near(double_value(left), now, 2 * te + 3 * e));
        assert(part.ensures((left, dt), s.raw));
    }
}

/// A stall is cut to the cap: where more is due than the cap holds, the ticks that come
/// are the cap's worth and no less, up to rounding.
pub proof fn a_stall_ticks_the_cap<
    P: Fn(F64, F64) -> F64,
    M: Fn(F64, F64) -> F64,
    T: Fn(F64, F64) -> F64,
    D: Fn(F64, F64) -> F32,
>(
    plus: P,
    minus: M,
    times: T,
    part: D,
    before: Clock,
    elapsed: F64,
    speed: F64,
    after: Clock,
    ticks: int,
    size: int,
    e: int,
)
    requires
        before.wf(),
        before.origin is Some,
        ticks >= 0,
        holds(before, size),
        fits(elapsed, size),
        double_below(before.last, elapsed),
        0 <= double_value(speed) <= 4 * second(),
        0 <= 2 * e <= double_value(before.tick_dt),
        rounds(plus, minus, 64 * size, e),
        drags(minus, times, 3 * size, e),
        counts_down(minus, before.tick_dt),
        due_at(before, elapsed, speed) - 8 * e * second() >= double_value(
            backlog_cap(before.tick_dt),
        ) * second(),
        advanced(plus, minus, times, part, before, elapsed, speed, after, ticks),
    ensures
        double_value(backlog_cap(before.tick_dt)) < (ticks + 1) * double_value(before.tick_dt)
            + ticks * e,
        ticks * double_value(before.tick_dt) <= double_value(backlog_cap(before.tick_dt)) + ticks
            * e,
{
    let s = choose|s: Sums| #[trigger]
        summed(plus, minus, times, before, elapsed, speed, s) && ticked(
            plus,
            minus,
            before.tick_dt,
            s,
            ticks,
        ) && double_rank(s.lefts[ticks]) < double_rank(before.tick_dt) && part.ensures(
            (s.lefts[ticks], before.tick_dt),
            s.raw,
        ) && after == updated(before, elapsed, s, ticks);
    let dt = before.tick_dt;
    let cap = backlog_cap(dt);
    let u = second();
    a_second_is_some_time();
    double_values_keep_order(F64(0), dt);
    double_values_keep_order(dt, cap);
    sums_are_near(plus, minus, times, before, elapsed, speed, s, size, e);
    let sum = double_value(s.sum);
    let all = due_at(before, elapsed, speed);
    assert(sum >= double_value(cap)) by (nonlinear_arith)
        requires
            u > 0,
            sum * u >= all - 8 * e * u,
            all - 8 * e * u >= double_value(cap) * u,
    ;
    let due = outstanding(s.sum);
    double_values_keep_order(s.sum, F64(0));
    double_values_keep_order(cap, due);
    backlogs_are_capped(dt, s.sum);
    assert(double_value(s.lefts[0]) == double_value(cap));
    double_values_keep_order(s.lefts[0], cap);
    ticks_add_up(plus, minus, dt, s, ticks, 64 * size, e, ticks);
    double_values_keep_order(F64(0), s.lefts[ticks]);
    double_values_keep_order(s.lefts[ticks], dt);
    let step = double_value(dt);
    assert((ticks + 1) * step == ticks * step + step) by (nonlinear_arith);
}

/// The cap is a quarter of a second, or a tick where that is longer; and what a frame is
/// drawn at is what it was computed to be, held below one.
pub proof fn what_the_cap_and_the_frame_are(tick_dt: F64, raw: F32)
    requires
        0 < tick_dt.0 < DOUBLE_INFINITY_BITS,
    ensures
        backlog_cap(tick_dt).0 == 0x3fd0_0000_0000_0000 || backlog_cap(tick_dt) == tick_dt,
        backlog_cap(tick_dt).0 >= 0x3fd0_0000_0000_0000,
        backlog_cap(tick_dt).0 >= tick_dt.0,
        raw.0 < 0x3f80_0000 ==> between_ticks(raw) == raw,
        0x3f80_0000 <= raw.0 < 0x7f80_0000 ==> between_ticks(raw).0 == 0x3f7f_ffff,
        0x7f80_0000 <= raw.0 && raw.0 != 0x8000_0000 ==> between_ticks(raw).0 == 0,
        raw.0 == 0x8000_0000 ==> between_ticks(raw) == raw,
{
}

} // verus!
