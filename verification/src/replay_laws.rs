//! What replaying a whole run comes to: the same input at every tick, and the same
//! trace again when it is recorded again.
//!
//! What a host's input state makes of a tick's events is [`heeds`]: keys and buttons
//! by their edges, sticks and triggers by their levels, and fingers as a list that new
//! ones join at the end. What a recorded tick may look like behind the one before is
//! [`follows`]. A simulation that replays does all this from a state of its own, whatever
//! its host is doing.

use vstd::prelude::*;
use crate::float::{F32, Vec2};
use crate::input::{
    alike, at_rest, has_id, is_live, same_devices, Edges, Input, InputEvent, Key,
    Level, LiveTouch, PadButton, PadStick, PadTrigger, Touch, TouchPhase,
};
use crate::sim::{ticked, Sim};
use crate::trace::{
    arrival_events, at_tick, at_tick_append, at_tick_stamped, departure_events, moved_events, stamped,
    tick_events, touch_event, touch_events, TickEvent,
};
use crate::trace_laws::{
    a_replayed_tick_says_what_was_recorded, device_events, devices_are_no_fingers, edges_after,
    edges_follow, edges_said, has_id_of_last, last_place, level_after, level_said, motion_said,
    one_entry_each, replay_keeps_edges, replay_keeps_levels, said, said_of, trigger_said, wheel_said,
    without_fingers, Device, Saying,
};

verus! {

/// Fingers without the one with contact number `id`.
pub open spec fn lifted_off(live: Seq<LiveTouch>, id: u64) -> Seq<LiveTouch>
    decreases live.len(),
{
    if live.len() == 0 {
        Seq::empty()
    } else {
        let before = lifted_off(live.drop_last(), id);
        if live.last().touch.id == id {
            before
        } else {
            before.push(live.last())
        }
    }
}

/// A finger, or where it has gone if it is the one with contact number `id`.
pub open spec fn slid(t: LiveTouch, id: u64, pos: Vec2) -> LiveTouch {
    if t.touch.id == id {
        LiveTouch { touch: Touch { id, pos }, moved: true }
    } else {
        t
    }
}

/// The fingers that are down once `events` have happened, if `live` were before: one
/// that arrives joins at the end, and leaves its place first if it was down.
pub open spec fn live_after(live: Seq<LiveTouch>, events: Seq<InputEvent>) -> Seq<LiveTouch>
    decreases events.len(),
{
    if events.len() == 0 {
        live
    } else {
        let before = live_after(live, events.drop_last());
        match events.last() {
            InputEvent::Touch { id, phase, x, y } => match phase {
                TouchPhase::Started => lifted_off(before, id).push(
                    LiveTouch { touch: Touch { id, pos: Vec2 { x, y } }, moved: false },
                ),
                TouchPhase::Moved => before.map_values(
                    |t: LiveTouch| slid(t, id, Vec2 { x, y }),
                ),
                TouchPhase::Ended => lifted_off(before, id),
            },
            _ => before,
        }
    }
}

/// The fingers that arrive in `events`, in order.
pub open spec fn arrived_in(events: Seq<InputEvent>) -> Seq<Touch>
    decreases events.len(),
{
    if events.len() == 0 {
        Seq::empty()
    } else {
        let before = arrived_in(events.drop_last());
        match events.last() {
            InputEvent::Touch { id, phase: TouchPhase::Started, x, y } => before.push(
                Touch { id, pos: Vec2 { x, y } },
            ),
            _ => before,
        }
    }
}

/// The fingers that leave in `events`, in order.
pub open spec fn departed_in(events: Seq<InputEvent>) -> Seq<Touch>
    decreases events.len(),
{
    if events.len() == 0 {
        Seq::empty()
    } else {
        let before = departed_in(events.drop_last());
        match events.last() {
            InputEvent::Touch { id, phase: TouchPhase::Ended, x, y } => before.push(
                Touch { id, pos: Vec2 { x, y } },
            ),
            _ => before,
        }
    }
}

/// Fingers at the beginning of a tick: none has moved in it yet.
pub open spec fn rested(live: Seq<LiveTouch>) -> Seq<LiveTouch> {
    live.map_values(|t: LiveTouch| LiveTouch { touch: t.touch, moved: false })
}

/// A trigger behind a tick whose events say this of it.
pub open spec fn trigger_after(sayings: Seq<Saying>, before: F32) -> (F32, bool) {
    (
        if sayings.len() == 0 {
            before
        } else {
            sayings.last()->At_0
        },
        sayings.len() > 0,
    )
}

/// What the mouse moved by in a tick whose events say this of it.
pub open spec fn motion_after(sayings: Seq<Saying>) -> Vec2 {
    if sayings.len() == 0 {
        Vec2 { x: F32(0), y: F32(0) }
    } else {
        sayings.last()->To_0
    }
}

/// What the wheel turned by in a tick whose events say this of it.
pub open spec fn turn_after(sayings: Seq<Saying>) -> F32 {
    if sayings.len() == 0 {
        F32(0)
    } else {
        sayings.last()->At_0
    }
}

/// Whether `after` is what `events` make of the input state `before`.
#[verifier::opaque]
pub open spec fn heeds(before: Input, events: Seq<InputEvent>, after: Input) -> bool {
    &&& after.keys@.len() == before.keys@.len()
    &&& forall|i: int|
        0 <= i < before.keys@.len() ==> (#[trigger] after.keys@[i]) == (
            before.keys@[i].0,
            edges_after(
                said_of(events, Device::Key(before.keys@[i].0)),
                before.keys@[i].1.held,
            ),
        )
    &&& after.buttons@.len() == before.buttons@.len()
    &&& forall|i: int|
        0 <= i < before.buttons@.len() ==> (#[trigger] after.buttons@[i]) == (
            before.buttons@[i].0,
            edges_after(
                said_of(events, Device::Button(before.buttons@[i].0)),
                before.buttons@[i].1.held,
            ),
        )
    &&& after.pad@.len() == before.pad@.len()
    &&& forall|i: int|
        0 <= i < before.pad@.len() ==> (#[trigger] after.pad@[i]) == (
            before.pad@[i].0,
            edges_after(
                said_of(events, Device::Pad(before.pad@[i].0)),
                before.pad@[i].1.held,
            ),
        )
    &&& after.sticks@.len() == before.sticks@.len()
    &&& forall|i: int|
        0 <= i < before.sticks@.len() ==> (#[trigger] after.sticks@[i]) == (
            before.sticks@[i].0,
            level_after(
                said_of(events, Device::Stick(before.sticks@[i].0)),
                before.sticks@[i].1.dir,
            ),
        )
    &&& after.triggers@.len() == before.triggers@.len()
    &&& forall|i: int|
        0 <= i < before.triggers@.len() ==> {
            let now = trigger_after(
                said_of(events, Device::Trigger(before.triggers@[i].0)),
                before.triggers@[i].1,
            );
            (#[trigger] after.triggers@[i]) == (before.triggers@[i].0, now.0, now.1)
        }
    &&& after.drive == level_after(said_of(events, Device::Drive), before.drive.dir)
    &&& after.mouse_delta == motion_after(said_of(events, Device::Mouse))
    &&& after.wheel == turn_after(said_of(events, Device::Wheel))
    &&& after.started@ == arrived_in(events)
    &&& after.ended@ == departed_in(events)
    &&& after.live@ == live_after(rested(before.live@), events)
}

/// Whether the fingers of `after` are what some events make of those of `before`.
pub open spec fn touched(before: Input, after: Input, events: Seq<InputEvent>) -> bool {
    &&& after.started@ == arrived_in(events)
    &&& after.ended@ == departed_in(events)
    &&& after.live@ == live_after(rested(before.live@), events)
}

/// Whether a tick's input can have come behind `before`, whatever the devices did:
/// edges and levels fit what was held, a mouse or a wheel at rest says nothing but zero,
/// and the fingers are where some events left them.
#[verifier::opaque]
pub open spec fn follows(before: Input, after: Input) -> bool {
    &&& after.keys@.len() == before.keys@.len()
    &&& forall|i: int|
        0 <= i < before.keys@.len() ==> (#[trigger] after.keys@[i]).0 == before.keys@[i].0
            && edges_follow(after.keys@[i].1, before.keys@[i].1.held)
    &&& after.buttons@.len() == before.buttons@.len()
    &&& forall|i: int|
        0 <= i < before.buttons@.len() ==> (#[trigger] after.buttons@[i]).0
            == before.buttons@[i].0 && edges_follow(
            after.buttons@[i].1,
            before.buttons@[i].1.held,
        )
    &&& after.pad@.len() == before.pad@.len()
    &&& forall|i: int|
        0 <= i < before.pad@.len() ==> (#[trigger] after.pad@[i]).0 == before.pad@[i].0
            && edges_follow(after.pad@[i].1, before.pad@[i].1.held)
    &&& after.sticks@.len() == before.sticks@.len()
    &&& forall|i: int|
        0 <= i < before.sticks@.len() ==> (#[trigger] after.sticks@[i]).0 == before.sticks@[i].0
            && (!after.sticks@[i].1.changed ==> after.sticks@[i].1.dir
            == before.sticks@[i].1.dir)
    &&& after.triggers@.len() == before.triggers@.len()
    &&& forall|i: int|
        0 <= i < before.triggers@.len() ==> (#[trigger] after.triggers@[i]).0
            == before.triggers@[i].0 && (!after.triggers@[i].2 ==> after.triggers@[i].1
            == before.triggers@[i].1)
    &&& !after.drive.changed ==> after.drive.dir == before.drive.dir
    &&& motion_said(after.mouse_delta).len() == 0 ==> after.mouse_delta == (Vec2 {
        x: F32(0),
        y: F32(0),
    })
    &&& wheel_said(after.wheel).len() == 0 ==> after.wheel == F32(0)
    &&& exists|events: Seq<InputEvent>| #[trigger] touched(before, after, events)
}

/// No two fingers down have one contact number.
pub open spec fn apart(live: Seq<LiveTouch>) -> bool {
    forall|i: int, j: int|
        0 <= i < j < live.len() ==> (#[trigger] live[i]).touch.id != (
        #[trigger] live[j]).touch.id
}

/// The fingers of `ended` whose contact number is down (`down`) or is not.
pub open spec fn ended_where(ended: Seq<Touch>, live: Seq<LiveTouch>, down: bool) -> Seq<Touch>
    decreases ended.len(),
{
    if ended.len() == 0 {
        Seq::empty()
    } else {
        let before = ended_where(ended.drop_last(), live, down);
        if is_live(live, ended.last().id) == down {
            before.push(ended.last())
        } else {
            before
        }
    }
}

/// Whether two inputs are the same to everything that reads them: in every device and
/// finger. Fingers that left are told in two groups, those whose contact number is down
/// again before the others.
pub open spec fn same_input(a: Input, b: Input) -> bool {
    &&& a.keys@ == b.keys@
    &&& a.buttons@ == b.buttons@
    &&& a.pad@ == b.pad@
    &&& a.sticks@ == b.sticks@
    &&& a.triggers@ == b.triggers@
    &&& a.drive == b.drive
    &&& a.mouse_delta == b.mouse_delta
    &&& a.wheel == b.wheel
    &&& a.started@ == b.started@
    &&& a.live@ == b.live@
    &&& b.ended@ == ended_where(a.ended@, a.live@, true) + ended_where(a.ended@, a.live@, false)
}

// ---------------------------------------------------------------------------
// Fingers, one by one
// ---------------------------------------------------------------------------

/// The finger with contact number `id`, if it is down.
spec fn found(live: Seq<LiveTouch>, id: u64) -> Option<LiveTouch>
    decreases live.len(),
{
    if live.len() == 0 {
        None
    } else if live.last().touch.id == id {
        Some(live.last())
    } else {
        found(live.drop_last(), id)
    }
}

/// What `events` make of one finger.
spec fn finger_after(events: Seq<InputEvent>, id: u64, before: Option<LiveTouch>) -> Option<LiveTouch>
    decreases events.len(),
{
    if events.len() == 0 {
        before
    } else {
        let was = finger_after(events.drop_last(), id, before);
        match events.last() {
            InputEvent::Touch { id: i, phase, x, y } if i == id => match phase {
                TouchPhase::Started => Some(
                    LiveTouch { touch: Touch { id, pos: Vec2 { x, y } }, moved: false },
                ),
                TouchPhase::Moved => if was is Some {
                    Some(LiveTouch { touch: Touch { id, pos: Vec2 { x, y } }, moved: true })
                } else {
                    None
                },
                TouchPhase::Ended => None,
            },
            _ => was,
        }
    }
}

proof fn found_is_there(live: Seq<LiveTouch>, id: u64)
    ensures
        found(live, id) is Some <==> is_live(live, id),
        found(live, id) is Some ==> (found(live, id)->0).touch.id == id && exists|i: int|
            0 <= i < live.len() && #[trigger] live[i] == found(live, id)->0,
    decreases live.len(),
{
    if live.len() > 0 {
        let front = live.drop_last();
        found_is_there(front, id);
        assert(live[live.len() - 1] == live.last());
        if live.last().touch.id != id {
            if is_live(front, id) {
                let i = choose|i: int| 0 <= i < front.len() && (#[trigger] front[i]).touch.id == id;
                assert(live[i].touch.id == id);
                let k = choose|k: int|
                    0 <= k < front.len() && #[trigger] front[k] == found(front, id)->0;
                assert(live[k] == found(front, id)->0);
            }
            if is_live(live, id) {
                let i = choose|i: int| 0 <= i < live.len() && (#[trigger] live[i]).touch.id == id;
                assert(front[i].touch.id == id);
            }
        }
    }
}

/// In a list of distinct fingers, one that stands in it is found.
proof fn there_is_found(live: Seq<LiveTouch>, i: int)
    requires
        apart(live),
        0 <= i < live.len(),
    ensures
        found(live, live[i].touch.id) == Some(live[i]),
    decreases live.len(),
{
    let front = live.drop_last();
    if i < live.len() - 1 {
        assert(live[i].touch.id != live[live.len() - 1].touch.id);
        assert(apart(front)) by {
            assert forall|a: int, b: int| 0 <= a < b < front.len() implies (
            #[trigger] front[a]).touch.id != (#[trigger] front[b]).touch.id by {
                assert(front[a] == live[a] && front[b] == live[b]);
            }
        }
        assert(front[i] == live[i]);
        there_is_found(front, i);
    }
}

proof fn lifting(live: Seq<LiveTouch>, gone: u64, id: u64)
    ensures
        found(lifted_off(live, gone), id) == if id == gone {
            None
        } else {
            found(live, id)
        },
    decreases live.len(),
{
    if live.len() > 0 {
        lifting(live.drop_last(), gone, id);
        let before = lifted_off(live.drop_last(), gone);
        assert(before.push(live.last()).drop_last() =~= before);
    }
}

proof fn sliding(live: Seq<LiveTouch>, gone: u64, pos: Vec2, id: u64)
    ensures
        found(live.map_values(|t: LiveTouch| slid(t, gone, pos)), id) == (match found(live, id) {
            Some(t) => Some(slid(t, gone, pos)),
            None => None,
        }),
    decreases live.len(),
{
    let all = live.map_values(|t: LiveTouch| slid(t, gone, pos));
    if live.len() > 0 {
        sliding(live.drop_last(), gone, pos, id);
        assert(all.drop_last() =~= live.drop_last().map_values(
            |t: LiveTouch| slid(t, gone, pos),
        ));
        assert(all.last() == slid(live.last(), gone, pos));
    }
}

/// A finger of the list goes its own way.
proof fn each_goes_its_way(live: Seq<LiveTouch>, events: Seq<InputEvent>, id: u64)
    ensures
        found(live_after(live, events), id) == finger_after(events, id, found(live, id)),
    decreases events.len(),
{
    if events.len() > 0 {
        let before = live_after(live, events.drop_last());
        each_goes_its_way(live, events.drop_last(), id);
        found_is_there(before, id);
        match events.last() {
            InputEvent::Touch { id: i, phase, x, y } => match phase {
                TouchPhase::Started => {
                    lifting(before, i, id);
                    let rest = lifted_off(before, i);
                    let t = LiveTouch { touch: Touch { id: i, pos: Vec2 { x, y } }, moved: false };
                    assert(rest.push(t).drop_last() =~= rest);
                },
                TouchPhase::Moved => {
                    sliding(before, i, Vec2 { x, y }, id);
                },
                TouchPhase::Ended => {
                    lifting(before, i, id);
                },
            },
            _ => {},
        }
    }
}

// ---------------------------------------------------------------------------
// The order of the list
// ---------------------------------------------------------------------------

/// The place of the last of `touches` with contact number `id`, or -1.
spec fn last_start(touches: Seq<Touch>, id: u64) -> int
    decreases touches.len(),
{
    if touches.len() == 0 {
        -1
    } else if touches.last().id == id {
        touches.len() - 1
    } else {
        last_start(touches.drop_last(), id)
    }
}

/// The place of a finger in a list, or -1.
spec fn seat(live: Seq<LiveTouch>, id: u64) -> int
    decreases live.len(),
{
    if live.len() == 0 {
        -1
    } else if live.last().touch.id == id {
        live.len() - 1
    } else {
        seat(live.drop_last(), id)
    }
}

/// What a list of fingers is ordered by: when each last arrived, and before that where
/// it stood.
spec fn turn(live: Seq<LiveTouch>, started: Seq<Touch>, id: u64) -> int {
    if last_start(started, id) >= 0 {
        live.len() + last_start(started, id)
    } else {
        seat(live, id)
    }
}

/// Whether `now` is in that order.
spec fn in_turn(now: Seq<LiveTouch>, live: Seq<LiveTouch>, started: Seq<Touch>) -> bool {
    &&& forall|i: int, j: int|
        0 <= i < j < now.len() ==> turn(live, started, (#[trigger] now[i]).touch.id) < turn(
            live,
            started,
            (#[trigger] now[j]).touch.id,
        )
}

proof fn last_start_in_bounds(touches: Seq<Touch>, id: u64)
    ensures
        -1 <= last_start(touches, id) < touches.len(),
    decreases touches.len(),
{
    if touches.len() > 0 {
        last_start_in_bounds(touches.drop_last(), id);
    }
}

proof fn seat_in_bounds(live: Seq<LiveTouch>, id: u64)
    ensures
        -1 <= seat(live, id) < live.len(),
    decreases live.len(),
{
    if live.len() > 0 {
        seat_in_bounds(live.drop_last(), id);
    }
}

proof fn seat_is_place(live: Seq<LiveTouch>, i: int)
    requires
        apart(live),
        0 <= i < live.len(),
    ensures
        seat(live, live[i].touch.id) == i,
    decreases live.len(),
{
    let front = live.drop_last();
    if i < live.len() - 1 {
        assert(live[i].touch.id != live[live.len() - 1].touch.id);
        assert(apart(front)) by {
            assert forall|a: int, b: int| 0 <= a < b < front.len() implies (
            #[trigger] front[a]).touch.id != (#[trigger] front[b]).touch.id by {
                assert(front[a] == live[a] && front[b] == live[b]);
            }
        }
        assert(front[i] == live[i]);
        seat_is_place(front, i);
    }
}

proof fn lifting_keeps_turns(now: Seq<LiveTouch>, gone: u64, live: Seq<LiveTouch>, started: Seq<Touch>)
    requires
        in_turn(now, live, started),
    ensures
        in_turn(lifted_off(now, gone), live, started),
        forall|j: int|
            0 <= j < lifted_off(now, gone).len() ==> (#[trigger] lifted_off(
                now,
                gone,
            )[j]).touch.id != gone && exists|i: int|
                0 <= i < now.len() && #[trigger] now[i] == lifted_off(now, gone)[j],
    decreases now.len(),
{
    if now.len() > 0 {
        let front = now.drop_last();
        assert forall|i: int, j: int| 0 <= i < j < front.len() implies turn(
            live,
            started,
            (#[trigger] front[i]).touch.id,
        ) < turn(live, started, (#[trigger] front[j]).touch.id) by {
            assert(front[i] == now[i] && front[j] == now[j]);
        }
        lifting_keeps_turns(front, gone, live, started);
        let before = lifted_off(front, gone);
        let rest = lifted_off(now, gone);
        assert(now[now.len() - 1] == now.last());
        assert forall|j: int| 0 <= j < rest.len() implies (#[trigger] rest[j]).touch.id != gone
            && exists|i: int| 0 <= i < now.len() && #[trigger] now[i] == rest[j] by {
            if j < before.len() {
                assert(rest[j] == before[j]);
                let i = choose|i: int| 0 <= i < front.len() && #[trigger] front[i] == before[j];
                assert(now[i] == rest[j]);
            }
        }
        assert forall|i: int, j: int| 0 <= i < j < rest.len() implies turn(
            live,
            started,
            (#[trigger] rest[i]).touch.id,
        ) < turn(live, started, (#[trigger] rest[j]).touch.id) by {
            if j < before.len() {
                assert(rest[i] == before[i] && rest[j] == before[j]);
            } else {
                assert(rest[i] == before[i]);
                let k = choose|k: int| 0 <= k < front.len() && #[trigger] front[k] == before[i];
                assert(now[k] == rest[i]);
                assert(rest[j] == now.last());
            }
        }
    }
}

/// Whatever happens, the list is in the order of its arrivals.
proof fn live_is_in_turn(live: Seq<LiveTouch>, events: Seq<InputEvent>)
    requires
        apart(live),
    ensures
        in_turn(live_after(live, events), live, arrived_in(events)),
    decreases events.len(),
{
    if events.len() == 0 {
        assert forall|i: int, j: int| 0 <= i < j < live.len() implies turn(
            live,
            Seq::<Touch>::empty(),
            (#[trigger] live[i]).touch.id,
        ) < turn(live, Seq::<Touch>::empty(), (#[trigger] live[j]).touch.id) by {
            seat_is_place(live, i);
            seat_is_place(live, j);
        }
    } else {
        live_is_in_turn(live, events.drop_last());
        let before = live_after(live, events.drop_last());
        let started = arrived_in(events.drop_last());
        match events.last() {
            InputEvent::Touch { id, phase, x, y } => match phase {
                TouchPhase::Started => {
                    lifting_keeps_turns(before, id, live, started);
                    let rest = lifted_off(before, id);
                    let touch = Touch { id, pos: Vec2 { x, y } };
                    let now = rest.push(LiveTouch { touch, moved: false });
                    let more = started.push(touch);
                    assert(more.drop_last() =~= started);
                    assert forall|i: int, j: int| 0 <= i < j < now.len() implies turn(
                        live,
                        more,
                        (#[trigger] now[i]).touch.id,
                    ) < turn(live, more, (#[trigger] now[j]).touch.id) by {
                        assert(now[i] == rest[i]);
                        assert(rest[i].touch.id != id);
                        assert(last_start(more, rest[i].touch.id) == last_start(
                            started,
                            rest[i].touch.id,
                        ));
                        last_start_in_bounds(started, rest[i].touch.id);
                        seat_in_bounds(live, rest[i].touch.id);
                        if j < rest.len() {
                            assert(now[j] == rest[j]);
                            assert(rest[j].touch.id != id);
                            assert(last_start(more, rest[j].touch.id) == last_start(
                                started,
                                rest[j].touch.id,
                            ));
                        } else {
                            assert(last_start(more, id) == started.len());
                        }
                    }
                },
                TouchPhase::Moved => {
                    let now = live_after(live, events);
                    assert forall|i: int, j: int| 0 <= i < j < now.len() implies turn(
                        live,
                        started,
                        (#[trigger] now[i]).touch.id,
                    ) < turn(live, started, (#[trigger] now[j]).touch.id) by {
                        assert(now[i].touch.id == before[i].touch.id);
                        assert(now[j].touch.id == before[j].touch.id);
                    }
                },
                TouchPhase::Ended => {
                    lifting_keeps_turns(before, id, live, started);
                },
            },
            _ => {},
        }
    }
}

proof fn in_turn_is_apart(now: Seq<LiveTouch>, live: Seq<LiveTouch>, started: Seq<Touch>)
    requires
        in_turn(now, live, started),
    ensures
        apart(now),
{
}

/// Two lists in one order with the same fingers are one list.
proof fn one_order_one_list(
    a: Seq<LiveTouch>,
    b: Seq<LiveTouch>,
    live: Seq<LiveTouch>,
    started: Seq<Touch>,
)
    requires
        in_turn(a, live, started),
        in_turn(b, live, started),
        forall|id: u64| #[trigger] found(a, id) == found(b, id),
    ensures
        a == b,
    decreases a.len(),
{
    in_turn_is_apart(a, live, started);
    in_turn_is_apart(b, live, started);
    if a.len() == 0 {
        if b.len() > 0 {
            there_is_found(b, b.len() - 1);
            assert(found(a, b.last().touch.id) == found(b, b.last().touch.id));
        }
        assert(a =~= b);
    } else {
        let x = a.last();
        there_is_found(a, a.len() - 1);
        assert(found(b, x.touch.id) == Some(x));
        found_is_there(b, x.touch.id);
        let at = choose|k: int| 0 <= k < b.len() && #[trigger] b[k] == x;
        let y = b.last();
        there_is_found(b, b.len() - 1);
        assert(found(a, y.touch.id) == Some(y));
        found_is_there(a, y.touch.id);
        let there = choose|k: int| 0 <= k < a.len() && #[trigger] a[k] == y;
        if at < b.len() - 1 {
            assert(turn(live, started, b[at].touch.id) < turn(
                live,
                started,
                b[b.len() - 1].touch.id,
            ));
            if there < a.len() - 1 {
                assert(turn(live, started, a[there].touch.id) < turn(
                    live,
                    started,
                    a[a.len() - 1].touch.id,
                ));
            }
            assert(false);
        }
        assert(x == y);
        let fa = a.drop_last();
        let fb = b.drop_last();
        assert(in_turn(fa, live, started)) by {
            assert forall|i: int, j: int| 0 <= i < j < fa.len() implies turn(
                live,
                started,
                (#[trigger] fa[i]).touch.id,
            ) < turn(live, started, (#[trigger] fa[j]).touch.id) by {
                assert(fa[i] == a[i] && fa[j] == a[j]);
            }
        }
        assert(in_turn(fb, live, started)) by {
            assert forall|i: int, j: int| 0 <= i < j < fb.len() implies turn(
                live,
                started,
                (#[trigger] fb[i]).touch.id,
            ) < turn(live, started, (#[trigger] fb[j]).touch.id) by {
                assert(fb[i] == b[i] && fb[j] == b[j]);
            }
        }
        assert forall|id: u64| #[trigger] found(fa, id) == found(fb, id) by {
            assert(found(a, id) == found(b, id));
            if id == x.touch.id {
                found_is_there(fa, id);
                found_is_there(fb, id);
                if is_live(fa, id) {
                    let k = choose|k: int| 0 <= k < fa.len() && (#[trigger] fa[k]).touch.id == id;
                    assert(a[k].touch.id != a[a.len() - 1].touch.id);
                }
                if is_live(fb, id) {
                    let k = choose|k: int| 0 <= k < fb.len() && (#[trigger] fb[k]).touch.id == id;
                    assert(b[k].touch.id != b[b.len() - 1].touch.id);
                }
            }
        }
        one_order_one_list(fa, fb, live, started);
        assert(a =~= fa.push(x));
        assert(b =~= fb.push(x));
    }
}

// ---------------------------------------------------------------------------
// What a recorded tick says of the fingers
// ---------------------------------------------------------------------------

proof fn finger_after_both(
    a: Seq<InputEvent>,
    b: Seq<InputEvent>,
    id: u64,
    before: Option<LiveTouch>,
)
    ensures
        finger_after(a + b, id, before) == finger_after(b, id, finger_after(a, id, before)),
    decreases b.len(),
{
    if b.len() == 0 {
        assert(a + b =~= a);
    } else {
        finger_after_both(a, b.drop_last(), id, before);
        assert((a + b).drop_last() =~= a + b.drop_last());
        assert((a + b).last() == b.last());
    }
}

proof fn arrived_in_both(a: Seq<InputEvent>, b: Seq<InputEvent>)
    ensures
        arrived_in(a + b) == arrived_in(a) + arrived_in(b),
        departed_in(a + b) == departed_in(a) + departed_in(b),
    decreases b.len(),
{
    if b.len() == 0 {
        assert(a + b =~= a);
        assert(arrived_in(a) + arrived_in(b) =~= arrived_in(a));
        assert(departed_in(a) + departed_in(b) =~= departed_in(a));
    } else {
        arrived_in_both(a, b.drop_last());
        assert((a + b).drop_last() =~= a + b.drop_last());
        assert((a + b).last() == b.last());
        assert(arrived_in(a + b) =~= arrived_in(a) + arrived_in(b));
        assert(departed_in(a + b) =~= departed_in(a) + departed_in(b));
    }
}

proof fn devices_touch_no_finger(events: Seq<InputEvent>, id: u64, before: Option<LiveTouch>)
    requires
        without_fingers(events),
    ensures
        finger_after(events, id, before) == before,
        arrived_in(events) == Seq::<Touch>::empty(),
        departed_in(events) == Seq::<Touch>::empty(),
    decreases events.len(),
{
    if events.len() > 0 {
        let front = events.drop_last();
        assert(events[events.len() - 1] !is Touch);
        assert(without_fingers(front)) by {
            assert forall|i: int| 0 <= i < front.len() implies (#[trigger] front[i]) !is Touch
                && front[i] !is FocusLost by {
                assert(front[i] == events[i]);
            }
        }
        devices_touch_no_finger(front, id, before);
    }
}

proof fn departures_say(
    ended: Seq<Touch>,
    live: Seq<LiveTouch>,
    down: bool,
    id: u64,
    before: Option<LiveTouch>,
)
    ensures
        finger_after(departure_events(ended, live, down), id, before) == if has_id(ended, id)
            && is_live(live, id) == down {
            None
        } else {
            before
        },
        arrived_in(departure_events(ended, live, down)) == Seq::<Touch>::empty(),
        departed_in(departure_events(ended, live, down)) == ended_where(ended, live, down),
    decreases ended.len(),
{
    if ended.len() > 0 {
        departures_say(ended.drop_last(), live, down, id, before);
        has_id_of_last(ended, id);
        let earlier = departure_events(ended.drop_last(), live, down);
        let event = touch_event(ended.last(), TouchPhase::Ended);
        assert(earlier.push(event).drop_last() =~= earlier);
    }
}

proof fn arrivals_say(started: Seq<Touch>, id: u64, before: Option<LiveTouch>)
    ensures
        finger_after(arrival_events(started), id, before) == (match last_place(started, id) {
            Some(pos) => Some(LiveTouch { touch: Touch { id, pos }, moved: false }),
            None => before,
        }),
        arrived_in(arrival_events(started)) == started,
        departed_in(arrival_events(started)) == Seq::<Touch>::empty(),
    decreases started.len(),
{
    if started.len() > 0 {
        arrivals_say(started.drop_last(), id, before);
        assert(arrival_events(started).drop_last() =~= arrival_events(started.drop_last()));
        assert(started.drop_last().push(started.last()) =~= started);
    } else {
        assert(arrived_in(arrival_events(started)) =~= started);
    }
}

proof fn motions_say(live: Seq<LiveTouch>, id: u64, before: Option<LiveTouch>)
    requires
        apart(live),
    ensures
        finger_after(moved_events(live), id, before) == (match found(live, id) {
            Some(t) if t.moved && before is Some => Some(t),
            _ => before,
        }),
        arrived_in(moved_events(live)) == Seq::<Touch>::empty(),
        departed_in(moved_events(live)) == Seq::<Touch>::empty(),
    decreases live.len(),
{
    if live.len() > 0 {
        let front = live.drop_last();
        assert(apart(front)) by {
            assert forall|a: int, b: int| 0 <= a < b < front.len() implies (
            #[trigger] front[a]).touch.id != (#[trigger] front[b]).touch.id by {
                assert(front[a] == live[a] && front[b] == live[b]);
            }
        }
        motions_say(front, id, before);
        let earlier = moved_events(front);
        let event = touch_event(live.last().touch, TouchPhase::Moved);
        assert(earlier.push(event).drop_last() =~= earlier);
        if live.last().touch.id == id {
            found_is_there(front, id);
            if is_live(front, id) {
                let k = choose|k: int| 0 <= k < front.len() && (#[trigger] front[k]).touch.id == id;
                assert(live[k].touch.id != live[live.len() - 1].touch.id);
            }
        }
    }
}

/// What is true of a finger behind any events, of what they say of it.
proof fn a_finger_behind(events: Seq<InputEvent>, id: u64, before: Option<LiveTouch>)
    requires
        before matches Some(t) ==> t.touch.id == id && !t.moved,
    ensures
        ({
            let now = finger_after(events, id, before);
            let arrived = last_place(arrived_in(events), id);
            let left = has_id(departed_in(events), id);
            &&& now matches Some(t) ==> t.touch.id == id && (!t.moved ==> if arrived is Some {
                Some(t.touch.pos) == arrived
            } else {
                now == before
            })
            &&& now is Some && arrived is None ==> before is Some && !left
            &&& now is None && !left ==> arrived is None && before is None
        }),
    decreases events.len(),
{
    if events.len() > 0 {
        let front = events.drop_last();
        a_finger_behind(front, id, before);
        match events.last() {
            InputEvent::Touch { id: i, phase, x, y } => {
                let touch = Touch { id: i, pos: Vec2 { x, y } };
                match phase {
                    TouchPhase::Started => {
                        assert(arrived_in(front).push(touch).drop_last() =~= arrived_in(front));
                    },
                    TouchPhase::Ended => {
                        let more = departed_in(front).push(touch);
                        assert(more.drop_last() =~= departed_in(front));
                        has_id_of_last(more, id);
                    },
                    TouchPhase::Moved => {},
                }
            },
            _ => {},
        }
    }
}

proof fn rested_is_rested(live: Seq<LiveTouch>, id: u64)
    ensures
        found(rested(live), id) matches Some(t) ==> t.touch.id == id && !t.moved,
        apart(live) ==> apart(rested(live)),
    decreases live.len(),
{
    let all = rested(live);
    if apart(live) {
        assert forall|a: int, b: int| 0 <= a < b < all.len() implies (
        #[trigger] all[a]).touch.id != (#[trigger] all[b]).touch.id by {
            assert(live[a].touch.id != live[b].touch.id);
        }
    }
    if live.len() > 0 {
        rested_is_rested(live.drop_last(), id);
        assert(all.drop_last() =~= rested(live.drop_last()));
    }
}

/// Replaying a recorded tick gives the fingers of the tick: those that are down, in the
/// same order and at the same places, those that arrived, and those that left.
pub proof fn replay_keeps_the_fingers(before: Input, input: Input, events: Seq<InputEvent>)
    requires
        apart(before.live@),
        touched(before, input, events),
    ensures
        arrived_in(tick_events(input)) == input.started@,
        departed_in(tick_events(input)) == ended_where(input.ended@, input.live@, true)
            + ended_where(input.ended@, input.live@, false),
        live_after(rested(before.live@), tick_events(input)) == input.live@,
        apart(input.live@),
{
    let start = rested(before.live@);
    rested_is_rested(before.live@, 0);
    live_is_in_turn(start, events);
    in_turn_is_apart(input.live@, start, input.started@);

    let devices = device_events(input);
    let gone = departure_events(input.ended@, input.live@, true);
    let here = arrival_events(input.started@);
    let moved = moved_events(input.live@);
    let left = departure_events(input.ended@, input.live@, false);
    devices_are_no_fingers(input);
    devices_touch_no_finger(devices, 0, None);
    departures_say(input.ended@, input.live@, true, 0, None);
    departures_say(input.ended@, input.live@, false, 0, None);
    arrivals_say(input.started@, 0, None);
    motions_say(input.live@, 0, None);
    arrived_in_both(gone, here);
    arrived_in_both(gone + here, moved);
    arrived_in_both(gone + here + moved, left);
    arrived_in_both(devices, touch_events(input));
    assert(arrived_in(tick_events(input)) =~= input.started@);
    assert(departed_in(tick_events(input)) =~= ended_where(input.ended@, input.live@, true)
        + ended_where(input.ended@, input.live@, false));

    let again = live_after(start, tick_events(input));
    live_is_in_turn(start, tick_events(input));
    assert forall|id: u64| #[trigger] found(again, id) == found(input.live@, id) by {
        let b = found(start, id);
        each_goes_its_way(start, events, id);
        each_goes_its_way(start, tick_events(input), id);
        rested_is_rested(before.live@, id);
        a_finger_behind(events, id, b);
        found_is_there(input.live@, id);
        finger_after_both(devices, touch_events(input), id, b);
        devices_touch_no_finger(devices, id, b);
        finger_after_both(gone, here, id, b);
        finger_after_both(gone + here, moved, id, b);
        finger_after_both(gone + here + moved, left, id, b);
        departures_say(input.ended@, input.live@, true, id, b);
        let after_gone = finger_after(gone, id, b);
        arrivals_say(input.started@, id, after_gone);
        let after_here = finger_after(here, id, after_gone);
        motions_say(input.live@, id, after_here);
        let after_moved = finger_after(moved, id, after_here);
        departures_say(input.ended@, input.live@, false, id, after_moved);
    }
    one_order_one_list(again, input.live@, start, input.started@);
}

// ---------------------------------------------------------------------------
// A tick, and a run
// ---------------------------------------------------------------------------

proof fn groups_regroup(ended: Seq<Touch>, live: Seq<LiveTouch>, down: bool)
    ensures
        departure_events(ended_where(ended, live, down), live, down) == departure_events(
            ended,
            live,
            down,
        ),
        departure_events(ended_where(ended, live, down), live, !down) == Seq::<
            InputEvent,
        >::empty(),
    decreases ended.len(),
{
    if ended.len() > 0 {
        groups_regroup(ended.drop_last(), live, down);
        let before = ended_where(ended.drop_last(), live, down);
        assert(before.push(ended.last()).drop_last() =~= before);
    }
}

proof fn departures_of_both(a: Seq<Touch>, b: Seq<Touch>, live: Seq<LiveTouch>, down: bool)
    ensures
        departure_events(a + b, live, down) == departure_events(a, live, down) + departure_events(
            b,
            live,
            down,
        ),
    decreases b.len(),
{
    if b.len() == 0 {
        assert(a + b =~= a);
        assert(departure_events(a, live, down) + departure_events(b, live, down)
            =~= departure_events(a, live, down));
    } else {
        departures_of_both(a, b.drop_last(), live, down);
        assert((a + b).drop_last() =~= a + b.drop_last());
        assert((a + b).last() == b.last());
        assert(departure_events(a + b, live, down) =~= departure_events(a, live, down)
            + departure_events(b, live, down));
    }
}

/// Inputs that are the same are recorded as the same events.
pub proof fn same_inputs_record_alike(a: Input, b: Input)
    requires
        same_input(a, b),
    ensures
        tick_events(a) == tick_events(b),
{
    let again = ended_where(a.ended@, a.live@, true);
    let other = ended_where(a.ended@, a.live@, false);
    groups_regroup(a.ended@, a.live@, true);
    groups_regroup(a.ended@, a.live@, false);
    departures_of_both(again, other, a.live@, true);
    departures_of_both(again, other, a.live@, false);
    assert(departure_events(b.ended@, a.live@, true) =~= departure_events(
        a.ended@,
        a.live@,
        true,
    ));
    assert(departure_events(b.ended@, a.live@, false) =~= departure_events(
        a.ended@,
        a.live@,
        false,
    ));
}

/// Whether two input states hold the same: what a tick behind them depends on.
pub open spec fn same_state(a: Input, b: Input) -> bool {
    &&& a.keys@ == b.keys@
    &&& a.buttons@ == b.buttons@
    &&& a.pad@ == b.pad@
    &&& a.sticks@ == b.sticks@
    &&& a.triggers@ == b.triggers@
    &&& a.drive == b.drive
    &&& a.live@ == b.live@
}

/// A tick that is replayed behind the state that it was recorded behind gives the input
/// that was recorded.
pub proof fn a_tick_replays(before: Input, input: Input, replayed_before: Input, replayed: Input)
    requires
        one_entry_each(before),
        apart(before.live@),
        follows(before, input),
        same_state(before, replayed_before),
        heeds(replayed_before, tick_events(input), replayed),
    ensures
        same_input(input, replayed),
        one_entry_each(input),
        apart(input.live@),
{
    reveal(heeds);
    reveal(follows);
    assert(one_entry_each(input)) by {
        assert forall|i: int, j: int| 0 <= i < j < input.keys@.len() implies (
        #[trigger] input.keys@[i]).0 != (#[trigger] input.keys@[j]).0 by {
            assert(before.keys@[i].0 != before.keys@[j].0);
        }
        assert forall|i: int, j: int| 0 <= i < j < input.buttons@.len() implies (
        #[trigger] input.buttons@[i]).0 != (#[trigger] input.buttons@[j]).0 by {
            assert(before.buttons@[i].0 != before.buttons@[j].0);
        }
        assert forall|i: int, j: int| 0 <= i < j < input.pad@.len() implies (
        #[trigger] input.pad@[i]).0 != (#[trigger] input.pad@[j]).0 by {
            assert(before.pad@[i].0 != before.pad@[j].0);
        }
        assert forall|i: int, j: int| 0 <= i < j < input.sticks@.len() implies (
        #[trigger] input.sticks@[i]).0 != (#[trigger] input.sticks@[j]).0 by {
            assert(before.sticks@[i].0 != before.sticks@[j].0);
        }
        assert forall|i: int, j: int| 0 <= i < j < input.triggers@.len() implies (
        #[trigger] input.triggers@[i]).0 != (#[trigger] input.triggers@[j]).0 by {
            assert(before.triggers@[i].0 != before.triggers@[j].0);
        }
    }
    a_replayed_tick_says_what_was_recorded(input);
    let events = tick_events(input);
    assert forall|i: int| 0 <= i < input.keys@.len() implies #[trigger] replayed.keys@[i]
        == input.keys@[i] by {
        assert(said_of(events, Device::Key(input.keys@[i].0)) == edges_said(
            input.keys@[i].1,
        ));
        replay_keeps_edges(input.keys@[i].1, before.keys@[i].1.held);
    }
    assert(replayed.keys@ =~= input.keys@);
    assert forall|i: int| 0 <= i < input.buttons@.len() implies #[trigger] replayed.buttons@[i]
        == input.buttons@[i] by {
        assert(said_of(events, Device::Button(input.buttons@[i].0))
            == edges_said(input.buttons@[i].1));
        replay_keeps_edges(input.buttons@[i].1, before.buttons@[i].1.held);
    }
    assert(replayed.buttons@ =~= input.buttons@);
    assert forall|i: int| 0 <= i < input.pad@.len() implies #[trigger] replayed.pad@[i]
        == input.pad@[i] by {
        assert(said_of(events, Device::Pad(input.pad@[i].0)) == edges_said(
            input.pad@[i].1,
        ));
        replay_keeps_edges(input.pad@[i].1, before.pad@[i].1.held);
    }
    assert(replayed.pad@ =~= input.pad@);
    assert forall|i: int| 0 <= i < input.sticks@.len() implies #[trigger] replayed.sticks@[i]
        == input.sticks@[i] by {
        assert(said_of(events, Device::Stick(input.sticks@[i].0))
            == level_said(input.sticks@[i].1));
        replay_keeps_levels(input.sticks@[i].1, before.sticks@[i].1.dir);
    }
    assert(replayed.sticks@ =~= input.sticks@);
    assert forall|i: int| 0 <= i < input.triggers@.len() implies #[trigger] replayed.triggers@[i]
        == input.triggers@[i] by {
        assert(said_of(events, Device::Trigger(input.triggers@[i].0))
            == trigger_said(input.triggers@[i].1, input.triggers@[i].2));
    }
    assert(replayed.triggers@ =~= input.triggers@);
    replay_keeps_levels(input.drive, before.drive.dir);
    let host = choose|host: Seq<InputEvent>| #[trigger] touched(before, input, host);
    replay_keeps_the_fingers(before, input, host);
}

/// Whether `saying` is one that a key or a button is spoken of by.
spec fn of_edges(saying: Saying) -> bool {
    saying is Down || saying is Up
}

/// Keys and buttons are only ever said to go down or up.
proof fn edges_are_said(events: Seq<InputEvent>, device: Device)
    requires
        device is Key || device is Button || device is Pad,
    ensures
        forall|i: int|
            0 <= i < said_of(events, device).len() ==> of_edges(#[trigger] said_of(events, device)[i]),
    decreases events.len(),
{
    if events.len() > 0 {
        edges_are_said(events.drop_last(), device);
        let before = said_of(events.drop_last(), device);
        let now = said_of(events, device);
        assert forall|i: int| 0 <= i < now.len() implies of_edges(#[trigger] now[i]) by {
            if i < before.len() {
                assert(now[i] == before[i]);
            } else {
                assert(said(events.last()) == Some((device, now[i])));
            }
        }
    }
}

proof fn edges_after_follow(sayings: Seq<Saying>, before: bool)
    requires
        forall|i: int| 0 <= i < sayings.len() ==> of_edges(#[trigger] sayings[i]),
    ensures
        edges_follow(edges_after(sayings, before), before),
{
    if sayings.len() > 0 {
        let last = sayings[sayings.len() - 1];
        assert(of_edges(last));
        assert(sayings.contains(last));
    }
}

/// What a host's events make of an input state can have come behind it, so that a run
/// made of such ticks is one that replays. A motion that comes to minus zero is left out:
/// nothing is recorded of it, and a replay has it at zero.
pub proof fn what_is_heeded_follows(before: Input, events: Seq<InputEvent>, after: Input)
    requires
        heeds(before, events, after),
        motion_said(after.mouse_delta).len() == 0 ==> after.mouse_delta == (Vec2 {
            x: F32(0),
            y: F32(0),
        }),
        wheel_said(after.wheel).len() == 0 ==> after.wheel == F32(0),
    ensures
        follows(before, after),
{
    reveal(heeds);
    reveal(follows);
    assert forall|i: int| 0 <= i < before.keys@.len() implies (#[trigger] after.keys@[i]).0
        == before.keys@[i].0 && edges_follow(after.keys@[i].1, before.keys@[i].1.held) by {
        let device = Device::Key(before.keys@[i].0);
        edges_are_said(events, device);
        edges_after_follow(said_of(events, device), before.keys@[i].1.held);
    }
    assert forall|i: int| 0 <= i < before.buttons@.len() implies (#[trigger] after.buttons@[i]).0
        == before.buttons@[i].0 && edges_follow(
        after.buttons@[i].1,
        before.buttons@[i].1.held,
    ) by {
        let device = Device::Button(before.buttons@[i].0);
        edges_are_said(events, device);
        edges_after_follow(said_of(events, device), before.buttons@[i].1.held);
    }
    assert forall|i: int| 0 <= i < before.pad@.len() implies (#[trigger] after.pad@[i]).0
        == before.pad@[i].0 && edges_follow(after.pad@[i].1, before.pad@[i].1.held) by {
        let device = Device::Pad(before.pad@[i].0);
        edges_are_said(events, device);
        edges_after_follow(said_of(events, device), before.pad@[i].1.held);
    }
    assert(touched(before, after, events));
}

/// The trace of a run: every tick's events, stamped with its number.
pub open spec fn trace_of(inputs: Seq<Input>, n: int) -> Seq<TickEvent>
    decreases n,
{
    if n <= 0 {
        Seq::empty()
    } else {
        trace_of(inputs, n - 1) + stamped(tick_events(inputs[n - 1]), (n - 1) as u64)
    }
}

/// The input behind which tick `k` comes: the tick before it, or the state that the run
/// began from.
pub open spec fn state_before(start: Input, inputs: Seq<Input>, k: int) -> Input {
    if k <= 0 {
        start
    } else {
        inputs[k - 1]
    }
}

proof fn trace_reads_back(inputs: Seq<Input>, n: int, k: int)
    requires
        0 <= n <= inputs.len() <= u64::MAX,
        0 <= k,
        k <= u64::MAX,
    ensures
        at_tick(trace_of(inputs, n), k as u64) == if k < n {
            tick_events(inputs[k])
        } else {
            Seq::<InputEvent>::empty()
        },
    decreases n,
{
    if n > 0 {
        trace_reads_back(inputs, n - 1, k);
        let events = tick_events(inputs[n - 1]);
        at_tick_append(trace_of(inputs, n - 1), stamped(events, (n - 1) as u64), k as u64);
        at_tick_stamped(events, (n - 1) as u64, k as u64);
        assert(Seq::<InputEvent>::empty() + events =~= events);
        if k < n - 1 {
            assert(tick_events(inputs[k]) + Seq::<InputEvent>::empty() =~= tick_events(inputs[k]));
        } else if k > n - 1 {
            assert(Seq::<InputEvent>::empty() + Seq::<InputEvent>::empty() =~= Seq::<
                InputEvent,
            >::empty());
        }
    }
}

/// A recorded run replays: an input state that began as the run's did, and is given at
/// every tick what the trace has for it and nothing else, is at every tick the input that
/// was recorded; and recording the replay gives the trace again, event by event.
pub proof fn a_run_replays(start: Input, inputs: Seq<Input>, replayed: Seq<Input>, n: int)
    requires
        one_entry_each(start),
        apart(start.live@),
        inputs.len() == replayed.len(),
        0 <= n <= inputs.len() <= u64::MAX,
        forall|k: int|
            0 <= k < inputs.len() ==> follows(
                state_before(start, inputs, k),
                #[trigger] inputs[k],
            ),
        forall|k: int|
            0 <= k < inputs.len() ==> heeds(
                state_before(start, replayed, k),
                at_tick(trace_of(inputs, inputs.len() as int), k as u64),
                #[trigger] replayed[k],
            ),
    ensures
        forall|k: int| 0 <= k < n ==> same_input(#[trigger] inputs[k], replayed[k]),
        trace_of(replayed, n) == trace_of(inputs, n),
        one_entry_each(state_before(start, inputs, n)),
        apart(state_before(start, inputs, n).live@),
        same_state(state_before(start, inputs, n), state_before(start, replayed, n)),
    decreases n,
{
    if n > 0 {
        a_run_replays(start, inputs, replayed, n - 1);
        let k = n - 1;
        trace_reads_back(inputs, inputs.len() as int, k);
        assert(follows(state_before(start, inputs, k), inputs[k]));
        assert(heeds(
            state_before(start, replayed, k),
            at_tick(trace_of(inputs, inputs.len() as int), k as u64),
            replayed[k],
        ));
        a_tick_replays(
            state_before(start, inputs, k),
            inputs[k],
            state_before(start, replayed, k),
            replayed[k],
        );
        same_inputs_record_alike(inputs[k], replayed[k]);
    }
}

/// Whether what an input state makes of some events is decided by what it was and by
/// them.
pub open spec fn is_settled<B: Fn(&Input, Vec<InputEvent>) -> Input>(begin: B) -> bool {
    forall|a: Input, b: Input, e: Vec<InputEvent>, f: Vec<InputEvent>, x: Input, y: Input|
        #![trigger begin.ensures((&a, e), x), begin.ensures((&b, f), y)]
        alike(a, b) && e@ == f@ && begin.ensures((&a, e), x) && begin.ensures((&b, f), y) ==> alike(
            x,
            y,
        )
}

/// A replayed tick's input is the replay's own: two simulations that replay the same
/// events from the same state have the same input in the tick, whatever was pushed to
/// them and whatever their input was before; and their replays go on from the same state.
pub proof fn a_replay_takes_nothing_from_the_host<B: Fn(&Input, Vec<InputEvent>) -> Input>(
    begin: B,
    a: Sim,
    a_after: Sim,
    b: Sim,
    b_after: Sim,
)
    requires
        is_settled(begin),
        a.playback is Some,
        b.playback is Some,
        a.playback->0@.events == b.playback->0@.events,
        alike(a.playback->0@.state, b.playback->0@.state),
        a.ticks == b.ticks,
        ticked(begin, a, a_after),
        ticked(begin, b, b_after),
    ensures
        alike(a_after.input, b_after.input),
        alike(a_after.playback->0@.state, b_after.playback->0@.state),
        a_after.playback->0@.events == a.playback->0@.events,
{
    let (p, q) = (a.playback->0@, b.playback->0@);
    let (p2, q2) = (a_after.playback->0@, b_after.playback->0@);
    let e = choose|e: Vec<InputEvent>|
        e@ == at_tick(p.events, a.ticks) && #[trigger] begin.ensures((&p.state, e), p2.state);
    let f = choose|f: Vec<InputEvent>|
        f@ == at_tick(q.events, b.ticks) && #[trigger] begin.ensures((&q.state, f), q2.state);
    assert(begin.ensures((&p.state, e), p2.state) && begin.ensures((&q.state, f), q2.state));
}

/// A replay begins with nothing pressed, held or touched: what the devices are doing when
/// it begins makes no difference to it.
pub proof fn a_replay_begins_at_rest(a: Input, b: Input, of_a: Input, of_b: Input)
    requires
        same_devices(a, b),
        at_rest(a, of_a),
        at_rest(b, of_b),
    ensures
        alike(of_a, of_b),
{
    assert(of_a.keys@ =~= of_b.keys@) by {
        let (s, t) = (a.keys@, b.keys@);
        let (u, v) = (s.map_values(|k: (Key, Edges)| k.0), t.map_values(|k: (Key, Edges)| k.0));
        assert(u.len() == s.len() && v.len() == t.len());
        assert forall|i: int| 0 <= i < s.len() implies s[i].0 == t[i].0 by {
            assert(u[i] == v[i]);
        }
    }
    assert(of_a.buttons@ =~= of_b.buttons@) by {
        let (s, t) = (a.buttons@, b.buttons@);
        let (u, v) = (s.map_values(|k: (u8, Edges)| k.0), t.map_values(|k: (u8, Edges)| k.0));
        assert(u.len() == s.len() && v.len() == t.len());
        assert forall|i: int| 0 <= i < s.len() implies s[i].0 == t[i].0 by {
            assert(u[i] == v[i]);
        }
    }
    assert(of_a.pad@ =~= of_b.pad@) by {
        let (s, t) = (a.pad@, b.pad@);
        let (u, v) = (
            s.map_values(|k: (PadButton, Edges)| k.0),
            t.map_values(|k: (PadButton, Edges)| k.0),
        );
        assert(u.len() == s.len() && v.len() == t.len());
        assert forall|i: int| 0 <= i < s.len() implies s[i].0 == t[i].0 by {
            assert(u[i] == v[i]);
        }
    }
    assert(of_a.sticks@ =~= of_b.sticks@) by {
        let (s, t) = (a.sticks@, b.sticks@);
        let (u, v) = (
            s.map_values(|k: (PadStick, Level)| k.0),
            t.map_values(|k: (PadStick, Level)| k.0),
        );
        assert(u.len() == s.len() && v.len() == t.len());
        assert forall|i: int| 0 <= i < s.len() implies s[i].0 == t[i].0 by {
            assert(u[i] == v[i]);
        }
    }
    assert(of_a.triggers@ =~= of_b.triggers@) by {
        let (s, t) = (a.triggers@, b.triggers@);
        let (u, v) = (
            s.map_values(|k: (PadTrigger, F32, bool)| k.0),
            t.map_values(|k: (PadTrigger, F32, bool)| k.0),
        );
        assert(u.len() == s.len() && v.len() == t.len());
        assert forall|i: int| 0 <= i < s.len() implies s[i].0 == t[i].0 by {
            assert(u[i] == v[i]);
        }
    }
    assert(of_a.started@ =~= of_b.started@);
    assert(of_a.live@ =~= of_b.live@);
    assert(of_a.ended@ =~= of_b.ended@);
}

/// Whether an input state makes of events what [`heeds`] says.
pub open spec fn is_heedful<B: Fn(&Input, Vec<InputEvent>) -> Input>(begin: B) -> bool {
    forall|state: Input, events: Vec<InputEvent>, after: Input| #[trigger]
        begin.ensures((&state, events), after) ==> heeds(state, events@, after)
}

/// A simulation replays a recorded run: `sims` are it before the first tick and behind
/// each, replaying from the state that the run began from, and at every tick its input is
/// the one that was recorded, whatever its host pushes.
pub proof fn a_sim_replays_a_run<B: Fn(&Input, Vec<InputEvent>) -> Input>(
    begin: B,
    inputs: Seq<Input>,
    sims: Seq<Sim>,
)
    requires
        is_heedful(begin),
        sims.len() == inputs.len() + 1,
        inputs.len() <= u64::MAX,
        sims[0].ticks == 0,
        sims[0].playback is Some,
        sims[0].playback->0@.events == trace_of(inputs, inputs.len() as int),
        one_entry_each(sims[0].playback->0@.state),
        apart(sims[0].playback->0@.state.live@),
        forall|k: int|
            0 <= k < inputs.len() ==> follows(
                state_before(sims[0].playback->0@.state, inputs, k),
                #[trigger] inputs[k],
            ),
        forall|k: int| 0 <= k < inputs.len() ==> ticked(begin, #[trigger] sims[k], sims[k + 1]),
    ensures
        forall|k: int| 0 <= k < inputs.len() ==> same_input(#[trigger] inputs[k], sims[k + 1].input),
{
    let n = inputs.len() as int;
    let start = sims[0].playback->0@.state;
    let replay = Seq::new(n as nat, |k: int| sims[k + 1].playback->0@.state);
    assert forall|k: int| 0 <= k < n implies heeds(
        state_before(start, replay, k),
        at_tick(trace_of(inputs, n), k as u64),
        #[trigger] replay[k],
    ) by {
        sims_go_on(begin, inputs, sims, k);
        assert(ticked(begin, sims[k], sims[k + 1]));
        let (p, q) = (sims[k].playback->0@, sims[k + 1].playback->0@);
        let e = choose|e: Vec<InputEvent>|
            e@ == at_tick(p.events, sims[k].ticks) && #[trigger] begin.ensures(
                (&p.state, e),
                q.state,
            );
        assert(heeds(p.state, e@, q.state));
        if k > 0 {
            assert(replay[k - 1] == sims[k - 1 + 1].playback->0@.state);
        }
    }
    a_run_replays(start, inputs, replay, n);
    assert forall|k: int| 0 <= k < n implies same_input(
        #[trigger] inputs[k],
        sims[k + 1].input,
    ) by {
        sims_go_on(begin, inputs, sims, k);
        assert(ticked(begin, sims[k], sims[k + 1]));
        assert(same_input(inputs[k], replay[k]));
        assert(alike(replay[k], sims[k + 1].input));
    }
}

/// The tick count goes up by one with every tick that is run: of as many as an update has
/// due, by that many.
pub proof fn ticks_are_counted<B: Fn(&Input, Vec<InputEvent>) -> Input>(
    begin: B,
    sims: Seq<Sim>,
    due: int,
)
    requires
        sims.len() == due + 1,
        0 <= due,
        forall|k: int| 0 <= k < due ==> ticked(begin, #[trigger] sims[k], sims[k + 1]),
    ensures
        sims[due].ticks == sims[0].ticks + due,
    decreases due,
{
    if due > 0 {
        let front = sims.drop_last();
        assert forall|k: int| 0 <= k < due - 1 implies ticked(
            begin,
            #[trigger] front[k],
            front[k + 1],
        ) by {
            assert(ticked(begin, sims[k], sims[k + 1]));
        }
        ticks_are_counted(begin, front, due - 1);
        assert(ticked(begin, sims[due - 1], sims[due - 1 + 1]));
    }
}

/// Before tick `k` there were `k` ticks, and the trace is the one that it was.
proof fn sims_go_on<B: Fn(&Input, Vec<InputEvent>) -> Input>(
    begin: B,
    inputs: Seq<Input>,
    sims: Seq<Sim>,
    k: int,
)
    requires
        0 <= k < inputs.len(),
        sims.len() == inputs.len() + 1,
        sims[0].ticks == 0,
        sims[0].playback is Some,
        forall|k: int| 0 <= k < inputs.len() ==> ticked(begin, #[trigger] sims[k], sims[k + 1]),
    ensures
        sims[k].ticks == k,
        sims[k].playback is Some,
        sims[k].playback->0@.events == sims[0].playback->0@.events,
    decreases k,
{
    if k > 0 {
        sims_go_on(begin, inputs, sims, k - 1);
        assert(ticked(begin, sims[k - 1], sims[k - 1 + 1]));
    }
}

} // verus!
