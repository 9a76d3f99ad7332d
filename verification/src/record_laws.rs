//! What a tick is recorded as, said of its input: everything that happened in it is
//! there, nothing else is, and a trace gives each tick exactly the events that it has
//! for it.

use vstd::prelude::*;
use crate::float::{F32, is_nan, rank};
use crate::input::{
    Edges, Input, InputEvent, Key, Level, LiveTouch, PadButton, PadStick, PadTrigger, Touch,
    TouchPhase, is_live,
};
use crate::sim::{Sim, ticked};
use crate::trace::{
    TickEvent, arrival_events, at_tick, button_events, departure_events, drive_events, edge_events,
    in_tick_order, key_events, motion_events, moved_events, pad_events, paired, sorts, stamped,
    stick_events, tick_events, ticks_left, touch_events, trigger_events, wheel_events,
};

verus! {

/// Whether an event says what happened in a tick: a key or a button that went down or up
/// in it, a mouse or a wheel that moved, a stick or a trigger that was moved, or a finger
/// that arrived, moved or left.
pub open spec fn happened(input: Input, event: InputEvent) -> bool {
    match event {
        InputEvent::KeyDown(key) => exists|i: int|
            0 <= i < input.keys@.len() && (#[trigger] input.keys@[i]).0 == key
                && input.keys@[i].1.pressed,
        InputEvent::KeyUp(key) => exists|i: int|
            0 <= i < input.keys@.len() && (#[trigger] input.keys@[i]).0 == key
                && input.keys@[i].1.released,
        InputEvent::MouseButton { button, pressed } => exists|i: int|
            0 <= i < input.buttons@.len() && (#[trigger] input.buttons@[i]).0 == button && if pressed {
                input.buttons@[i].1.pressed
            } else {
                input.buttons@[i].1.released
            },
        InputEvent::MouseMove { dx, dy } => {
            &&& dx == input.mouse_delta.x
            &&& dy == input.mouse_delta.y
            &&& is_nan(dx) || rank(dx) != 0 || is_nan(dy) || rank(dy) != 0
        },
        InputEvent::Wheel { dy } => dy == input.wheel && (is_nan(dy) || rank(dy) != 0),
        InputEvent::TouchDrive { dir } => dir == input.drive.dir && input.drive.changed,
        InputEvent::PadButton { button, pressed } => exists|i: int|
            0 <= i < input.pad@.len() && (#[trigger] input.pad@[i]).0 == button && if pressed {
                input.pad@[i].1.pressed
            } else {
                input.pad@[i].1.released
            },
        InputEvent::PadStick { stick, dir } => exists|i: int|
            0 <= i < input.sticks@.len() && (#[trigger] input.sticks@[i]).0 == stick
                && input.sticks@[i].1.dir == dir && input.sticks@[i].1.changed,
        InputEvent::PadTrigger { trigger, value } => exists|i: int|
            0 <= i < input.triggers@.len() && (#[trigger] input.triggers@[i]).0 == trigger
                && input.triggers@[i].1 == value && input.triggers@[i].2,
        InputEvent::Touch { id, phase, x, y } => match phase {
            TouchPhase::Started => exists|i: int|
                0 <= i < input.started@.len() && (#[trigger] input.started@[i]).id == id
                    && input.started@[i].pos.x == x && input.started@[i].pos.y == y,
            TouchPhase::Moved => exists|i: int|
                0 <= i < input.live@.len() && (#[trigger] input.live@[i]).touch.id == id
                    && input.live@[i].touch.pos.x == x && input.live@[i].touch.pos.y == y
                    && input.live@[i].moved,
            TouchPhase::Ended => exists|i: int|
                0 <= i < input.ended@.len() && (#[trigger] input.ended@[i]).id == id
                    && input.ended@[i].pos.x == x && input.ended@[i].pos.y == y,
        },
        InputEvent::FocusLost => false,
    }
}

proof fn in_either<T>(a: Seq<T>, b: Seq<T>, x: T)
    ensures
        (a + b).contains(x) <==> a.contains(x) || b.contains(x),
{
    if a.contains(x) {
        assert((a + b)[a.index_of(x)] == x);
    }
    if b.contains(x) {
        assert((a + b)[a.len() + b.index_of(x)] == x);
    }
    if (a + b).contains(x) {
        let k = (a + b).index_of(x);
        if k < a.len() {
            assert(a[k] == x);
        } else {
            assert(b[k - a.len()] == x);
        }
    }
}

proof fn in_pushed<T>(a: Seq<T>, last: T, x: T)
    ensures
        a.push(last).contains(x) <==> a.contains(x) || x == last,
{
    if a.contains(x) {
        assert(a.push(last)[a.index_of(x)] == x);
    }
    assert(a.push(last)[a.len() as int] == last);
    if a.push(last).contains(x) {
        let k = a.push(last).index_of(x);
        if k < a.len() {
            assert(a[k] == x);
        }
    }
}

proof fn in_edges(edges: Edges, down: InputEvent, up: InputEvent, x: InputEvent)
    ensures
        edge_events(edges, down, up).contains(x) <==> (edges.pressed && x == down) || (edges.released
            && x == up),
{
    let s = edge_events(edges, down, up);
    if s.len() > 0 {
        assert(s.contains(s[0]));
    }
    if s.len() > 1 {
        assert(s.contains(s[1]));
    }
}

proof fn in_keys(keys: Seq<(Key, Edges)>, x: InputEvent)
    ensures
        key_events(keys).contains(x) <==> exists|i: int|
            0 <= i < keys.len() && ((x == InputEvent::KeyDown((#[trigger] keys[i]).0)
                && keys[i].1.pressed) || (x == InputEvent::KeyUp(keys[i].0) && keys[i].1.released)),
    decreases keys.len(),
{
    if keys.len() > 0 {
        let front = keys.drop_last();
        let n = front.len() as int;
        in_keys(front, x);
        let (key, edges) = keys.last();
        in_edges(edges, InputEvent::KeyDown(key), InputEvent::KeyUp(key), x);
        in_either(
            key_events(front),
            edge_events(edges, InputEvent::KeyDown(key), InputEvent::KeyUp(key)),
            x,
        );
        assert forall|i: int| 0 <= i < n implies #[trigger] keys[i] == front[i] by {}
        assert(keys[n] == keys.last());
        if key_events(front).contains(x) {
            let i = choose|i: int|
                0 <= i < front.len() && ((x == InputEvent::KeyDown((#[trigger] front[i]).0)
                    && front[i].1.pressed) || (x == InputEvent::KeyUp(front[i].0)
                    && front[i].1.released));
            assert(keys[i] == front[i]);
        }
        if exists|i: int|
            0 <= i < keys.len() && ((x == InputEvent::KeyDown((#[trigger] keys[i]).0)
                && keys[i].1.pressed) || (x == InputEvent::KeyUp(keys[i].0) && keys[i].1.released)) {
            let i = choose|i: int|
                0 <= i < keys.len() && ((x == InputEvent::KeyDown((#[trigger] keys[i]).0)
                    && keys[i].1.pressed) || (x == InputEvent::KeyUp(keys[i].0)
                    && keys[i].1.released));
            if i < n {
                assert(front[i] == keys[i]);
            }
        }
    }
}

proof fn in_buttons(buttons: Seq<(u8, Edges)>, x: InputEvent)
    ensures
        button_events(buttons).contains(x) <==> exists|i: int|
            0 <= i < buttons.len() && ((x == InputEvent::MouseButton {
                button: (#[trigger] buttons[i]).0,
                pressed: true,
            } && buttons[i].1.pressed) || (x == InputEvent::MouseButton {
                button: buttons[i].0,
                pressed: false,
            } && buttons[i].1.released)),
    decreases buttons.len(),
{
    if buttons.len() > 0 {
        let front = buttons.drop_last();
        let n = front.len() as int;
        in_buttons(front, x);
        let (button, edges) = buttons.last();
        let down = InputEvent::MouseButton { button, pressed: true };
        let up = InputEvent::MouseButton { button, pressed: false };
        in_edges(edges, down, up, x);
        in_either(button_events(front), edge_events(edges, down, up), x);
        assert forall|i: int| 0 <= i < n implies #[trigger] buttons[i] == front[i] by {}
        assert(buttons[n] == buttons.last());
        if button_events(front).contains(x) {
            let i = choose|i: int|
                0 <= i < front.len() && ((x == InputEvent::MouseButton {
                    button: (#[trigger] front[i]).0,
                    pressed: true,
                } && front[i].1.pressed) || (x == InputEvent::MouseButton {
                    button: front[i].0,
                    pressed: false,
                } && front[i].1.released));
            assert(buttons[i] == front[i]);
        }
        if exists|i: int|
            0 <= i < n && ((x == InputEvent::MouseButton {
                button: (#[trigger] buttons[i]).0,
                pressed: true,
            } && buttons[i].1.pressed) || (x == InputEvent::MouseButton {
                button: buttons[i].0,
                pressed: false,
            } && buttons[i].1.released)) {
            let i = choose|i: int|
                0 <= i < n && ((x == InputEvent::MouseButton {
                    button: (#[trigger] buttons[i]).0,
                    pressed: true,
                } && buttons[i].1.pressed) || (x == InputEvent::MouseButton {
                    button: buttons[i].0,
                    pressed: false,
                } && buttons[i].1.released));
            assert(front[i] == buttons[i]);
        }
    }
}

proof fn in_pad(pad: Seq<(PadButton, Edges)>, x: InputEvent)
    ensures
        pad_events(pad).contains(x) <==> exists|i: int|
            0 <= i < pad.len() && ((x == InputEvent::PadButton {
                button: (#[trigger] pad[i]).0,
                pressed: true,
            } && pad[i].1.pressed) || (x == InputEvent::PadButton {
                button: pad[i].0,
                pressed: false,
            } && pad[i].1.released)),
    decreases pad.len(),
{
    if pad.len() > 0 {
        let front = pad.drop_last();
        let n = front.len() as int;
        in_pad(front, x);
        let (button, edges) = pad.last();
        let down = InputEvent::PadButton { button, pressed: true };
        let up = InputEvent::PadButton { button, pressed: false };
        in_edges(edges, down, up, x);
        in_either(pad_events(front), edge_events(edges, down, up), x);
        assert forall|i: int| 0 <= i < n implies #[trigger] pad[i] == front[i] by {}
        assert(pad[n] == pad.last());
        if pad_events(front).contains(x) {
            let i = choose|i: int|
                0 <= i < front.len() && ((x == InputEvent::PadButton {
                    button: (#[trigger] front[i]).0,
                    pressed: true,
                } && front[i].1.pressed) || (x == InputEvent::PadButton {
                    button: front[i].0,
                    pressed: false,
                } && front[i].1.released));
            assert(pad[i] == front[i]);
        }
        if exists|i: int|
            0 <= i < n && ((x == InputEvent::PadButton {
                button: (#[trigger] pad[i]).0,
                pressed: true,
            } && pad[i].1.pressed) || (x == InputEvent::PadButton {
                button: pad[i].0,
                pressed: false,
            } && pad[i].1.released)) {
            let i = choose|i: int|
                0 <= i < n && ((x == InputEvent::PadButton {
                    button: (#[trigger] pad[i]).0,
                    pressed: true,
                } && pad[i].1.pressed) || (x == InputEvent::PadButton {
                    button: pad[i].0,
                    pressed: false,
                } && pad[i].1.released));
            assert(front[i] == pad[i]);
        }
    }
}

proof fn in_sticks(sticks: Seq<(PadStick, Level)>, x: InputEvent)
    ensures
        stick_events(sticks).contains(x) <==> exists|i: int|
            0 <= i < sticks.len() && x == (InputEvent::PadStick {
                stick: (#[trigger] sticks[i]).0,
                dir: sticks[i].1.dir,
            }) && sticks[i].1.changed,
    decreases sticks.len(),
{
    if sticks.len() > 0 {
        let front = sticks.drop_last();
        let n = front.len() as int;
        in_sticks(front, x);
        let (stick, level) = sticks.last();
        in_pushed(stick_events(front), InputEvent::PadStick { stick, dir: level.dir }, x);
        assert forall|i: int| 0 <= i < n implies #[trigger] sticks[i] == front[i] by {}
        assert(sticks[n] == sticks.last());
        if stick_events(front).contains(x) {
            let i = choose|i: int|
                0 <= i < front.len() && x == (InputEvent::PadStick {
                    stick: (#[trigger] front[i]).0,
                    dir: front[i].1.dir,
                }) && front[i].1.changed;
            assert(sticks[i] == front[i]);
        }
        if exists|i: int|
            0 <= i < n && x == (InputEvent::PadStick {
                stick: (#[trigger] sticks[i]).0,
                dir: sticks[i].1.dir,
            }) && sticks[i].1.changed {
            let i = choose|i: int|
                0 <= i < n && x == (InputEvent::PadStick {
                    stick: (#[trigger] sticks[i]).0,
                    dir: sticks[i].1.dir,
                }) && sticks[i].1.changed;
            assert(front[i] == sticks[i]);
        }
    }
}

proof fn in_triggers(triggers: Seq<(PadTrigger, F32, bool)>, x: InputEvent)
    ensures
        trigger_events(triggers).contains(x) <==> exists|i: int|
            0 <= i < triggers.len() && x == (InputEvent::PadTrigger {
                trigger: (#[trigger] triggers[i]).0,
                value: triggers[i].1,
            }) && triggers[i].2,
    decreases triggers.len(),
{
    if triggers.len() > 0 {
        let front = triggers.drop_last();
        let n = front.len() as int;
        in_triggers(front, x);
        let (trigger, value, changed) = triggers.last();
        in_pushed(trigger_events(front), InputEvent::PadTrigger { trigger, value }, x);
        assert forall|i: int| 0 <= i < n implies #[trigger] triggers[i] == front[i] by {}
        assert(triggers[n] == triggers.last());
        if trigger_events(front).contains(x) {
            let i = choose|i: int|
                0 <= i < front.len() && x == (InputEvent::PadTrigger {
                    trigger: (#[trigger] front[i]).0,
                    value: front[i].1,
                }) && front[i].2;
            assert(triggers[i] == front[i]);
        }
        if exists|i: int|
            0 <= i < n && x == (InputEvent::PadTrigger {
                trigger: (#[trigger] triggers[i]).0,
                value: triggers[i].1,
            }) && triggers[i].2 {
            let i = choose|i: int|
                0 <= i < n && x == (InputEvent::PadTrigger {
                    trigger: (#[trigger] triggers[i]).0,
                    value: triggers[i].1,
                }) && triggers[i].2;
            assert(front[i] == triggers[i]);
        }
    }
}

/// Whether an event says that a finger did something.
spec fn tells_of(x: InputEvent, touch: Touch, phase: TouchPhase) -> bool {
    x == (InputEvent::Touch { id: touch.id, phase, x: touch.pos.x, y: touch.pos.y })
}

proof fn in_moves(live: Seq<LiveTouch>, x: InputEvent)
    ensures
        moved_events(live).contains(x) <==> exists|i: int|
            0 <= i < live.len() && tells_of(x, (#[trigger] live[i]).touch, TouchPhase::Moved)
                && live[i].moved,
    decreases live.len(),
{
    if live.len() > 0 {
        let front = live.drop_last();
        let n = front.len() as int;
        in_moves(front, x);
        let last = live.last().touch;
        in_pushed(
            moved_events(front),
            InputEvent::Touch { id: last.id, phase: TouchPhase::Moved, x: last.pos.x, y: last.pos.y },
            x,
        );
        assert forall|i: int| 0 <= i < n implies #[trigger] live[i] == front[i] by {}
        assert(live[n] == live.last());
        if moved_events(front).contains(x) {
            let i = choose|i: int|
                0 <= i < front.len() && tells_of(x, (#[trigger] front[i]).touch, TouchPhase::Moved)
                    && front[i].moved;
            assert(live[i] == front[i]);
        }
        if exists|i: int|
            0 <= i < n && tells_of(x, (#[trigger] live[i]).touch, TouchPhase::Moved)
                && live[i].moved {
            let i = choose|i: int|
                0 <= i < n && tells_of(x, (#[trigger] live[i]).touch, TouchPhase::Moved)
                    && live[i].moved;
            assert(front[i] == live[i]);
        }
    }
}

proof fn in_departures(ended: Seq<Touch>, live: Seq<LiveTouch>, down: bool, x: InputEvent)
    ensures
        departure_events(ended, live, down).contains(x) <==> exists|i: int|
            0 <= i < ended.len() && tells_of(x, #[trigger] ended[i], TouchPhase::Ended) && is_live(
                live,
                ended[i].id,
            ) == down,
    decreases ended.len(),
{
    if ended.len() > 0 {
        let front = ended.drop_last();
        let n = front.len() as int;
        in_departures(front, live, down, x);
        let last = ended.last();
        in_pushed(
            departure_events(front, live, down),
            InputEvent::Touch { id: last.id, phase: TouchPhase::Ended, x: last.pos.x, y: last.pos.y },
            x,
        );
        assert forall|i: int| 0 <= i < n implies #[trigger] ended[i] == front[i] by {}
        assert(ended[n] == ended.last());
        if departure_events(front, live, down).contains(x) {
            let i = choose|i: int|
                0 <= i < front.len() && tells_of(x, #[trigger] front[i], TouchPhase::Ended)
                    && is_live(live, front[i].id) == down;
            assert(ended[i] == front[i]);
        }
        if exists|i: int|
            0 <= i < n && tells_of(x, #[trigger] ended[i], TouchPhase::Ended) && is_live(
                live,
                ended[i].id,
            ) == down {
            let i = choose|i: int|
                0 <= i < n && tells_of(x, #[trigger] ended[i], TouchPhase::Ended) && is_live(
                    live,
                    ended[i].id,
                ) == down;
            assert(front[i] == ended[i]);
        }
    }
}

proof fn in_arrivals(started: Seq<Touch>, x: InputEvent)
    ensures
        arrival_events(started).contains(x) <==> exists|i: int|
            0 <= i < started.len() && tells_of(x, #[trigger] started[i], TouchPhase::Started),
{
    let all = arrival_events(started);
    if all.contains(x) {
        let i = all.index_of(x);
        assert(tells_of(x, started[i], TouchPhase::Started));
    }
    if exists|i: int|
        0 <= i < started.len() && tells_of(x, #[trigger] started[i], TouchPhase::Started) {
        let i = choose|i: int|
            0 <= i < started.len() && tells_of(x, #[trigger] started[i], TouchPhase::Started);
        assert(all[i] == x);
    }
}

proof fn in_touches(input: Input, x: InputEvent)
    ensures
        touch_events(input).contains(x) <==> x is Touch && happened(input, x),
{
    let (a, b) = (departure_events(input.ended@, input.live@, true), arrival_events(input.started@));
    let (c, d) = (moved_events(input.live@), departure_events(input.ended@, input.live@, false));
    in_either(a, b, x);
    in_either(a + b, c, x);
    in_either(a + b + c, d, x);
    in_departures(input.ended@, input.live@, true, x);
    in_departures(input.ended@, input.live@, false, x);
    in_arrivals(input.started@, x);
    in_moves(input.live@, x);
    if x is Touch && happened(input, x) {
        match x->phase {
            TouchPhase::Started => {
                let i = choose|i: int|
                    0 <= i < input.started@.len() && (#[trigger] input.started@[i]).id == x->id
                        && input.started@[i].pos.x == x->x && input.started@[i].pos.y == x->y;
                assert(tells_of(x, input.started@[i], TouchPhase::Started));
            },
            TouchPhase::Moved => {
                let i = choose|i: int|
                    0 <= i < input.live@.len() && (#[trigger] input.live@[i]).touch.id == x->id
                        && input.live@[i].touch.pos.x == x->x && input.live@[i].touch.pos.y == x->y
                        && input.live@[i].moved;
                assert(tells_of(x, input.live@[i].touch, TouchPhase::Moved));
            },
            TouchPhase::Ended => {
                let i = choose|i: int|
                    0 <= i < input.ended@.len() && (#[trigger] input.ended@[i]).id == x->id
                        && input.ended@[i].pos.x == x->x && input.ended@[i].pos.y == x->y;
                assert(tells_of(x, input.ended@[i], TouchPhase::Ended));
            },
        }
    }
}

proof fn in_analog(input: Input, x: InputEvent)
    ensures
        motion_events(input.mouse_delta).contains(x) <==> x is MouseMove && happened(input, x),
        wheel_events(input.wheel).contains(x) <==> x is Wheel && happened(input, x),
        drive_events(input.drive).contains(x) <==> x is TouchDrive && happened(input, x),
{
    let m = motion_events(input.mouse_delta);
    if m.len() > 0 {
        assert(m.contains(m[0]));
    }
    let w = wheel_events(input.wheel);
    if w.len() > 0 {
        assert(w.contains(w[0]));
    }
    let d = drive_events(input.drive);
    if d.len() > 0 {
        assert(d.contains(d[0]));
    }
}

/// A tick is recorded as what happened in it: an event is recorded exactly where its
/// device did what it says.
pub proof fn a_tick_is_recorded_as_what_happened(input: Input, event: InputEvent)
    ensures
        tick_events(input).contains(event) <==> happened(input, event),
{
    let x = event;
    let (a, b) = (key_events(input.keys@), button_events(input.buttons@));
    let (c, d, e) = (
        motion_events(input.mouse_delta),
        wheel_events(input.wheel),
        drive_events(input.drive),
    );
    let (f, g, h) = (
        pad_events(input.pad@),
        stick_events(input.sticks@),
        trigger_events(input.triggers@),
    );
    let t = touch_events(input);
    in_either(a, b, x);
    in_either(a + b, c, x);
    in_either(a + b + c, d, x);
    in_either(a + b + c + d, e, x);
    in_either(a + b + c + d + e, f, x);
    in_either(a + b + c + d + e + f, g, x);
    in_either(a + b + c + d + e + f + g, h, x);
    in_either(a + b + c + d + e + f + g + h, t, x);
    in_keys(input.keys@, x);
    in_buttons(input.buttons@, x);
    in_analog(input, x);
    in_pad(input.pad@, x);
    in_sticks(input.sticks@, x);
    in_triggers(input.triggers@, x);
    in_touches(input, x);
}

/// What a trace has for a tick is its events of that tick, in their order, and no others.
pub proof fn a_tick_has_its_own_events(events: Seq<TickEvent>, tick: u64)
    ensures
        at_tick(events, tick) == events.filter(|e: TickEvent| e.tick == tick).map_values(
            |e: TickEvent| e.event,
        ),
    decreases events.len(),
{
    reveal(Seq::filter);
    let own = |e: TickEvent| e.tick == tick;
    let bare = |e: TickEvent| e.event;
    if events.len() > 0 {
        a_tick_has_its_own_events(events.drop_last(), tick);
        let front = events.drop_last().filter(own);
        assert(front.push(events.last()).map_values(bare) =~= front.map_values(bare).push(
            events.last().event,
        ));
    } else {
        assert(events.filter(own).map_values(bare) =~= Seq::<InputEvent>::empty());
    }
}

/// A tick of a simulation: without a replay its input is what the state before makes of
/// what was pushed, all of it and nothing else; where a trace is recorded, what was in it
/// stays, and what happened in the tick's input is added under the tick's own number.
pub proof fn a_tick_takes_what_was_pushed_and_is_recorded<
    B: Fn(&Input, Vec<InputEvent>) -> Input,
>(begin: B, before: Sim, after: Sim)
    requires
        ticked(begin, before, after),
    ensures
        after.ticks == before.ticks + 1,
        after.pending@.len() == 0,
        after.speed == before.speed,
        after.clock == before.clock,
        before.playback is None ==> after.playback is None && begin.ensures(
            (&before.input, before.pending),
            after.input,
        ),
        before.playback is Some ==> after.playback is Some,
        before.recording is None ==> after.recording is None,
        before.recording is Some ==> {
            let (old, new) = (before.recording->0.events@, after.recording->0.events@);
            &&& after.recording is Some
            &&& old.len() <= new.len()
            &&& new.take(old.len() as int) == old
            &&& forall|k: int|
                old.len() <= k < new.len() ==> (#[trigger] new[k]).tick == before.ticks && happened(
                    after.input,
                    new[k].event,
                )
            &&& forall|event: InputEvent| #[trigger]
                happened(after.input, event) ==> exists|k: int|
                    old.len() <= k < new.len() && (#[trigger] new[k]).event == event
        },
{
    if before.recording is Some {
        let (old, new) = (before.recording->0.events@, after.recording->0.events@);
        let told = tick_events(after.input);
        let n = old.len() as int;
        assert(new.take(n) =~= old);
        assert forall|k: int| n <= k < new.len() implies (#[trigger] new[k]).tick == before.ticks
            && happened(after.input, new[k].event) by {
            assert(new[k] == stamped(told, before.ticks)[k - n]);
            assert(told.contains(told[k - n]));
            a_tick_is_recorded_as_what_happened(after.input, told[k - n]);
        }
        assert forall|event: InputEvent| #[trigger] happened(after.input, event) implies exists|
            k: int,
        |
            n <= k < new.len() && (#[trigger] new[k]).event == event by {
            a_tick_is_recorded_as_what_happened(after.input, event);
            let k = n + told.index_of(event);
            assert(new[k] == stamped(told, before.ticks)[k - n]);
        }
    }
}

/// Pairs are put in the order of their ticks: none is lost and none added, and those of one
/// tick stay in the order they came in.
pub proof fn pairs_are_put_in_order(
    pairs: Seq<(u64, InputEvent)>,
    r: Seq<TickEvent>,
    tick: u64,
)
    requires
        sorts(pairs, r),
    ensures
        r.len() == pairs.len(),
        forall|i: int, j: int| 0 <= i < j < r.len() ==> (#[trigger] r[i]).tick <= (#[trigger] r[j]).tick,
        r.filter(|e: TickEvent| e.tick == tick).map_values(|e: TickEvent| e.event)
            == paired(pairs).filter(|e: TickEvent| e.tick == tick).map_values(
            |e: TickEvent| e.event,
        ),
        forall|i: int|
            0 <= i < pairs.len() ==> (#[trigger] paired(pairs)[i]).tick == pairs[i].0
                && paired(pairs)[i].event == pairs[i].1,
{
    a_tick_has_its_own_events(r, tick);
    a_tick_has_its_own_events(paired(pairs), tick);
    assert(at_tick(r, tick) == at_tick(paired(pairs), tick));
}

/// A replay has to run on to the tick of its last event, and no further.
pub proof fn a_replay_runs_to_its_last_event(events: Seq<TickEvent>, tick: u64, i: int)
    requires
        in_tick_order(events),
        0 <= i < events.len(),
    ensures
        events[i].tick <= tick + ticks_left(events, tick),
        ticks_left(events, tick) > 0 ==> tick + ticks_left(events, tick)
            == events.last().tick,
        events.last().tick <= tick ==> ticks_left(events, tick) == 0,
{
    if i < events.len() - 1 {
        assert(events[i].tick <= events[events.len() - 1].tick);
    }
}

} // verus!
