//! What a trace is for: replaying a recorded tick gives that tick's input again.
//!
//! Events are read device by device. What they say of a device, in order, is
//! [`said_of`]; where that leaves a key, a level or a finger is [`edges_after`],
//! [`level_after`] and [`place_after`].

use vstd::prelude::*;
use crate::float::{F32, Vec2, same_value};
use crate::input::{
    has_id, is_live, live_touch, Edges, Input, InputEvent, Key, Level, LiveTouch, PadButton, PadStick,
    PadTrigger, Touch, TouchPhase,
};
use crate::trace::{
    arrival_events, button_events, departure_events, drive_events, edge_events, key_events,
    motion_events, moved_events, pad_events, stick_events, tick_events, touch_event, touch_events,
    trigger_events, wheel_events,
};

verus! {

/// Something that events speak of, besides the fingers.
pub enum Device {
    Key(Key),
    Button(u8),
    Mouse,
    Wheel,
    Drive,
    Pad(PadButton),
    Stick(PadStick),
    Trigger(PadTrigger),
}

/// What an event says of a device.
pub enum Saying {
    Down,
    Up,
    To(Vec2),
    At(F32),
}

/// The device that an event speaks of, and what it says.
pub open spec fn said(event: InputEvent) -> Option<(Device, Saying)> {
    match event {
        InputEvent::KeyDown(key) => Some((Device::Key(key), Saying::Down)),
        InputEvent::KeyUp(key) => Some((Device::Key(key), Saying::Up)),
        InputEvent::MouseButton { button, pressed } => Some(
            (
                Device::Button(button),
                if pressed {
                    Saying::Down
                } else {
                    Saying::Up
                },
            ),
        ),
        InputEvent::MouseMove { dx, dy } => Some(
            (Device::Mouse, Saying::To(Vec2 { x: dx, y: dy })),
        ),
        InputEvent::Wheel { dy } => Some((Device::Wheel, Saying::At(dy))),
        InputEvent::TouchDrive { dir } => Some((Device::Drive, Saying::To(dir))),
        InputEvent::PadButton { button, pressed } => Some(
            (
                Device::Pad(button),
                if pressed {
                    Saying::Down
                } else {
                    Saying::Up
                },
            ),
        ),
        InputEvent::PadStick { stick, dir } => Some((Device::Stick(stick), Saying::To(dir))),
        InputEvent::PadTrigger { trigger, value } => Some(
            (Device::Trigger(trigger), Saying::At(value)),
        ),
        InputEvent::Touch { .. } => None,
        InputEvent::FocusLost => None,
    }
}

/// What `events` say of `device`, in order.
pub open spec fn said_of(events: Seq<InputEvent>, device: Device) -> Seq<Saying>
    decreases events.len(),
{
    if events.len() == 0 {
        Seq::empty()
    } else {
        let before = said_of(events.drop_last(), device);
        match said(events.last()) {
            Some((d, saying)) if d == device => before.push(saying),
            _ => before,
        }
    }
}

/// What a key or button did inside a tick whose events say this of it, where it
/// was held or not `before`.
pub open spec fn edges_after(sayings: Seq<Saying>, before: bool) -> Edges {
    Edges {
        pressed: sayings.contains(Saying::Down),
        released: sayings.contains(Saying::Up),
        held: if sayings.len() == 0 {
            before
        } else {
            sayings.last() == Saying::Down
        },
    }
}

/// A stick behind a tick whose events say this of it.
pub open spec fn level_after(sayings: Seq<Saying>, before: Vec2) -> Level {
    Level {
        dir: if sayings.len() == 0 {
            before
        } else {
            sayings.last()->To_0
        },
        changed: sayings.len() > 0,
    }
}

/// Edges that a key held or not `before` the tick can have shown.
pub open spec fn edges_follow(edges: Edges, before: bool) -> bool {
    &&& edges.pressed && !edges.released ==> edges.held
    &&& edges.released && !edges.pressed ==> !edges.held
    &&& !edges.pressed && !edges.released ==> edges.held == before
}

/// Every device has one entry.
pub open spec fn one_entry_each(input: Input) -> bool {
    &&& forall|i: int, j: int|
        0 <= i < j < input.keys@.len() ==> (#[trigger] input.keys@[i]).0 != (
        #[trigger] input.keys@[j]).0
    &&& forall|i: int, j: int|
        0 <= i < j < input.buttons@.len() ==> (#[trigger] input.buttons@[i]).0 != (
        #[trigger] input.buttons@[j]).0
    &&& forall|i: int, j: int|
        0 <= i < j < input.pad@.len() ==> (#[trigger] input.pad@[i]).0 != (
        #[trigger] input.pad@[j]).0
    &&& forall|i: int, j: int|
        0 <= i < j < input.sticks@.len() ==> (#[trigger] input.sticks@[i]).0 != (
        #[trigger] input.sticks@[j]).0
    &&& forall|i: int, j: int|
        0 <= i < j < input.triggers@.len() ==> (#[trigger] input.triggers@[i]).0 != (
        #[trigger] input.triggers@[j]).0
}

/// What a tick's events say of a key or button with these edges.
pub open spec fn edges_said(edges: Edges) -> Seq<Saying> {
    if edges.pressed && edges.released {
        if edges.held {
            seq![Saying::Up, Saying::Down]
        } else {
            seq![Saying::Down, Saying::Up]
        }
    } else if edges.pressed {
        seq![Saying::Down]
    } else if edges.released {
        seq![Saying::Up]
    } else {
        Seq::empty()
    }
}

/// What a tick's events say of a stick.
pub open spec fn level_said(level: Level) -> Seq<Saying> {
    if level.changed {
        seq![Saying::To(level.dir)]
    } else {
        Seq::empty()
    }
}

proof fn said_of_both(a: Seq<InputEvent>, b: Seq<InputEvent>, device: Device)
    ensures
        said_of(a + b, device) == said_of(a, device) + said_of(b, device),
    decreases b.len(),
{
    if b.len() == 0 {
        assert(a + b =~= a);
        assert(said_of(a, device) + Seq::<Saying>::empty() =~= said_of(a, device));
    } else {
        said_of_both(a, b.drop_last(), device);
        assert((a + b).drop_last() =~= a + b.drop_last());
        assert((a + b).last() == b.last());
        assert(said_of(a + b, device) =~= said_of(a, device) + said_of(b, device));
    }
}

proof fn said_of_one(event: InputEvent, device: Device)
    ensures
        said_of(seq![event], device) == (match said(event) {
            Some((d, saying)) if d == device => seq![saying],
            _ => Seq::<Saying>::empty(),
        }),
{
    assert(seq![event].drop_last() =~= Seq::<InputEvent>::empty());
    assert(said_of(seq![event].drop_last(), device) =~= Seq::<Saying>::empty());
    match said(event) {
        Some((d, saying)) if d == device => {
            assert(said_of(seq![event], device) =~= seq![saying]);
        },
        _ => {},
    }
}

/// What one key's or button's events say.
proof fn edges_speak(edges: Edges, down: InputEvent, up: InputEvent, own: Device, device: Device)
    requires
        said(down) == Some((own, Saying::Down)),
        said(up) == Some((own, Saying::Up)),
    ensures
        said_of(edge_events(edges, down, up), device) == if device == own {
            edges_said(edges)
        } else {
            Seq::<Saying>::empty()
        },
{
    said_of_one(down, device);
    said_of_one(up, device);
    said_of_both(seq![down], seq![up], device);
    said_of_both(seq![up], seq![down], device);
    assert(seq![down] + seq![up] =~= seq![down, up]);
    assert(seq![up] + seq![down] =~= seq![up, down]);
    let all = said_of(edge_events(edges, down, up), device);
    if device == own {
        assert(all =~= edges_said(edges));
    } else {
        assert(all =~= Seq::<Saying>::empty());
    }
}

proof fn keys_speak(keys: Seq<(Key, Edges)>, device: Device)
    requires
        forall|i: int, j: int|
            0 <= i < j < keys.len() ==> (#[trigger] keys[i]).0 != (#[trigger] keys[j]).0,
    ensures
        forall|i: int|
            0 <= i < keys.len() && device == Device::Key((#[trigger] keys[i]).0) ==> said_of(
                key_events(keys),
                device,
            ) == edges_said(keys[i].1),
        (forall|i: int| 0 <= i < keys.len() ==> device != Device::Key((#[trigger] keys[i]).0))
            ==> said_of(key_events(keys), device) == Seq::<Saying>::empty(),
    decreases keys.len(),
{
    if keys.len() > 0 {
        let front = keys.drop_last();
        let (key, edges) = keys.last();
        assert(forall|i: int| 0 <= i < front.len() ==> (#[trigger] front[i]) == keys[i]);
        assert(keys[keys.len() - 1] == keys.last());
        keys_speak(front, device);
        let down = InputEvent::KeyDown(key);
        let up = InputEvent::KeyUp(key);
        edges_speak(edges, down, up, Device::Key(key), device);
        said_of_both(key_events(front), edge_events(edges, down, up), device);
        let all = said_of(key_events(keys), device);
        if device == Device::Key(key) {
            assert(forall|i: int|
                0 <= i < front.len() ==> device != Device::Key((#[trigger] front[i]).0));
            assert(all =~= edges_said(edges));
        } else {
            assert(all =~= said_of(key_events(front), device));
            assert forall|i: int|
                0 <= i < keys.len() && device == Device::Key((#[trigger] keys[i]).0) implies all
                == edges_said(keys[i].1) by {
                assert(front[i] == keys[i]);
            }
        }
    }
}

proof fn buttons_speak(buttons: Seq<(u8, Edges)>, device: Device)
    requires
        forall|i: int, j: int|
            0 <= i < j < buttons.len() ==> (#[trigger] buttons[i]).0 != (#[trigger] buttons[j]).0,
    ensures
        forall|i: int|
            0 <= i < buttons.len() && device == Device::Button((#[trigger] buttons[i]).0)
                ==> said_of(button_events(buttons), device) == edges_said(buttons[i].1),
        (forall|i: int|
            0 <= i < buttons.len() ==> device != Device::Button((#[trigger] buttons[i]).0))
            ==> said_of(button_events(buttons), device) == Seq::<Saying>::empty(),
    decreases buttons.len(),
{
    if buttons.len() > 0 {
        let front = buttons.drop_last();
        let (button, edges) = buttons.last();
        assert(forall|i: int| 0 <= i < front.len() ==> (#[trigger] front[i]) == buttons[i]);
        assert(buttons[buttons.len() - 1] == buttons.last());
        buttons_speak(front, device);
        let down = InputEvent::MouseButton { button, pressed: true };
        let up = InputEvent::MouseButton { button, pressed: false };
        edges_speak(edges, down, up, Device::Button(button), device);
        said_of_both(button_events(front), edge_events(edges, down, up), device);
        let all = said_of(button_events(buttons), device);
        if device == Device::Button(button) {
            assert(forall|i: int|
                0 <= i < front.len() ==> device != Device::Button((#[trigger] front[i]).0));
            assert(all =~= edges_said(edges));
        } else {
            assert(all =~= said_of(button_events(front), device));
            assert forall|i: int|
                0 <= i < buttons.len() && device == Device::Button(
                    (#[trigger] buttons[i]).0,
                ) implies all == edges_said(buttons[i].1) by {
                assert(front[i] == buttons[i]);
            }
        }
    }
}

proof fn pad_speaks(pad: Seq<(PadButton, Edges)>, device: Device)
    requires
        forall|i: int, j: int|
            0 <= i < j < pad.len() ==> (#[trigger] pad[i]).0 != (#[trigger] pad[j]).0,
    ensures
        forall|i: int|
            0 <= i < pad.len() && device == Device::Pad((#[trigger] pad[i]).0) ==> said_of(
                pad_events(pad),
                device,
            ) == edges_said(pad[i].1),
        (forall|i: int| 0 <= i < pad.len() ==> device != Device::Pad((#[trigger] pad[i]).0))
            ==> said_of(pad_events(pad), device) == Seq::<Saying>::empty(),
    decreases pad.len(),
{
    if pad.len() > 0 {
        let front = pad.drop_last();
        let (button, edges) = pad.last();
        assert(forall|i: int| 0 <= i < front.len() ==> (#[trigger] front[i]) == pad[i]);
        assert(pad[pad.len() - 1] == pad.last());
        pad_speaks(front, device);
        let down = InputEvent::PadButton { button, pressed: true };
        let up = InputEvent::PadButton { button, pressed: false };
        edges_speak(edges, down, up, Device::Pad(button), device);
        said_of_both(pad_events(front), edge_events(edges, down, up), device);
        let all = said_of(pad_events(pad), device);
        if device == Device::Pad(button) {
            assert(forall|i: int|
                0 <= i < front.len() ==> device != Device::Pad((#[trigger] front[i]).0));
            assert(all =~= edges_said(edges));
        } else {
            assert(all =~= said_of(pad_events(front), device));
            assert forall|i: int|
                0 <= i < pad.len() && device == Device::Pad((#[trigger] pad[i]).0) implies all
                == edges_said(pad[i].1) by {
                assert(front[i] == pad[i]);
            }
        }
    }
}

proof fn sticks_speak(sticks: Seq<(PadStick, Level)>, device: Device)
    requires
        forall|i: int, j: int|
            0 <= i < j < sticks.len() ==> (#[trigger] sticks[i]).0 != (#[trigger] sticks[j]).0,
    ensures
        forall|i: int|
            0 <= i < sticks.len() && device == Device::Stick((#[trigger] sticks[i]).0) ==> said_of(
                stick_events(sticks),
                device,
            ) == level_said(sticks[i].1),
        (forall|i: int|
            0 <= i < sticks.len() ==> device != Device::Stick((#[trigger] sticks[i]).0))
            ==> said_of(stick_events(sticks), device) == Seq::<Saying>::empty(),
    decreases sticks.len(),
{
    if sticks.len() > 0 {
        let front = sticks.drop_last();
        let (stick, level) = sticks.last();
        assert(forall|i: int| 0 <= i < front.len() ==> (#[trigger] front[i]) == sticks[i]);
        assert(sticks[sticks.len() - 1] == sticks.last());
        sticks_speak(front, device);
        let event = InputEvent::PadStick { stick, dir: level.dir };
        assert(stick_events(front).push(event).drop_last() =~= stick_events(front));
        let all = said_of(stick_events(sticks), device);
        if device == Device::Stick(stick) {
            assert(forall|i: int|
                0 <= i < front.len() ==> device != Device::Stick((#[trigger] front[i]).0));
            assert(all =~= level_said(level));
        } else {
            assert(all =~= said_of(stick_events(front), device));
            assert forall|i: int|
                0 <= i < sticks.len() && device == Device::Stick(
                    (#[trigger] sticks[i]).0,
                ) implies all == level_said(sticks[i].1) by {
                assert(front[i] == sticks[i]);
            }
        }
    }
}

proof fn triggers_speak(triggers: Seq<(PadTrigger, F32, bool)>, device: Device)
    requires
        forall|i: int, j: int|
            0 <= i < j < triggers.len() ==> (#[trigger] triggers[i]).0 != (
            #[trigger] triggers[j]).0,
    ensures
        forall|i: int|
            0 <= i < triggers.len() && device == Device::Trigger((#[trigger] triggers[i]).0)
                ==> said_of(trigger_events(triggers), device) == trigger_said(
                triggers[i].1,
                triggers[i].2,
            ),
        (forall|i: int|
            0 <= i < triggers.len() ==> device != Device::Trigger((#[trigger] triggers[i]).0))
            ==> said_of(trigger_events(triggers), device) == Seq::<Saying>::empty(),
    decreases triggers.len(),
{
    if triggers.len() > 0 {
        let front = triggers.drop_last();
        let (trigger, value, changed) = triggers.last();
        assert(forall|i: int| 0 <= i < front.len() ==> (#[trigger] front[i]) == triggers[i]);
        assert(triggers[triggers.len() - 1] == triggers.last());
        triggers_speak(front, device);
        let event = InputEvent::PadTrigger { trigger, value };
        assert(trigger_events(front).push(event).drop_last() =~= trigger_events(front));
        let all = said_of(trigger_events(triggers), device);
        if device == Device::Trigger(trigger) {
            assert(forall|i: int|
                0 <= i < front.len() ==> device != Device::Trigger((#[trigger] front[i]).0));
            assert(all =~= trigger_said(value, changed));
        } else {
            assert(all =~= said_of(trigger_events(front), device));
            assert forall|i: int|
                0 <= i < triggers.len() && device == Device::Trigger(
                    (#[trigger] triggers[i]).0,
                ) implies all == trigger_said(triggers[i].1, triggers[i].2) by {
                assert(front[i] == triggers[i]);
            }
        }
    }
}

/// What a tick's events say of a trigger.
pub open spec fn trigger_said(value: F32, changed: bool) -> Seq<Saying> {
    if changed {
        seq![Saying::At(value)]
    } else {
        Seq::empty()
    }
}

/// What a tick's events say of the mouse's motion.
pub open spec fn motion_said(delta: Vec2) -> Seq<Saying> {
    if same_value(delta.x, F32(0)) && same_value(delta.y, F32(0)) {
        Seq::empty()
    } else {
        seq![Saying::To(delta)]
    }
}

/// What a tick's events say of the wheel.
pub open spec fn wheel_said(wheel: F32) -> Seq<Saying> {
    if same_value(wheel, F32(0)) {
        Seq::empty()
    } else {
        seq![Saying::At(wheel)]
    }
}

/// Fingers' events speak of no other device.
proof fn fingers_speak_of_nothing_else(input: Input, device: Device)
    ensures
        said_of(touch_events(input), device) == Seq::<Saying>::empty(),
{
    let gone = departure_events(input.ended@, input.live@, true);
    let here = arrival_events(input.started@);
    let moved = moved_events(input.live@);
    let left = departure_events(input.ended@, input.live@, false);
    departures_are_silent(input.ended@, input.live@, true, device);
    departures_are_silent(input.ended@, input.live@, false, device);
    arrivals_are_silent(input.started@, device);
    motions_are_silent(input.live@, device);
    said_of_both(gone, here, device);
    said_of_both(gone + here, moved, device);
    said_of_both(gone + here + moved, left, device);
    assert(said_of(touch_events(input), device) =~= Seq::<Saying>::empty());
}

proof fn departures_are_silent(
    ended: Seq<Touch>,
    live: Seq<LiveTouch>,
    down: bool,
    device: Device,
)
    ensures
        said_of(departure_events(ended, live, down), device) == Seq::<Saying>::empty(),
    decreases ended.len(),
{
    if ended.len() > 0 {
        departures_are_silent(ended.drop_last(), live, down, device);
        let earlier = departure_events(ended.drop_last(), live, down);
        let event = touch_event(ended.last(), TouchPhase::Ended);
        assert(earlier.push(event).drop_last() =~= earlier);
    }
}

proof fn arrivals_are_silent(started: Seq<Touch>, device: Device)
    ensures
        said_of(arrival_events(started), device) == Seq::<Saying>::empty(),
    decreases started.len(),
{
    if started.len() > 0 {
        arrivals_are_silent(started.drop_last(), device);
        assert(arrival_events(started).drop_last() =~= arrival_events(started.drop_last()));
    }
}

proof fn motions_are_silent(live: Seq<LiveTouch>, device: Device)
    ensures
        said_of(moved_events(live), device) == Seq::<Saying>::empty(),
    decreases live.len(),
{
    if live.len() > 0 {
        motions_are_silent(live.drop_last(), device);
        let earlier = moved_events(live.drop_last());
        let event = touch_event(live.last().touch, TouchPhase::Moved);
        assert(earlier.push(event).drop_last() =~= earlier);
    }
}

/// What a tick's events say of a device is what its own part of them says.
proof fn tick_in_parts(input: Input, device: Device)
    ensures
        said_of(tick_events(input), device) == said_of(key_events(input.keys@), device) + said_of(
            button_events(input.buttons@),
            device,
        ) + said_of(motion_events(input.mouse_delta), device) + said_of(
            wheel_events(input.wheel),
            device,
        ) + said_of(drive_events(input.drive), device) + said_of(pad_events(input.pad@), device)
            + said_of(stick_events(input.sticks@), device) + said_of(
            trigger_events(input.triggers@),
            device,
        ),
        said_of(motion_events(input.mouse_delta), device) == if device == Device::Mouse {
            motion_said(input.mouse_delta)
        } else {
            Seq::<Saying>::empty()
        },
        said_of(wheel_events(input.wheel), device) == if device == Device::Wheel {
            wheel_said(input.wheel)
        } else {
            Seq::<Saying>::empty()
        },
        said_of(drive_events(input.drive), device) == if device == Device::Drive {
            level_said(input.drive)
        } else {
            Seq::<Saying>::empty()
        },
{
    let k = key_events(input.keys@);
    let b = button_events(input.buttons@);
    let m = motion_events(input.mouse_delta);
    let w = wheel_events(input.wheel);
    let d = drive_events(input.drive);
    let p = pad_events(input.pad@);
    let s = stick_events(input.sticks@);
    let t = trigger_events(input.triggers@);
    said_of_both(k, b, device);
    said_of_both(k + b, m, device);
    said_of_both(k + b + m, w, device);
    said_of_both(k + b + m + w, d, device);
    said_of_both(k + b + m + w + d, p, device);
    said_of_both(k + b + m + w + d + p, s, device);
    said_of_both(k + b + m + w + d + p + s, t, device);
    said_of_both(k + b + m + w + d + p + s + t, touch_events(input), device);
    fingers_speak_of_nothing_else(input, device);
    let front = said_of(k + b + m + w + d + p + s + t, device);
    assert(front + Seq::<Saying>::empty() =~= front);
    said_of_one(
        InputEvent::MouseMove { dx: input.mouse_delta.x, dy: input.mouse_delta.y },
        device,
    );
    said_of_one(InputEvent::Wheel { dy: input.wheel }, device);
    said_of_one(InputEvent::TouchDrive { dir: input.drive.dir }, device);
}

/// Replaying a recorded tick tells every device what the tick told it, and
/// nothing else: the edges in the order that ends where the key ended, the motion
/// as it was, and the levels on the ticks that moved them.
pub proof fn a_replayed_tick_says_what_was_recorded(input: Input)
    requires
        one_entry_each(input),
    ensures
        forall|i: int|
            0 <= i < input.keys@.len() ==> said_of(
                tick_events(input),
                Device::Key((#[trigger] input.keys@[i]).0),
            ) == edges_said(input.keys@[i].1),
        forall|i: int|
            0 <= i < input.buttons@.len() ==> said_of(
                tick_events(input),
                Device::Button((#[trigger] input.buttons@[i]).0),
            ) == edges_said(input.buttons@[i].1),
        forall|i: int|
            0 <= i < input.pad@.len() ==> said_of(
                tick_events(input),
                Device::Pad((#[trigger] input.pad@[i]).0),
            ) == edges_said(input.pad@[i].1),
        forall|i: int|
            0 <= i < input.sticks@.len() ==> said_of(
                tick_events(input),
                Device::Stick((#[trigger] input.sticks@[i]).0),
            ) == level_said(input.sticks@[i].1),
        forall|i: int|
            0 <= i < input.triggers@.len() ==> said_of(
                tick_events(input),
                Device::Trigger((#[trigger] input.triggers@[i]).0),
            ) == trigger_said(input.triggers@[i].1, input.triggers@[i].2),
        said_of(tick_events(input), Device::Mouse) == motion_said(input.mouse_delta),
        said_of(tick_events(input), Device::Wheel) == wheel_said(input.wheel),
        said_of(tick_events(input), Device::Drive) == level_said(input.drive),
{
    assert forall|i: int| 0 <= i < input.keys@.len() implies said_of(
        tick_events(input),
        Device::Key((#[trigger] input.keys@[i]).0),
    ) == edges_said(input.keys@[i].1) by {
        every_part_speaks(input, Device::Key(input.keys@[i].0));
    }
    assert forall|i: int| 0 <= i < input.buttons@.len() implies said_of(
        tick_events(input),
        Device::Button((#[trigger] input.buttons@[i]).0),
    ) == edges_said(input.buttons@[i].1) by {
        every_part_speaks(input, Device::Button(input.buttons@[i].0));
    }
    assert forall|i: int| 0 <= i < input.pad@.len() implies said_of(
        tick_events(input),
        Device::Pad((#[trigger] input.pad@[i]).0),
    ) == edges_said(input.pad@[i].1) by {
        every_part_speaks(input, Device::Pad(input.pad@[i].0));
    }
    assert forall|i: int| 0 <= i < input.sticks@.len() implies said_of(
        tick_events(input),
        Device::Stick((#[trigger] input.sticks@[i]).0),
    ) == level_said(input.sticks@[i].1) by {
        every_part_speaks(input, Device::Stick(input.sticks@[i].0));
    }
    assert forall|i: int| 0 <= i < input.triggers@.len() implies said_of(
        tick_events(input),
        Device::Trigger((#[trigger] input.triggers@[i]).0),
    ) == trigger_said(input.triggers@[i].1, input.triggers@[i].2) by {
        every_part_speaks(input, Device::Trigger(input.triggers@[i].0));
    }
    every_part_speaks(input, Device::Mouse);
    every_part_speaks(input, Device::Wheel);
    every_part_speaks(input, Device::Drive);
}

/// Of the parts of a tick's events, only a device's own speaks of it.
proof fn every_part_speaks(input: Input, device: Device)
    requires
        one_entry_each(input),
    ensures
        said_of(tick_events(input), device) == (match device {
            Device::Key(_) => said_of(key_events(input.keys@), device),
            Device::Button(_) => said_of(button_events(input.buttons@), device),
            Device::Mouse => motion_said(input.mouse_delta),
            Device::Wheel => wheel_said(input.wheel),
            Device::Drive => level_said(input.drive),
            Device::Pad(_) => said_of(pad_events(input.pad@), device),
            Device::Stick(_) => said_of(stick_events(input.sticks@), device),
            Device::Trigger(_) => said_of(trigger_events(input.triggers@), device),
        }),
        forall|i: int|
            0 <= i < input.keys@.len() && device == Device::Key((#[trigger] input.keys@[i]).0)
                ==> said_of(key_events(input.keys@), device) == edges_said(input.keys@[i].1),
        forall|i: int|
            0 <= i < input.buttons@.len() && device == Device::Button(
                (#[trigger] input.buttons@[i]).0,
            ) ==> said_of(button_events(input.buttons@), device) == edges_said(
                input.buttons@[i].1,
            ),
        forall|i: int|
            0 <= i < input.pad@.len() && device == Device::Pad((#[trigger] input.pad@[i]).0)
                ==> said_of(pad_events(input.pad@), device) == edges_said(input.pad@[i].1),
        forall|i: int|
            0 <= i < input.sticks@.len() && device == Device::Stick(
                (#[trigger] input.sticks@[i]).0,
            ) ==> said_of(stick_events(input.sticks@), device) == level_said(input.sticks@[i].1),
        forall|i: int|
            0 <= i < input.triggers@.len() && device == Device::Trigger(
                (#[trigger] input.triggers@[i]).0,
            ) ==> said_of(trigger_events(input.triggers@), device) == trigger_said(
                input.triggers@[i].1,
                input.triggers@[i].2,
            ),
{
    tick_in_parts(input, device);
    keys_speak(input.keys@, device);
    buttons_speak(input.buttons@, device);
    pad_speaks(input.pad@, device);
    sticks_speak(input.sticks@, device);
    triggers_speak(input.triggers@, device);
    let none = Seq::<Saying>::empty();
    let k = said_of(key_events(input.keys@), device);
    let b = said_of(button_events(input.buttons@), device);
    let m = said_of(motion_events(input.mouse_delta), device);
    let w = said_of(wheel_events(input.wheel), device);
    let d = said_of(drive_events(input.drive), device);
    let p = said_of(pad_events(input.pad@), device);
    let s = said_of(stick_events(input.sticks@), device);
    let t = said_of(trigger_events(input.triggers@), device);
    let own = match device {
        Device::Key(_) => k,
        Device::Button(_) => b,
        Device::Mouse => m,
        Device::Wheel => w,
        Device::Drive => d,
        Device::Pad(_) => p,
        Device::Stick(_) => s,
        Device::Trigger(_) => t,
    };
    assert(device !is Key ==> k == none);
    assert(device !is Button ==> b == none);
    assert(device !is Pad ==> p == none);
    assert(device !is Stick ==> s == none);
    assert(device !is Trigger ==> t == none);
    assert(k + b + m + w + d + p + s + t =~= own);
}

/// A key or button comes out of a replayed tick as it came out of the recorded
/// one: tapped, let go, pressed again or untouched.
pub proof fn replay_keeps_edges(edges: Edges, before: bool)
    requires
        edges_follow(edges, before),
    ensures
        edges_after(edges_said(edges), before) == edges,
{
    let sayings = edges_said(edges);
    if edges.pressed {
        assert(sayings[0] == Saying::Down || sayings[1] == Saying::Down);
    }
    if edges.released {
        assert(sayings[0] == Saying::Up || sayings[1] == Saying::Up);
    }
}

/// A stick comes out of a replayed tick as it came out of the recorded one: one
/// that did not move is where the replay had it already.
pub proof fn replay_keeps_levels(level: Level, before: Vec2)
    requires
        !level.changed ==> level.dir == before,
    ensures
        level_after(level_said(level), before) == level,
{
}

/// Where finger `id` is once `events` have happened, if it is down.
pub open spec fn place_after(events: Seq<InputEvent>, id: u64, before: Option<Vec2>) -> Option<Vec2>
    decreases events.len(),
{
    if events.len() == 0 {
        before
    } else {
        match events.last() {
            InputEvent::Touch { id: i, phase: TouchPhase::Ended, .. } if i == id => None,
            InputEvent::Touch { id: i, x, y, .. } if i == id => Some(Vec2 { x, y }),
            _ => place_after(events.drop_last(), id, before),
        }
    }
}

/// Where the last of `touches` with contact number `id` is.
pub open spec fn last_place(touches: Seq<Touch>, id: u64) -> Option<Vec2>
    decreases touches.len(),
{
    if touches.len() == 0 {
        None
    } else if touches.last().id == id {
        Some(touches.last().pos)
    } else {
        last_place(touches.drop_last(), id)
    }
}

/// Where finger `id` is, if it is down.
pub open spec fn live_place(live: Seq<LiveTouch>, id: u64) -> Option<Vec2> {
    match live_touch(live, id) {
        Some(touch) => Some(touch.pos),
        None => None,
    }
}

/// Whether finger `id` is down and moved.
pub open spec fn has_moved(live: Seq<LiveTouch>, id: u64) -> bool {
    exists|i: int| 0 <= i < live.len() && (#[trigger] live[i]).touch.id == id && live[i].moved
}

/// Arrivals, motions and departures that finger `id`, which was at `before` or not
/// down, can have shown.
pub open spec fn touches_follow(input: Input, id: u64, before: Option<Vec2>) -> bool {
    let arrived = last_place(input.started@, id);
    let left = has_id(input.ended@, id);
    let place = live_place(input.live@, id);
    &&& forall|i: int|
        0 <= i < input.live@.len() && (#[trigger] input.live@[i]).touch.id == id ==> Some(
            input.live@[i].touch.pos,
        ) == place
    &&& arrived is Some && !left ==> place is Some
    &&& left && arrived is None ==> place is None
    &&& arrived is None && !left ==> (place is Some <==> before is Some)
    &&& place is Some && !has_moved(input.live@, id) ==> place == if arrived is Some {
        arrived
    } else {
        before
    }
}

proof fn place_after_both(
    a: Seq<InputEvent>,
    b: Seq<InputEvent>,
    id: u64,
    before: Option<Vec2>,
)
    ensures
        place_after(a + b, id, before) == place_after(b, id, place_after(a, id, before)),
    decreases b.len(),
{
    if b.len() == 0 {
        assert(a + b =~= a);
    } else {
        place_after_both(a, b.drop_last(), id, before);
        assert((a + b).drop_last() =~= a + b.drop_last());
        assert((a + b).last() == b.last());
    }
}

/// No finger's events, and no loss of focus.
pub open spec fn without_fingers(events: Seq<InputEvent>) -> bool {
    forall|i: int|
        0 <= i < events.len() ==> (#[trigger] events[i]) !is Touch && events[i] !is FocusLost
}

/// Nothing but fingers' events.
spec fn only_fingers(events: Seq<InputEvent>) -> bool {
    forall|i: int| 0 <= i < events.len() ==> (#[trigger] events[i]) is Touch
}

proof fn others_move_no_finger(events: Seq<InputEvent>, id: u64, before: Option<Vec2>)
    requires
        without_fingers(events),
    ensures
        place_after(events, id, before) == before,
    decreases events.len(),
{
    if events.len() > 0 {
        others_move_no_finger(events.drop_last(), id, before);
        assert(events[events.len() - 1] !is Touch);
    }
}

proof fn keys_are_no_fingers(keys: Seq<(Key, Edges)>)
    ensures
        without_fingers(key_events(keys)),
    decreases keys.len(),
{
    if keys.len() > 0 {
        keys_are_no_fingers(keys.drop_last());
    }
}

proof fn buttons_are_no_fingers(buttons: Seq<(u8, Edges)>)
    ensures
        without_fingers(button_events(buttons)),
    decreases buttons.len(),
{
    if buttons.len() > 0 {
        buttons_are_no_fingers(buttons.drop_last());
    }
}

proof fn pad_is_no_finger(pad: Seq<(PadButton, Edges)>)
    ensures
        without_fingers(pad_events(pad)),
    decreases pad.len(),
{
    if pad.len() > 0 {
        pad_is_no_finger(pad.drop_last());
    }
}

proof fn sticks_are_no_fingers(sticks: Seq<(PadStick, Level)>)
    ensures
        without_fingers(stick_events(sticks)),
    decreases sticks.len(),
{
    if sticks.len() > 0 {
        sticks_are_no_fingers(sticks.drop_last());
    }
}

proof fn triggers_are_no_fingers(triggers: Seq<(PadTrigger, F32, bool)>)
    ensures
        without_fingers(trigger_events(triggers)),
    decreases triggers.len(),
{
    if triggers.len() > 0 {
        triggers_are_no_fingers(triggers.drop_last());
    }
}

/// The part of a tick's events before the fingers'.
pub open spec fn device_events(input: Input) -> Seq<InputEvent> {
    key_events(input.keys@) + button_events(input.buttons@) + motion_events(input.mouse_delta)
        + wheel_events(input.wheel) + drive_events(input.drive) + pad_events(input.pad@)
        + stick_events(input.sticks@) + trigger_events(input.triggers@)
}

pub(crate) proof fn devices_are_no_fingers(input: Input)
    ensures
        without_fingers(device_events(input)),
        tick_events(input) == device_events(input) + touch_events(input),
{
    keys_are_no_fingers(input.keys@);
    buttons_are_no_fingers(input.buttons@);
    pad_is_no_finger(input.pad@);
    sticks_are_no_fingers(input.sticks@);
    triggers_are_no_fingers(input.triggers@);
    let k = key_events(input.keys@);
    let b = button_events(input.buttons@);
    let m = motion_events(input.mouse_delta);
    let w = wheel_events(input.wheel);
    let d = drive_events(input.drive);
    let p = pad_events(input.pad@);
    let s = stick_events(input.sticks@);
    assert(without_fingers(k + b));
    assert(without_fingers(k + b + m));
    assert(without_fingers(k + b + m + w));
    assert(without_fingers(k + b + m + w + d));
    assert(without_fingers(k + b + m + w + d + p));
    assert(without_fingers(k + b + m + w + d + p + s));
}

proof fn departures_are_fingers(ended: Seq<Touch>, live: Seq<LiveTouch>, down: bool)
    ensures
        only_fingers(departure_events(ended, live, down)),
    decreases ended.len(),
{
    if ended.len() > 0 {
        departures_are_fingers(ended.drop_last(), live, down);
    }
}

proof fn motions_are_fingers(live: Seq<LiveTouch>)
    ensures
        only_fingers(moved_events(live)),
    decreases live.len(),
{
    if live.len() > 0 {
        motions_are_fingers(live.drop_last());
    }
}

/// A loss of focus is never recorded: the tick that saw it is recorded as the
/// releases and the departures that it came to.
pub proof fn focus_is_not_recorded(input: Input, i: int)
    requires
        0 <= i < tick_events(input).len(),
    ensures
        tick_events(input)[i] !is FocusLost,
{
    devices_are_no_fingers(input);
    departures_are_fingers(input.ended@, input.live@, true);
    departures_are_fingers(input.ended@, input.live@, false);
    motions_are_fingers(input.live@);
    assert(only_fingers(touch_events(input)));
    let n = device_events(input).len() as int;
    if i < n {
        assert(tick_events(input)[i] == device_events(input)[i]);
    } else {
        assert(tick_events(input)[i] == touch_events(input)[i - n]);
    }
}

pub(crate) proof fn has_id_of_last(touches: Seq<Touch>, id: u64)
    requires
        touches.len() > 0,
    ensures
        has_id(touches, id) == (has_id(touches.drop_last(), id) || touches.last().id == id),
{
    let front = touches.drop_last();
    assert(touches[touches.len() - 1] == touches.last());
    if has_id(front, id) {
        let i = choose|i: int| 0 <= i < front.len() && (#[trigger] front[i]).id == id;
        assert(touches[i].id == id);
    }
    if has_id(touches, id) && touches.last().id != id {
        let i = choose|i: int| 0 <= i < touches.len() && (#[trigger] touches[i]).id == id;
        assert(front[i].id == id);
    }
}

proof fn departures_leave(
    ended: Seq<Touch>,
    live: Seq<LiveTouch>,
    down: bool,
    id: u64,
    before: Option<Vec2>,
)
    ensures
        place_after(departure_events(ended, live, down), id, before) == if has_id(ended, id)
            && is_live(live, id) == down {
            None
        } else {
            before
        },
    decreases ended.len(),
{
    if ended.len() > 0 {
        departures_leave(ended.drop_last(), live, down, id, before);
        has_id_of_last(ended, id);
        let earlier = departure_events(ended.drop_last(), live, down);
        let event = touch_event(ended.last(), TouchPhase::Ended);
        assert(earlier.push(event).drop_last() =~= earlier);
    }
}

proof fn arrivals_leave(started: Seq<Touch>, id: u64, before: Option<Vec2>)
    ensures
        place_after(arrival_events(started), id, before) == if last_place(started, id) is Some {
            last_place(started, id)
        } else {
            before
        },
    decreases started.len(),
{
    if started.len() > 0 {
        arrivals_leave(started.drop_last(), id, before);
        assert(arrival_events(started).drop_last() =~= arrival_events(started.drop_last()));
    }
}

proof fn motions_leave(live: Seq<LiveTouch>, id: u64, before: Option<Vec2>, place: Vec2)
    requires
        forall|i: int|
            0 <= i < live.len() && (#[trigger] live[i]).touch.id == id ==> live[i].touch.pos
                == place,
    ensures
        place_after(moved_events(live), id, before) == if has_moved(live, id) {
            Some(place)
        } else {
            before
        },
    decreases live.len(),
{
    if live.len() > 0 {
        let front = live.drop_last();
        assert(forall|i: int| 0 <= i < front.len() ==> (#[trigger] front[i]) == live[i]);
        motions_leave(front, id, before, place);
        let last = live[live.len() - 1];
        assert(has_moved(live, id) == (has_moved(front, id) || (last.touch.id == id
            && last.moved))) by {
            if has_moved(front, id) {
                let i = choose|i: int|
                    0 <= i < front.len() && (#[trigger] front[i]).touch.id == id && front[i].moved;
                assert(live[i] == front[i]);
            }
            if has_moved(live, id) && !(last.touch.id == id && last.moved) {
                let i = choose|i: int|
                    0 <= i < live.len() && (#[trigger] live[i]).touch.id == id && live[i].moved;
                assert(front[i] == live[i]);
            }
        }
        let earlier = moved_events(front);
        let event = touch_event(last.touch, TouchPhase::Moved);
        assert(earlier.push(event).drop_last() =~= earlier);
    }
}

proof fn live_is_somewhere(live: Seq<LiveTouch>, id: u64)
    ensures
        is_live(live, id) == (live_place(live, id) is Some),
    decreases live.len(),
{
    if live.len() > 0 {
        let rest = live.drop_first();
        live_is_somewhere(rest, id);
        if is_live(rest, id) {
            let i = choose|i: int| 0 <= i < rest.len() && (#[trigger] rest[i]).touch.id == id;
            assert(live[i + 1].touch.id == id);
        }
        if is_live(live, id) && live[0].touch.id != id {
            let i = choose|i: int| 0 <= i < live.len() && (#[trigger] live[i]).touch.id == id;
            assert(rest[i - 1] == live[i]);
        }
    }
}

/// Replaying a recorded tick leaves every finger where the tick left it: down
/// exactly if it was down, at the place where it was, a contact number that
/// another finger took over inside the tick included.
pub proof fn replay_keeps_fingers(input: Input, id: u64, before: Option<Vec2>)
    requires
        touches_follow(input, id, before),
    ensures
        place_after(tick_events(input), id, before) == live_place(input.live@, id),
{
    devices_are_no_fingers(input);
    place_after_both(device_events(input), touch_events(input), id, before);
    others_move_no_finger(device_events(input), id, before);

    let gone = departure_events(input.ended@, input.live@, true);
    let here = arrival_events(input.started@);
    let moved = moved_events(input.live@);
    let left = departure_events(input.ended@, input.live@, false);
    place_after_both(gone, here, id, before);
    place_after_both(gone + here, moved, id, before);
    place_after_both(gone + here + moved, left, id, before);
    departures_leave(input.ended@, input.live@, true, id, before);
    let after_gone = place_after(gone, id, before);
    arrivals_leave(input.started@, id, after_gone);
    let after_here = place_after(here, id, after_gone);
    live_is_somewhere(input.live@, id);
    let place = match live_place(input.live@, id) {
        Some(p) => p,
        None => Vec2 { x: F32(0), y: F32(0) },
    };
    motions_leave(input.live@, id, after_here, place);
    departures_leave(input.ended@, input.live@, false, id, place_after(moved, id, after_here));
}

} // verus!
