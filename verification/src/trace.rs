//! Input traces: record a run's input tick by tick, and hand it back.
//!
//! An [`InputTrace`] pairs events with tick indices rather than with times, so
//! two hosts that replay one trace give every tick the same input however their
//! frames fell. [`record`] derives a tick's events from the [`Input`] that the
//! tick saw, in one fixed order, so what a trace holds of a tick depends on that
//! tick's input alone. [`apply`] replaces a tick's input with one that is rebuilt from
//! the trace and from nothing else.

use vstd::prelude::*;
use crate::float::{F32, Vec2, same_value};
use crate::input::{
    alike, at_rest, is_live, Edges, Input, InputEvent, Key, Level, LiveTouch, PadButton, PadStick, PadTrigger,
    Touch, TouchPhase,
};

verus! {

/// One event, and the tick it belongs to.
#[derive(Clone, Copy, Debug, PartialEq, Eq, Structural, Hash)]
pub struct TickEvent {
    pub tick: u64,
    pub event: InputEvent,
}

/// A recorded run's input, in tick order.
#[derive(Debug, PartialEq, Eq)]
pub struct InputTrace {
    /// Sorted by `tick`; within a tick, in the order the events happened.
    pub events: Vec<TickEvent>,
}

/// Ticks never go backwards along `events`.
pub open spec fn in_tick_order(events: Seq<TickEvent>) -> bool {
    forall|i: int, j: int|
        0 <= i <= j < events.len() ==> (#[trigger] events[i]).tick <= (#[trigger] events[j]).tick
}

/// The events that `events` holds for `tick`, in order.
pub open spec fn at_tick(events: Seq<TickEvent>, tick: u64) -> Seq<InputEvent>
    decreases events.len(),
{
    if events.len() == 0 {
        Seq::empty()
    } else {
        let before = at_tick(events.drop_last(), tick);
        if events.last().tick == tick {
            before.push(events.last().event)
        } else {
            before
        }
    }
}

/// `events`, each stamped with `tick`.
pub open spec fn stamped(events: Seq<InputEvent>, tick: u64) -> Seq<TickEvent> {
    events.map_values(|event: InputEvent| TickEvent { tick, event })
}

/// The events that describe what one key or button did inside a tick. Two edges
/// go out in the order that ends where the device ended: a tap is a press and
/// then a release, a re-press is a release and then a press.
pub open spec fn edge_events(edges: Edges, down: InputEvent, up: InputEvent) -> Seq<InputEvent> {
    if edges.pressed && edges.released {
        if edges.held {
            seq![up, down]
        } else {
            seq![down, up]
        }
    } else if edges.pressed {
        seq![down]
    } else if edges.released {
        seq![up]
    } else {
        Seq::empty()
    }
}

/// The events of the keys, one key after another.
pub open spec fn key_events(keys: Seq<(Key, Edges)>) -> Seq<InputEvent>
    decreases keys.len(),
{
    if keys.len() == 0 {
        Seq::empty()
    } else {
        key_events(keys.drop_last()) + edge_events(
            keys.last().1,
            InputEvent::KeyDown(keys.last().0),
            InputEvent::KeyUp(keys.last().0),
        )
    }
}

/// The events of the mouse buttons.
pub open spec fn button_events(buttons: Seq<(u8, Edges)>) -> Seq<InputEvent>
    decreases buttons.len(),
{
    if buttons.len() == 0 {
        Seq::empty()
    } else {
        let button = buttons.last().0;
        button_events(buttons.drop_last()) + edge_events(
            buttons.last().1,
            InputEvent::MouseButton { button, pressed: true },
            InputEvent::MouseButton { button, pressed: false },
        )
    }
}

/// The event of the mouse motion, if the mouse moved.
pub open spec fn motion_events(delta: Vec2) -> Seq<InputEvent> {
    if same_value(delta.x, F32(0)) && same_value(delta.y, F32(0)) {
        Seq::empty()
    } else {
        seq![InputEvent::MouseMove { dx: delta.x, dy: delta.y }]
    }
}

/// The event of the wheel, if it turned.
pub open spec fn wheel_events(wheel: F32) -> Seq<InputEvent> {
    if same_value(wheel, F32(0)) {
        Seq::empty()
    } else {
        seq![InputEvent::Wheel { dy: wheel }]
    }
}

/// The event of the drive stick, on a tick that moved it.
pub open spec fn drive_events(drive: Level) -> Seq<InputEvent> {
    if drive.changed {
        seq![InputEvent::TouchDrive { dir: drive.dir }]
    } else {
        Seq::empty()
    }
}

/// The events of the pad's buttons.
pub open spec fn pad_events(pad: Seq<(PadButton, Edges)>) -> Seq<InputEvent>
    decreases pad.len(),
{
    if pad.len() == 0 {
        Seq::empty()
    } else {
        let button = pad.last().0;
        pad_events(pad.drop_last()) + edge_events(
            pad.last().1,
            InputEvent::PadButton { button, pressed: true },
            InputEvent::PadButton { button, pressed: false },
        )
    }
}

/// The events of the pad's sticks that moved.
pub open spec fn stick_events(sticks: Seq<(PadStick, Level)>) -> Seq<InputEvent>
    decreases sticks.len(),
{
    if sticks.len() == 0 {
        Seq::empty()
    } else {
        let before = stick_events(sticks.drop_last());
        let (stick, level) = sticks.last();
        if level.changed {
            before.push(InputEvent::PadStick { stick, dir: level.dir })
        } else {
            before
        }
    }
}

/// The events of the pad's triggers that moved.
pub open spec fn trigger_events(triggers: Seq<(PadTrigger, F32, bool)>) -> Seq<InputEvent>
    decreases triggers.len(),
{
    if triggers.len() == 0 {
        Seq::empty()
    } else {
        let before = trigger_events(triggers.drop_last());
        let (trigger, value, changed) = triggers.last();
        if changed {
            before.push(InputEvent::PadTrigger { trigger, value })
        } else {
            before
        }
    }
}

/// The event that says `touch` went through `phase`.
pub open spec fn touch_event(touch: Touch, phase: TouchPhase) -> InputEvent {
    InputEvent::Touch { id: touch.id, phase, x: touch.pos.x, y: touch.pos.y }
}

/// The departures, of the fingers whose contact number is still down (`down`)
/// or of the others.
pub open spec fn departure_events(
    ended: Seq<Touch>,
    live: Seq<LiveTouch>,
    down: bool,
) -> Seq<InputEvent>
    decreases ended.len(),
{
    if ended.len() == 0 {
        Seq::empty()
    } else {
        let before = departure_events(ended.drop_last(), live, down);
        if is_live(live, ended.last().id) == down {
            before.push(touch_event(ended.last(), TouchPhase::Ended))
        } else {
            before
        }
    }
}

/// The arrivals.
pub open spec fn arrival_events(started: Seq<Touch>) -> Seq<InputEvent> {
    started.map_values(|touch: Touch| touch_event(touch, TouchPhase::Started))
}

/// The motions of the fingers that moved.
pub open spec fn moved_events(live: Seq<LiveTouch>) -> Seq<InputEvent>
    decreases live.len(),
{
    if live.len() == 0 {
        Seq::empty()
    } else {
        let before = moved_events(live.drop_last());
        if live.last().moved {
            before.push(touch_event(live.last().touch, TouchPhase::Moved))
        } else {
            before
        }
    }
}

/// The fingers' events: departures of contact numbers that are down again,
/// arrivals, motions, and the other departures.
pub open spec fn touch_events(input: Input) -> Seq<InputEvent> {
    departure_events(input.ended@, input.live@, true) + arrival_events(input.started@)
        + moved_events(input.live@) + departure_events(input.ended@, input.live@, false)
}

/// Everything a tick with this input is recorded as.
pub open spec fn tick_events(input: Input) -> Seq<InputEvent> {
    key_events(input.keys@) + button_events(input.buttons@) + motion_events(input.mouse_delta)
        + wheel_events(input.wheel) + drive_events(input.drive) + pad_events(input.pad@)
        + stick_events(input.sticks@) + trigger_events(input.triggers@) + touch_events(input)
}

/// Whether a trace of these events may go on at `tick`.
pub open spec fn may_go_on(events: Seq<TickEvent>, tick: u64) -> bool {
    in_tick_order(events) && (events.len() > 0 ==> events.last().tick <= tick)
}

impl InputTrace {
    /// A trace of nothing.
    pub fn new() -> (r: InputTrace)
        ensures
            r.events@ == Seq::<TickEvent>::empty(),
    {
        InputTrace { events: Vec::new() }
    }

    /// Append an event for `tick`. Ticks do not go backwards.
    pub fn push(&mut self, tick: u64, event: InputEvent)
        requires
            may_go_on(old(self).events@, tick),
        ensures
            final(self).events@ == old(self).events@.push(TickEvent { tick, event }),
            may_go_on(final(self).events@, tick),
    {
        self.events.push(TickEvent { tick, event });
    }

    /// Append the events of one key or button.
    fn push_edges(&mut self, now: u64, edges: Edges, down: InputEvent, up: InputEvent)
        requires
            may_go_on(old(self).events@, now),
        ensures
            final(self).events@ == old(self).events@ + stamped(edge_events(edges, down, up), now),
            may_go_on(final(self).events@, now),
    {
        if edges.pressed && edges.released {
            if edges.held {
                self.push(now, up);
                self.push(now, down);
            } else {
                self.push(now, down);
                self.push(now, up);
            }
        } else if edges.pressed {
            self.push(now, down);
        } else if edges.released {
            self.push(now, up);
        }
        proof {
            assert(self.events@ =~= old(self).events@ + stamped(edge_events(edges, down, up), now));
        }
    }
}

impl Clone for InputTrace {
    fn clone(&self) -> (r: InputTrace)
        ensures
            r.events@ == self.events@,
    {
        let events = self.events.clone();
        proof {
            assert(events@ =~= self.events@);
        }
        InputTrace { events }
    }
}

impl InputTrace {
    /// Build from `(tick, event)` pairs, which need not come in order. Pairs for
    /// one tick keep the order they came in.
    pub fn from_pairs(pairs: Vec<(u64, InputEvent)>) -> (r: InputTrace)
        ensures
            sorts(pairs@, r.events@),
    {
        let mut events: Vec<TickEvent> = Vec::new();
        let mut i: usize = 0;
        proof {
            assert(paired(pairs@).take(0) =~= Seq::<TickEvent>::empty());
        }
        while i < pairs.len()
            invariant
                i <= pairs.len(),
                events.len() == i,
                in_tick_order(events@),
                forall|tick: u64|
                    #[trigger] at_tick(events@, tick) == at_tick(
                        paired(pairs@).take(i as int),
                        tick,
                    ),
            decreases pairs.len() - i,
        {
            let (tick, event): (u64, InputEvent) = pairs[i];
            let place: usize = first_after(&events, tick);
            let ghost before = events@;
            events.insert(place, TickEvent { tick, event });
            proof {
                take_step(paired(pairs@), i as int);
                assert forall|t: u64| #[trigger]
                    at_tick(events@, t) == at_tick(paired(pairs@).take(i + 1), t) by {
                    at_tick_insert(before, place as int, TickEvent { tick, event }, t);
                    assert(at_tick(before, t) == at_tick(paired(pairs@).take(i as int), t));
                }
            }
            i = i + 1;
        }
        proof {
            assert(paired(pairs@).take(i as int) =~= paired(pairs@));
        }
        InputTrace { events }
    }

    pub fn len(&self) -> (r: usize)
        ensures
            r == self.events@.len(),
    {
        self.events.len()
    }

    pub fn is_empty(&self) -> (r: bool)
        ensures
            r == (self.events@.len() == 0),
    {
        self.events.len() == 0
    }

    /// The last tick with an event on it: how long a replay has to run.
    pub fn last_tick(&self) -> (r: Option<u64>)
        ensures
            r == last_tick(self.events@),
    {
        if self.events.len() == 0 {
            None
        } else {
            Some(self.events[self.events.len() - 1].tick)
        }
    }

    /// This tick's events, in order. The start of the tick's run is found by
    /// bisection, so replaying a trace does not cost its square.
    pub fn events_at(&self, tick: u64) -> (r: Vec<InputEvent>)
        requires
            in_tick_order(self.events@),
        ensures
            r@ == at_tick(self.events@, tick),
    {
        let start: usize = first_not_before(&self.events, tick);
        let mut found: Vec<InputEvent> = Vec::new();
        let mut i: usize = start;
        proof {
            no_such_tick(self.events@.take(start as int), tick);
        }
        while i < self.events.len() && self.events[i].tick == tick
            invariant
                start <= i <= self.events.len(),
                found@ == at_tick(self.events@.take(i as int), tick),
            decreases self.events.len() - i,
        {
            proof {
                take_step(self.events@, i as int);
            }
            found.push(self.events[i].event);
            i = i + 1;
        }
        proof {
            let rest = self.events@.skip(i as int);
            assert forall|j: int| 0 <= j < rest.len() implies (#[trigger] rest[j]).tick
                != tick by {
                assert(rest[j] == self.events@[i + j]);
                assert(self.events@[i as int].tick <= self.events@[i + j].tick);
            }
            no_such_tick(rest, tick);
            at_tick_append(self.events@.take(i as int), rest, tick);
            assert(self.events@ =~= self.events@.take(i as int) + rest);
        }
        found
    }
}

/// The tick of the last event, if there is one.
pub open spec fn last_tick(events: Seq<TickEvent>) -> Option<u64> {
    if events.len() == 0 {
        None
    } else {
        Some(events.last().tick)
    }
}

/// Whether `r` has these pairs by tick, those of one tick in the order they came in.
pub open spec fn sorts(pairs: Seq<(u64, InputEvent)>, r: Seq<TickEvent>) -> bool {
    &&& in_tick_order(r)
    &&& r.len() == pairs.len()
    &&& forall|tick: u64| #[trigger] at_tick(r, tick) == at_tick(paired(pairs), tick)
}

/// How many ticks from `tick` on there are to the last event.
pub open spec fn ticks_left(events: Seq<TickEvent>, tick: u64) -> u64 {
    match last_tick(events) {
        Some(last) if last > tick => (last - tick) as u64,
        _ => 0,
    }
}

/// Pairs, as events with their ticks.
pub open spec fn paired(pairs: Seq<(u64, InputEvent)>) -> Seq<TickEvent> {
    pairs.map_values(|pair: (u64, InputEvent)| TickEvent { tick: pair.0, event: pair.1 })
}

/// The place of the first event after `tick`.
fn first_after(events: &Vec<TickEvent>, tick: u64) -> (place: usize)
    requires
        in_tick_order(events@),
    ensures
        place <= events@.len(),
        forall|i: int| 0 <= i < place ==> (#[trigger] events@[i]).tick <= tick,
        forall|i: int| place <= i < events@.len() ==> (#[trigger] events@[i]).tick > tick,
{
    let mut low: usize = 0;
    let mut high: usize = events.len();
    while low < high
        invariant
            low <= high <= events.len(),
            in_tick_order(events@),
            forall|i: int| 0 <= i < low ==> (#[trigger] events@[i]).tick <= tick,
            forall|i: int| high <= i < events@.len() ==> (#[trigger] events@[i]).tick > tick,
        decreases high - low,
    {
        let middle: usize = low + (high - low) / 2;
        if events[middle].tick <= tick {
            low = middle + 1;
        } else {
            high = middle;
        }
    }
    low
}

/// The place of the first event at or after `tick`.
fn first_not_before(events: &Vec<TickEvent>, tick: u64) -> (place: usize)
    requires
        in_tick_order(events@),
    ensures
        place <= events@.len(),
        forall|i: int| 0 <= i < place ==> (#[trigger] events@[i]).tick < tick,
        forall|i: int| place <= i < events@.len() ==> (#[trigger] events@[i]).tick >= tick,
{
    let mut low: usize = 0;
    let mut high: usize = events.len();
    while low < high
        invariant
            low <= high <= events.len(),
            in_tick_order(events@),
            forall|i: int| 0 <= i < low ==> (#[trigger] events@[i]).tick < tick,
            forall|i: int| high <= i < events@.len() ==> (#[trigger] events@[i]).tick >= tick,
        decreases high - low,
    {
        let middle: usize = low + (high - low) / 2;
        if events[middle].tick < tick {
            low = middle + 1;
        } else {
            high = middle;
        }
    }
    low
}

/// What a tick has of two stretches of a trace, it has of their concatenation.
pub(crate) proof fn at_tick_append(a: Seq<TickEvent>, b: Seq<TickEvent>, tick: u64)
    ensures
        at_tick(a + b, tick) == at_tick(a, tick) + at_tick(b, tick),
    decreases b.len(),
{
    if b.len() == 0 {
        assert(a + b =~= a);
        assert(at_tick(a, tick) + at_tick(b, tick) =~= at_tick(a, tick));
    } else {
        at_tick_append(a, b.drop_last(), tick);
        assert((a + b).drop_last() =~= a + b.drop_last());
        assert((a + b).last() == b.last());
        assert(at_tick(a + b, tick) =~= at_tick(a, tick) + at_tick(b, tick));
    }
}

/// A stretch without events for `tick` adds none.
proof fn no_such_tick(events: Seq<TickEvent>, tick: u64)
    requires
        forall|i: int| 0 <= i < events.len() ==> (#[trigger] events[i]).tick != tick,
    ensures
        at_tick(events, tick) == Seq::<InputEvent>::empty(),
    decreases events.len(),
{
    if events.len() > 0 {
        no_such_tick(events.drop_last(), tick);
    }
}

/// Events stamped with one tick are that tick's events, and no other's.
pub(crate) proof fn at_tick_stamped(events: Seq<InputEvent>, now: u64, tick: u64)
    ensures
        at_tick(stamped(events, now), tick) == if tick == now {
            events
        } else {
            Seq::<InputEvent>::empty()
        },
    decreases events.len(),
{
    if events.len() > 0 {
        at_tick_stamped(events.drop_last(), now, tick);
        assert(stamped(events, now).drop_last() =~= stamped(events.drop_last(), now));
        assert(events.drop_last().push(events.last()) =~= events);
    } else {
        assert(stamped(events, now) =~= Seq::<TickEvent>::empty());
        assert(events =~= Seq::<InputEvent>::empty());
    }
}

/// An event put before everything later than it comes last in its own tick.
proof fn at_tick_insert(events: Seq<TickEvent>, place: int, new: TickEvent, tick: u64)
    requires
        0 <= place <= events.len(),
        forall|i: int| place <= i < events.len() ==> (#[trigger] events[i]).tick > new.tick,
    ensures
        at_tick(events.insert(place, new), tick) == if new.tick == tick {
            at_tick(events, tick).push(new.event)
        } else {
            at_tick(events, tick)
        },
{
    let front = events.take(place);
    let back = events.skip(place);
    assert(events =~= front + back);
    assert(events.insert(place, new) =~= front.push(new) + back);
    at_tick_append(front, back, tick);
    at_tick_append(front.push(new), back, tick);
    assert(front.push(new).drop_last() =~= front);
    if new.tick == tick {
        assert forall|i: int| 0 <= i < back.len() implies (#[trigger] back[i]).tick != tick by {
            assert(back[i] == events[place + i]);
        }
        no_such_tick(back, tick);
        assert(at_tick(events, tick).push(new.event) =~= at_tick(front.push(new), tick)
            + at_tick(back, tick));
    }
}

/// Appending one sequence of events after another.
proof fn stamped_append(a: Seq<InputEvent>, b: Seq<InputEvent>, tick: u64)
    ensures
        stamped(a + b, tick) == stamped(a, tick) + stamped(b, tick),
{
    assert(stamped(a + b, tick) =~= stamped(a, tick) + stamped(b, tick));
}

/// Appending one event.
proof fn stamped_push(a: Seq<InputEvent>, event: InputEvent, tick: u64)
    ensures
        stamped(a.push(event), tick) == stamped(a, tick).push(TickEvent { tick, event }),
{
    assert(stamped(a.push(event), tick) =~= stamped(a, tick).push(TickEvent { tick, event }));
}

/// One step of a walk over a sequence from the front.
proof fn take_step<T>(s: Seq<T>, i: int)
    requires
        0 <= i < s.len(),
    ensures
        s.take(i + 1).drop_last() == s.take(i),
        s.take(i + 1).last() == s[i],
        s.take(i + 1).len() == i + 1,
        s.take(0) == Seq::<T>::empty(),
{
    assert(s.take(i + 1).drop_last() =~= s.take(i));
    assert(s.take(0) =~= Seq::<T>::empty());
}

fn record_keys(trace: &mut InputTrace, now: u64, keys: &Vec<(Key, Edges)>)
    requires
        may_go_on(old(trace).events@, now),
    ensures
        final(trace).events@ == old(trace).events@ + stamped(key_events(keys@), now),
        may_go_on(final(trace).events@, now),
{
    let ghost base = trace.events@;
    let mut i: usize = 0;
    proof {
        assert(keys@.take(0) =~= Seq::<(Key, Edges)>::empty());
        assert(base + stamped(key_events(keys@.take(0)), now) =~= base);
    }
    while i < keys.len()
        invariant
            i <= keys.len(),
            may_go_on(trace.events@, now),
            trace.events@ == base + stamped(key_events(keys@.take(i as int)), now),
        decreases keys.len() - i,
    {
        let (key, edges) = keys[i];
        trace.push_edges(now, edges, InputEvent::KeyDown(key), InputEvent::KeyUp(key));
        proof {
            take_step(keys@, i as int);
            stamped_append(
                key_events(keys@.take(i as int)),
                edge_events(edges, InputEvent::KeyDown(key), InputEvent::KeyUp(key)),
                now,
            );
            assert(trace.events@ =~= base + stamped(key_events(keys@.take(i + 1)), now));
        }
        i = i + 1;
    }
    proof {
        assert(keys@.take(i as int) =~= keys@);
    }
}

fn record_buttons(trace: &mut InputTrace, now: u64, buttons: &Vec<(u8, Edges)>)
    requires
        may_go_on(old(trace).events@, now),
    ensures
        final(trace).events@ == old(trace).events@ + stamped(button_events(buttons@), now),
        may_go_on(final(trace).events@, now),
{
    let ghost base = trace.events@;
    let mut i: usize = 0;
    proof {
        assert(buttons@.take(0) =~= Seq::<(u8, Edges)>::empty());
        assert(base + stamped(button_events(buttons@.take(0)), now) =~= base);
    }
    while i < buttons.len()
        invariant
            i <= buttons.len(),
            may_go_on(trace.events@, now),
            trace.events@ == base + stamped(button_events(buttons@.take(i as int)), now),
        decreases buttons.len() - i,
    {
        let (button, edges): (u8, Edges) = buttons[i];
        let down = InputEvent::MouseButton { button, pressed: true };
        let up = InputEvent::MouseButton { button, pressed: false };
        trace.push_edges(now, edges, down, up);
        proof {
            take_step(buttons@, i as int);
            stamped_append(
                button_events(buttons@.take(i as int)),
                edge_events(edges, down, up),
                now,
            );
            assert(trace.events@ =~= base + stamped(button_events(buttons@.take(i + 1)), now));
        }
        i = i + 1;
    }
    proof {
        assert(buttons@.take(i as int) =~= buttons@);
    }
}

fn record_pad(trace: &mut InputTrace, now: u64, pad: &Vec<(PadButton, Edges)>)
    requires
        may_go_on(old(trace).events@, now),
    ensures
        final(trace).events@ == old(trace).events@ + stamped(pad_events(pad@), now),
        may_go_on(final(trace).events@, now),
{
    let ghost base = trace.events@;
    let mut i: usize = 0;
    proof {
        assert(pad@.take(0) =~= Seq::<(PadButton, Edges)>::empty());
        assert(base + stamped(pad_events(pad@.take(0)), now) =~= base);
    }
    while i < pad.len()
        invariant
            i <= pad.len(),
            may_go_on(trace.events@, now),
            trace.events@ == base + stamped(pad_events(pad@.take(i as int)), now),
        decreases pad.len() - i,
    {
        let (button, edges) = pad[i];
        let down = InputEvent::PadButton { button, pressed: true };
        let up = InputEvent::PadButton { button, pressed: false };
        trace.push_edges(now, edges, down, up);
        proof {
            take_step(pad@, i as int);
            stamped_append(pad_events(pad@.take(i as int)), edge_events(edges, down, up), now);
            assert(trace.events@ =~= base + stamped(pad_events(pad@.take(i + 1)), now));
        }
        i = i + 1;
    }
    proof {
        assert(pad@.take(i as int) =~= pad@);
    }
}

fn record_sticks(trace: &mut InputTrace, now: u64, sticks: &Vec<(PadStick, Level)>)
    requires
        may_go_on(old(trace).events@, now),
    ensures
        final(trace).events@ == old(trace).events@ + stamped(stick_events(sticks@), now),
        may_go_on(final(trace).events@, now),
{
    let ghost base = trace.events@;
    let mut i: usize = 0;
    proof {
        assert(sticks@.take(0) =~= Seq::<(PadStick, Level)>::empty());
        assert(base + stamped(stick_events(sticks@.take(0)), now) =~= base);
    }
    while i < sticks.len()
        invariant
            i <= sticks.len(),
            may_go_on(trace.events@, now),
            trace.events@ == base + stamped(stick_events(sticks@.take(i as int)), now),
        decreases sticks.len() - i,
    {
        let (stick, level) = sticks[i];
        proof {
            take_step(sticks@, i as int);
            stamped_push(
                stick_events(sticks@.take(i as int)),
                InputEvent::PadStick { stick, dir: level.dir },
                now,
            );
        }
        if level.changed {
            trace.push(now, InputEvent::PadStick { stick, dir: level.dir });
        }
        proof {
            assert(trace.events@ =~= base + stamped(stick_events(sticks@.take(i + 1)), now));
        }
        i = i + 1;
    }
    proof {
        assert(sticks@.take(i as int) =~= sticks@);
    }
}

fn record_triggers(trace: &mut InputTrace, now: u64, triggers: &Vec<(PadTrigger, F32, bool)>)
    requires
        may_go_on(old(trace).events@, now),
    ensures
        final(trace).events@ == old(trace).events@ + stamped(trigger_events(triggers@), now),
        may_go_on(final(trace).events@, now),
{
    let ghost base = trace.events@;
    let mut i: usize = 0;
    proof {
        assert(triggers@.take(0) =~= Seq::<(PadTrigger, F32, bool)>::empty());
        assert(base + stamped(trigger_events(triggers@.take(0)), now) =~= base);
    }
    while i < triggers.len()
        invariant
            i <= triggers.len(),
            may_go_on(trace.events@, now),
            trace.events@ == base + stamped(trigger_events(triggers@.take(i as int)), now),
        decreases triggers.len() - i,
    {
        let (trigger, value, changed) = triggers[i];
        proof {
            take_step(triggers@, i as int);
            stamped_push(
                trigger_events(triggers@.take(i as int)),
                InputEvent::PadTrigger { trigger, value },
                now,
            );
        }
        if changed {
            trace.push(now, InputEvent::PadTrigger { trigger, value });
        }
        proof {
            assert(trace.events@ =~= base + stamped(trigger_events(triggers@.take(i + 1)), now));
        }
        i = i + 1;
    }
    proof {
        assert(triggers@.take(i as int) =~= triggers@);
    }
}

fn record_departures(trace: &mut InputTrace, now: u64, input: &Input, down: bool)
    requires
        may_go_on(old(trace).events@, now),
    ensures
        final(trace).events@ == old(trace).events@ + stamped(
            departure_events(input.ended@, input.live@, down),
            now,
        ),
        may_go_on(final(trace).events@, now),
{
    let ghost base = trace.events@;
    let mut i: usize = 0;
    proof {
        assert(input.ended@.take(0) =~= Seq::<Touch>::empty());
        assert(base + stamped(departure_events(input.ended@.take(0), input.live@, down), now)
            =~= base);
    }
    while i < input.ended.len()
        invariant
            i <= input.ended.len(),
            may_go_on(trace.events@, now),
            trace.events@ == base + stamped(
                departure_events(input.ended@.take(i as int), input.live@, down),
                now,
            ),
        decreases input.ended.len() - i,
    {
        let touch = input.ended[i];
        let event = InputEvent::Touch {
            id: touch.id,
            phase: TouchPhase::Ended,
            x: touch.pos.x,
            y: touch.pos.y,
        };
        proof {
            take_step(input.ended@, i as int);
            stamped_push(
                departure_events(input.ended@.take(i as int), input.live@, down),
                event,
                now,
            );
        }
        if input.touch(touch.id).is_some() == down {
            trace.push(now, event);
        }
        proof {
            assert(trace.events@ =~= base + stamped(
                departure_events(input.ended@.take(i + 1), input.live@, down),
                now,
            ));
        }
        i = i + 1;
    }
    proof {
        assert(input.ended@.take(i as int) =~= input.ended@);
    }
}

fn record_arrivals(trace: &mut InputTrace, now: u64, started: &Vec<Touch>)
    requires
        may_go_on(old(trace).events@, now),
    ensures
        final(trace).events@ == old(trace).events@ + stamped(arrival_events(started@), now),
        may_go_on(final(trace).events@, now),
{
    let ghost base = trace.events@;
    let mut i: usize = 0;
    proof {
        assert(base + stamped(arrival_events(started@.take(0)), now) =~= base);
    }
    while i < started.len()
        invariant
            i <= started.len(),
            may_go_on(trace.events@, now),
            trace.events@ == base + stamped(arrival_events(started@.take(i as int)), now),
        decreases started.len() - i,
    {
        let touch = started[i];
        let event = InputEvent::Touch {
            id: touch.id,
            phase: TouchPhase::Started,
            x: touch.pos.x,
            y: touch.pos.y,
        };
        trace.push(now, event);
        proof {
            assert(arrival_events(started@.take(i + 1)) =~= arrival_events(
                started@.take(i as int),
            ).push(event));
            stamped_push(arrival_events(started@.take(i as int)), event, now);
            assert(trace.events@ =~= base + stamped(arrival_events(started@.take(i + 1)), now));
        }
        i = i + 1;
    }
    proof {
        assert(started@.take(i as int) =~= started@);
    }
}

fn record_motions(trace: &mut InputTrace, now: u64, live: &Vec<LiveTouch>)
    requires
        may_go_on(old(trace).events@, now),
    ensures
        final(trace).events@ == old(trace).events@ + stamped(moved_events(live@), now),
        may_go_on(final(trace).events@, now),
{
    let ghost base = trace.events@;
    let mut i: usize = 0;
    proof {
        assert(live@.take(0) =~= Seq::<LiveTouch>::empty());
        assert(base + stamped(moved_events(live@.take(0)), now) =~= base);
    }
    while i < live.len()
        invariant
            i <= live.len(),
            may_go_on(trace.events@, now),
            trace.events@ == base + stamped(moved_events(live@.take(i as int)), now),
        decreases live.len() - i,
    {
        let LiveTouch { touch, moved } = live[i];
        let event = InputEvent::Touch {
            id: touch.id,
            phase: TouchPhase::Moved,
            x: touch.pos.x,
            y: touch.pos.y,
        };
        proof {
            take_step(live@, i as int);
            stamped_push(moved_events(live@.take(i as int)), event, now);
        }
        if moved {
            trace.push(now, event);
        }
        proof {
            assert(trace.events@ =~= base + stamped(moved_events(live@.take(i + 1)), now));
        }
        i = i + 1;
    }
    proof {
        assert(live@.take(i as int) =~= live@);
    }
}

/// The fingers' part of [`record`]. A contact number in both the started and the
/// ended list is a tap when it is up afterwards, and a number taken over by a new
/// finger when it is down: then the old finger's departure goes out first, or a
/// replay would end the finger that has just arrived.
fn record_touches(trace: &mut InputTrace, now: u64, input: &Input)
    requires
        may_go_on(old(trace).events@, now),
    ensures
        final(trace).events@ == old(trace).events@ + stamped(touch_events(*input), now),
        may_go_on(final(trace).events@, now),
{
    let ghost base = trace.events@;
    record_departures(trace, now, input, true);
    record_arrivals(trace, now, &input.started);
    record_motions(trace, now, &input.live);
    record_departures(trace, now, input, false);
    proof {
        assert(trace.events@ =~= base + stamped(touch_events(*input), now));
    }
}

fn record_analog(trace: &mut InputTrace, now: u64, input: &Input)
    requires
        may_go_on(old(trace).events@, now),
    ensures
        final(trace).events@ == old(trace).events@ + stamped(
            motion_events(input.mouse_delta) + wheel_events(input.wheel) + drive_events(
                input.drive,
            ),
            now,
        ),
        may_go_on(final(trace).events@, now),
{
    let ghost base = trace.events@;
    let delta = input.mouse_delta;
    if !(delta.x.same(F32(0)) && delta.y.same(F32(0))) {
        trace.push(now, InputEvent::MouseMove { dx: delta.x, dy: delta.y });
    }
    if !input.wheel.same(F32(0)) {
        trace.push(now, InputEvent::Wheel { dy: input.wheel });
    }
    // A stick is a level: a trace carries the ticks that moved it, and a replay
    // holds the value in between.
    if input.drive.changed {
        trace.push(now, InputEvent::TouchDrive { dir: input.drive.dir });
    }
    proof {
        assert(trace.events@ =~= base + stamped(
            motion_events(delta) + wheel_events(input.wheel) + drive_events(input.drive),
            now,
        ));
    }
}

/// Appending `b` to a trace that has grown by `a`.
proof fn grown_by(base: Seq<TickEvent>, a: Seq<InputEvent>, b: Seq<InputEvent>, tick: u64)
    ensures
        base + stamped(a, tick) + stamped(b, tick) == base + stamped(a + b, tick),
{
    stamped_append(a, b, tick);
    assert(base + stamped(a, tick) + stamped(b, tick) =~= base + stamped(a + b, tick));
}

/// Append what `input` did to the trace, as the events of tick `now`.
pub fn record(trace: &mut InputTrace, now: u64, input: &Input)
    requires
        may_go_on(old(trace).events@, now),
    ensures
        final(trace).events@ == old(trace).events@ + stamped(tick_events(*input), now),
        may_go_on(final(trace).events@, now),
{
    let ghost base = trace.events@;
    record_keys(trace, now, &input.keys);
    let ghost mut grown = key_events(input.keys@);

    record_buttons(trace, now, &input.buttons);
    proof {
        grown_by(base, grown, button_events(input.buttons@), now);
        grown = grown + button_events(input.buttons@);
    }

    record_analog(trace, now, input);
    proof {
        let analog = motion_events(input.mouse_delta) + wheel_events(input.wheel) + drive_events(
            input.drive,
        );
        grown_by(base, grown, analog, now);
        assert(grown + analog =~= grown + motion_events(input.mouse_delta) + wheel_events(
            input.wheel,
        ) + drive_events(input.drive));
        grown = grown + analog;
    }

    record_pad(trace, now, &input.pad);
    proof {
        grown_by(base, grown, pad_events(input.pad@), now);
        grown = grown + pad_events(input.pad@);
    }

    record_sticks(trace, now, &input.sticks);
    proof {
        grown_by(base, grown, stick_events(input.sticks@), now);
        grown = grown + stick_events(input.sticks@);
    }

    record_triggers(trace, now, &input.triggers);
    proof {
        grown_by(base, grown, trigger_events(input.triggers@), now);
        grown = grown + trigger_events(input.triggers@);
    }

    record_touches(trace, now, input);
    proof {
        grown_by(base, grown, touch_events(*input), now);
    }
}

/// A trace being replayed, and the input that it has rebuilt so far. What is held comes
/// from here and from nowhere else.
#[derive(Debug)]
pub struct Playback {
    pub trace: InputTrace,
    state: Input,
}

/// A trace's events, and the input that a replay has rebuilt from them so far.
pub struct PlaybackView {
    pub events: Seq<TickEvent>,
    pub state: Input,
}

impl View for Playback {
    type V = PlaybackView;

    closed spec fn view(&self) -> PlaybackView {
        PlaybackView { events: self.trace.events@, state: self.state }
    }
}

impl Playback {
    /// Replay `trace` from its beginning, on the devices that `devices` lists. Nothing of
    /// what they are doing is taken over.
    pub fn new(trace: InputTrace, devices: &Input) -> (r: Playback)
        ensures
            r@.events == trace.events@,
            at_rest(*devices, r@.state),
    {
        Playback { trace, state: devices.fresh() }
    }

    /// Ticks the trace still has events for, counted from `tick`.
    pub fn remaining(&self, tick: u64) -> (r: u64)
        ensures
            r == ticks_left(self@.events, tick),
    {
        match self.trace.last_tick() {
            Some(last) => if last > tick {
                last - tick
            } else {
                0
            },
            None => 0,
        }
    }
}

/// Whether `begin` may begin a tick of any state with any events.
pub open spec fn may_begin<B: Fn(&Input, Vec<InputEvent>) -> Input>(begin: B) -> bool {
    forall|state: &Input, events: Vec<InputEvent>| #[trigger] begin.requires((state, events))
}

/// Whether a replay begins tick `now` from `before`, and is at `after` in it: its state
/// begins the tick with the events that the trace has for it, and the tick's input is that
/// state.
pub open spec fn replayed<B: Fn(&Input, Vec<InputEvent>) -> Input>(
    begin: B,
    before: PlaybackView,
    now: u64,
    after: PlaybackView,
    input: Input,
) -> bool {
    &&& after.events == before.events
    &&& exists|events: Vec<InputEvent>|
        events@ == at_tick(before.events, now) && #[trigger] begin.ensures(
            (&before.state, events),
            after.state,
        )
    &&& alike(after.state, input)
}

/// Overwrite the input of tick `now` with the trace's: whatever was there before is gone.
/// `begin` is how an input state begins a tick with some events.
pub fn apply<B: Fn(&Input, Vec<InputEvent>) -> Input>(
    playback: &mut Playback,
    now: u64,
    input: &mut Input,
    begin: B,
)
    requires
        in_tick_order(old(playback)@.events),
        may_begin(begin),
    ensures
        replayed(begin, old(playback)@, now, final(playback)@, *final(input)),
{
    let events: Vec<InputEvent> = playback.trace.events_at(now);
    let ghost before = playback@;
    let state: Input = begin(&playback.state, events);
    *input = state.copy();
    playback.state = state;
    proof {
        assert(begin.ensures((&before.state, events), playback@.state));
    }
}

/// Why a trace's bytes could not be written or read.
#[derive(Debug)]
pub struct TraceError(pub String);

impl TraceError {
    /// The error as a line for people.
    pub fn message(&self) -> (r: String)
        ensures
            r@ == "input trace: "@ + self.0@,
    {
        let mut text = "input trace: ".to_owned();
        text.append(self.0.as_str());
        text
    }
}

/// Recording a tick and reading it back gives that tick's events after whatever
/// the trace held for it; every other tick reads as it did.
pub proof fn recorded_tick_reads_back(before: Seq<TickEvent>, now: u64, input: Input, tick: u64)
    requires
        may_go_on(before, now),
    ensures
        ({
            let after = before + stamped(tick_events(input), now);
            &&& may_go_on(after, now)
            &&& at_tick(after, now) == at_tick(before, now) + tick_events(input)
            &&& tick != now ==> at_tick(after, tick) == at_tick(before, tick)
        }),
{
    let events = tick_events(input);
    at_tick_append(before, stamped(events, now), now);
    at_tick_stamped(events, now, now);
    at_tick_append(before, stamped(events, now), tick);
    at_tick_stamped(events, now, tick);
    if tick != now {
        assert(at_tick(before, tick) + Seq::<InputEvent>::empty() =~= at_tick(before, tick));
    }
}

} // verus!
