//! What a tick's input is, as the rest of the library reads it.
//!
//! An [`Input`] is the state of every device at one tick, already collapsed from
//! whatever the host pushed: the edges and the held state of each key and
//! button, the accumulated motion, the levels of the sticks and triggers and
//! whether they moved, and the fingers that arrived, that left and that are down.

use vstd::prelude::*;
use crate::float::{F32, Vec2};

verus! {

/// A key of the keyboard. Only the keys that some system reads have a name.
#[derive(Clone, Copy, Debug, PartialEq, Eq, Structural, Hash)]
pub enum Key {
    A,
    D,
    R,
    S,
    W,
    Up,
    Down,
    Left,
    Right,
    Enter,
    Tab,
    Space,
    Shift,
    Ctrl,
    Other,
}

/// A button of the pad, by its place in the host's list of them.
#[derive(Clone, Copy, Debug, PartialEq, Eq, Structural, Hash)]
pub struct PadButton(pub u8);

/// A stick of the pad, by its place in the host's list of them.
#[derive(Clone, Copy, Debug, PartialEq, Eq, Structural, Hash)]
pub struct PadStick(pub u8);

/// A trigger of the pad, by its place in the host's list of them.
#[derive(Clone, Copy, Debug, PartialEq, Eq, Structural, Hash)]
pub struct PadTrigger(pub u8);

/// What a finger did.
#[derive(Clone, Copy, Debug, PartialEq, Eq, Structural, Hash)]
pub enum TouchPhase {
    Started,
    Moved,
    Ended,
}

/// One thing a device did.
#[allow(inconsistent_fields)]
#[derive(Clone, Copy, Debug, PartialEq, Eq, Structural, Hash)]
pub enum InputEvent {
    KeyDown(Key),
    KeyUp(Key),
    MouseButton { button: u8, pressed: bool },
    MouseMove { dx: F32, dy: F32 },
    Wheel { dy: F32 },
    /// The on-screen stick, as a level.
    TouchDrive { dir: Vec2 },
    PadButton { button: PadButton, pressed: bool },
    PadStick { stick: PadStick, dir: Vec2 },
    PadTrigger { trigger: PadTrigger, value: F32 },
    Touch { id: u64, phase: TouchPhase, x: F32, y: F32 },
    /// The window lost focus: everything held is let go.
    FocusLost,
}

/// What one key or button did inside a tick, and where that left it.
#[derive(Clone, Copy, Debug, PartialEq, Eq, Structural, Hash)]
pub struct Edges {
    pub pressed: bool,
    pub released: bool,
    pub held: bool,
}

/// A level: its value, and whether this tick moved it.
#[derive(Clone, Copy, Debug, PartialEq, Eq, Structural, Hash)]
pub struct Level {
    pub dir: Vec2,
    pub changed: bool,
}

/// A finger: its contact number and where it is, in logical pixels.
#[derive(Clone, Copy, Debug, PartialEq, Eq, Structural, Hash)]
pub struct Touch {
    pub id: u64,
    pub pos: Vec2,
}

/// A finger that is down, and whether it moved inside the tick.
#[derive(Clone, Copy, Debug, PartialEq, Eq, Structural, Hash)]
pub struct LiveTouch {
    pub touch: Touch,
    pub moved: bool,
}

/// One tick's input. Each list is in the host's fixed order of those devices.
#[derive(Debug)]
pub struct Input {
    pub keys: Vec<(Key, Edges)>,
    pub buttons: Vec<(u8, Edges)>,
    pub mouse_delta: Vec2,
    pub wheel: F32,
    pub drive: Level,
    pub pad: Vec<(PadButton, Edges)>,
    pub sticks: Vec<(PadStick, Level)>,
    pub triggers: Vec<(PadTrigger, F32, bool)>,
    pub started: Vec<Touch>,
    pub live: Vec<LiveTouch>,
    pub ended: Vec<Touch>,
}

/// Whether two inputs are the same in every device and finger.
pub open spec fn alike(a: Input, b: Input) -> bool {
    &&& a.keys@ == b.keys@
    &&& a.buttons@ == b.buttons@
    &&& a.mouse_delta == b.mouse_delta
    &&& a.wheel == b.wheel
    &&& a.drive == b.drive
    &&& a.pad@ == b.pad@
    &&& a.sticks@ == b.sticks@
    &&& a.triggers@ == b.triggers@
    &&& a.started@ == b.started@
    &&& a.live@ == b.live@
    &&& a.ended@ == b.ended@
}

/// Nothing pressed, nothing released, nothing held.
pub open spec fn no_edges() -> Edges {
    Edges { pressed: false, released: false, held: false }
}

/// The middle, where nothing moved it.
pub open spec fn no_level() -> Level {
    Level { dir: Vec2 { x: F32(0), y: F32(0) }, changed: false }
}

/// Whether `r` is the state of these devices before any event: everything is up, in the
/// middle and still, and no finger is down.
pub open spec fn at_rest(devices: Input, r: Input) -> bool {
    &&& r.keys@ == devices.keys@.map_values(|k: (Key, Edges)| (k.0, no_edges()))
    &&& r.buttons@ == devices.buttons@.map_values(|b: (u8, Edges)| (b.0, no_edges()))
    &&& r.mouse_delta == (Vec2 { x: F32(0), y: F32(0) })
    &&& r.wheel == F32(0)
    &&& r.drive == no_level()
    &&& r.pad@ == devices.pad@.map_values(|b: (PadButton, Edges)| (b.0, no_edges()))
    &&& r.sticks@ == devices.sticks@.map_values(|s: (PadStick, Level)| (s.0, no_level()))
    &&& r.triggers@ == devices.triggers@.map_values(
        |t: (PadTrigger, F32, bool)| (t.0, F32(0), false),
    )
    &&& r.started@.len() == 0
    &&& r.live@.len() == 0
    &&& r.ended@.len() == 0
}

/// Whether two inputs list the same devices in the same order.
pub open spec fn same_devices(a: Input, b: Input) -> bool {
    &&& a.keys@.map_values(|k: (Key, Edges)| k.0) == b.keys@.map_values(|k: (Key, Edges)| k.0)
    &&& a.buttons@.map_values(|k: (u8, Edges)| k.0) == b.buttons@.map_values(
        |k: (u8, Edges)| k.0,
    )
    &&& a.pad@.map_values(|k: (PadButton, Edges)| k.0) == b.pad@.map_values(
        |k: (PadButton, Edges)| k.0,
    )
    &&& a.sticks@.map_values(|k: (PadStick, Level)| k.0) == b.sticks@.map_values(
        |k: (PadStick, Level)| k.0,
    )
    &&& a.triggers@.map_values(|k: (PadTrigger, F32, bool)| k.0) == b.triggers@.map_values(
        |k: (PadTrigger, F32, bool)| k.0,
    )
}

/// A list with a new value for every device of it.
fn reset<K: Copy, V, W: Copy>(list: &Vec<(K, V)>, value: W) -> (r: Vec<(K, W)>)
    ensures
        r@ == list@.map_values(|d: (K, V)| (d.0, value)),
{
    let mut r: Vec<(K, W)> = Vec::new();
    let mut i: usize = 0;
    while i < list.len()
        invariant
            i <= list.len(),
            r@ == list@.take(i as int).map_values(|d: (K, V)| (d.0, value)),
        decreases list.len() - i,
    {
        r.push((list[i].0, value));
        proof {
            assert(r@ =~= list@.take(i + 1).map_values(|d: (K, V)| (d.0, value)));
        }
        i = i + 1;
    }
    proof {
        assert(list@.take(i as int) =~= list@);
    }
    r
}

/// The same list once more.
fn copied<T: Copy>(list: &Vec<T>) -> (r: Vec<T>)
    ensures
        r@ == list@,
{
    let mut r: Vec<T> = Vec::new();
    let mut i: usize = 0;
    while i < list.len()
        invariant
            i <= list.len(),
            r@ == list@.take(i as int),
        decreases list.len() - i,
    {
        r.push(list[i]);
        proof {
            assert(r@ =~= list@.take(i + 1));
        }
        i = i + 1;
    }
    proof {
        assert(list@.take(i as int) =~= list@);
    }
    r
}

/// Whether some entry of `keys` for `key` was pressed inside the tick.
pub open spec fn was_pressed(keys: Seq<(Key, Edges)>, key: Key) -> bool {
    exists|i: int| 0 <= i < keys.len() && (#[trigger] keys[i]).0 == key && keys[i].1.pressed
}

/// Whether some entry of `keys` for `key` is held.
pub open spec fn is_held(keys: Seq<(Key, Edges)>, key: Key) -> bool {
    exists|i: int| 0 <= i < keys.len() && (#[trigger] keys[i]).0 == key && keys[i].1.held
}

/// Whether finger `id` is down.
pub open spec fn is_live(live: Seq<LiveTouch>, id: u64) -> bool {
    exists|i: int| 0 <= i < live.len() && (#[trigger] live[i]).touch.id == id
}

/// The first finger down with contact number `id`.
pub open spec fn live_touch(live: Seq<LiveTouch>, id: u64) -> Option<Touch>
    decreases live.len(),
{
    if live.len() == 0 {
        None
    } else if live[0].touch.id == id {
        Some(live[0].touch)
    } else {
        live_touch(live.drop_first(), id)
    }
}

/// Whether some finger of `touches` has contact number `id`.
pub open spec fn has_id(touches: Seq<Touch>, id: u64) -> bool {
    exists|i: int| 0 <= i < touches.len() && (#[trigger] touches[i]).id == id
}

impl Input {
    /// The state of these devices before any event.
    pub fn fresh(&self) -> (r: Input)
        ensures
            at_rest(*self, r),
    {
        let up = Edges { pressed: false, released: false, held: false };
        let middle = Level { dir: Vec2 { x: F32(0), y: F32(0) }, changed: false };
        let mut triggers: Vec<(PadTrigger, F32, bool)> = Vec::new();
        let mut i: usize = 0;
        while i < self.triggers.len()
            invariant
                i <= self.triggers.len(),
                triggers@ == self.triggers@.take(i as int).map_values(
                    |t: (PadTrigger, F32, bool)| (t.0, F32(0), false),
                ),
            decreases self.triggers.len() - i,
        {
            triggers.push((self.triggers[i].0, F32(0), false));
            proof {
                assert(triggers@ =~= self.triggers@.take(i + 1).map_values(
                    |t: (PadTrigger, F32, bool)| (t.0, F32(0), false),
                ));
            }
            i = i + 1;
        }
        proof {
            assert(self.triggers@.take(i as int) =~= self.triggers@);
        }
        Input {
            keys: reset(&self.keys, up),
            buttons: reset(&self.buttons, up),
            mouse_delta: Vec2 { x: F32(0), y: F32(0) },
            wheel: F32(0),
            drive: middle,
            pad: reset(&self.pad, up),
            sticks: reset(&self.sticks, middle),
            triggers,
            started: Vec::new(),
            live: Vec::new(),
            ended: Vec::new(),
        }
    }

    /// The same input once more.
    pub fn copy(&self) -> (r: Input)
        ensures
            alike(*self, r),
    {
        Input {
            keys: copied(&self.keys),
            buttons: copied(&self.buttons),
            mouse_delta: self.mouse_delta,
            wheel: self.wheel,
            drive: self.drive,
            pad: copied(&self.pad),
            sticks: copied(&self.sticks),
            triggers: copied(&self.triggers),
            started: copied(&self.started),
            live: copied(&self.live),
            ended: copied(&self.ended),
        }
    }

    /// Whether `key` went down inside this tick.
    pub fn just_pressed(&self, key: Key) -> (r: bool)
        ensures
            r == was_pressed(self.keys@, key),
    {
        let mut i: usize = 0;
        while i < self.keys.len()
            invariant
                i <= self.keys.len(),
                forall|j: int|
                    0 <= j < i ==> !((#[trigger] self.keys[j]).0 == key && self.keys[j].1.pressed),
            decreases self.keys.len() - i,
        {
            if self.keys[i].0 == key && self.keys[i].1.pressed {
                return true;
            }
            i = i + 1;
        }
        false
    }

    /// Whether `key` is down at the end of this tick.
    pub fn held(&self, key: Key) -> (r: bool)
        ensures
            r == is_held(self.keys@, key),
    {
        let mut i: usize = 0;
        while i < self.keys.len()
            invariant
                i <= self.keys.len(),
                forall|j: int|
                    0 <= j < i ==> !((#[trigger] self.keys[j]).0 == key && self.keys[j].1.held),
            decreases self.keys.len() - i,
        {
            if self.keys[i].0 == key && self.keys[i].1.held {
                return true;
            }
            i = i + 1;
        }
        false
    }

    /// The finger down with contact number `id`, if there is one.
    pub fn touch(&self, id: u64) -> (r: Option<Touch>)
        ensures
            r == live_touch(self.live@, id),
            r is Some <==> is_live(self.live@, id),
    {
        let mut i: usize = 0;
        proof {
            assert(self.live@.skip(0) =~= self.live@);
        }
        while i < self.live.len()
            invariant
                i <= self.live.len(),
                live_touch(self.live@, id) == live_touch(self.live@.skip(i as int), id),
                forall|j: int| 0 <= j < i ==> (#[trigger] self.live[j]).touch.id != id,
            decreases self.live.len() - i,
        {
            proof {
                assert(self.live@.skip(i as int).drop_first() =~= self.live@.skip(i + 1));
            }
            if self.live[i].touch.id == id {
                return Some(self.live[i].touch);
            }
            i = i + 1;
        }
        None
    }

    /// Whether the finger with contact number `id` left inside this tick.
    pub fn touch_ended(&self, id: u64) -> (r: bool)
        ensures
            r == has_id(self.ended@, id),
    {
        let mut i: usize = 0;
        while i < self.ended.len()
            invariant
                i <= self.ended.len(),
                forall|j: int| 0 <= j < i ==> (#[trigger] self.ended[j]).id != id,
            decreases self.ended.len() - i,
        {
            if self.ended[i].id == id {
                return true;
            }
            i = i + 1;
        }
        false
    }
}

} // verus!
