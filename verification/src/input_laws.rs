//! What is read of a tick's input is what the devices did: a key was pressed or is held by
//! its own entry, a finger is found by its own number.

use vstd::prelude::*;
use crate::input::{
    Edges, Input, Key, LiveTouch, Touch, at_rest, has_id, is_held, is_live, live_touch, was_pressed,
};

verus! {

/// A key was pressed where its own entry says so, and where none of its entries does it
/// was not: neither its being held nor another key counts.
pub proof fn a_key_was_pressed_where_its_entry_says_so(keys: Seq<(Key, Edges)>, key: Key, i: int)
    requires
        0 <= i < keys.len(),
        keys[i].0 == key,
    ensures
        keys[i].1.pressed ==> was_pressed(keys, key),
        !keys[i].1.pressed && (forall|j: int|
            0 <= j < keys.len() && j != i ==> (#[trigger] keys[j]).0 != key) ==> !was_pressed(
            keys,
            key,
        ),
{
}

/// A key is held where its own entry says so, and where none of its entries does it is not.
pub proof fn a_key_is_held_where_its_entry_says_so(keys: Seq<(Key, Edges)>, key: Key, i: int)
    requires
        0 <= i < keys.len(),
        keys[i].0 == key,
    ensures
        keys[i].1.held ==> is_held(keys, key),
        !keys[i].1.held && (forall|j: int|
            0 <= j < keys.len() && j != i ==> (#[trigger] keys[j]).0 != key) ==> !is_held(
            keys,
            key,
        ),
{
}

/// A key that no entry is of was not pressed and is not held.
pub proof fn a_key_without_an_entry_is_up(keys: Seq<(Key, Edges)>, key: Key)
    requires
        forall|j: int| 0 <= j < keys.len() ==> (#[trigger] keys[j]).0 != key,
    ensures
        !was_pressed(keys, key),
        !is_held(keys, key),
{
}

/// A finger is among some where one of them has its number, and not where none has.
pub proof fn a_finger_goes_by_its_number(
    touches: Seq<Touch>,
    live: Seq<LiveTouch>,
    id: u64,
    i: int,
)
    ensures
        0 <= i < touches.len() && touches[i].id == id ==> has_id(touches, id),
        (forall|j: int| 0 <= j < touches.len() ==> (#[trigger] touches[j]).id != id) ==> !has_id(
            touches,
            id,
        ),
        0 <= i < live.len() && live[i].touch.id == id ==> is_live(live, id),
        (forall|j: int| 0 <= j < live.len() ==> (#[trigger] live[j]).touch.id != id) ==> !is_live(
            live,
            id,
        ) && live_touch(live, id) is None,
    decreases live.len(),
{
    if forall|j: int| 0 <= j < live.len() ==> (#[trigger] live[j]).touch.id != id {
        if live.len() > 0 {
            let rest = live.drop_first();
            assert forall|j: int| 0 <= j < rest.len() implies (#[trigger] rest[j]).touch.id
                != id by {
                assert(rest[j] == live[j + 1]);
            }
            assert(live[0].touch.id != id);
            a_finger_goes_by_its_number(touches, rest, id, 0);
        }
    }
}

/// The finger that is found is the first down with that number.
pub proof fn the_first_finger_is_found(live: Seq<LiveTouch>, id: u64, i: int)
    requires
        0 <= i < live.len(),
        live[i].touch.id == id,
        forall|k: int| 0 <= k < i ==> (#[trigger] live[k]).touch.id != id,
    ensures
        live_touch(live, id) == Some(live[i].touch),
    decreases i,
{
    if i > 0 {
        assert(live[0].touch.id != id);
        let rest = live.drop_first();
        assert forall|k: int| 0 <= k < i - 1 implies (#[trigger] rest[k]).touch.id != id by {
            assert(rest[k] == live[k + 1]);
        }
        the_first_finger_is_found(rest, id, i - 1);
    }
}

/// Of devices at rest nothing was pressed and nothing is held, whatever the key; no finger
/// is down and none has left. The devices are those that were listed, in their order.
pub proof fn nothing_is_pressed_at_rest(devices: Input, r: Input, key: Key, id: u64, i: int)
    requires
        at_rest(devices, r),
    ensures
        !was_pressed(r.keys@, key),
        !is_held(r.keys@, key),
        !is_live(r.live@, id),
        !has_id(r.started@, id),
        !has_id(r.ended@, id),
        r.keys@.len() == devices.keys@.len(),
        r.buttons@.len() == devices.buttons@.len(),
        r.pad@.len() == devices.pad@.len(),
        r.sticks@.len() == devices.sticks@.len(),
        r.triggers@.len() == devices.triggers@.len(),
        0 <= i < r.keys@.len() ==> r.keys@[i].0 == devices.keys@[i].0,
        0 <= i < r.buttons@.len() ==> r.buttons@[i].0 == devices.buttons@[i].0 && !(
        r.buttons@[i].1.held || r.buttons@[i].1.pressed || r.buttons@[i].1.released),
        0 <= i < r.pad@.len() ==> r.pad@[i].0 == devices.pad@[i].0 && !(r.pad@[i].1.held
            || r.pad@[i].1.pressed || r.pad@[i].1.released),
        0 <= i < r.sticks@.len() ==> r.sticks@[i].0 == devices.sticks@[i].0
            && !r.sticks@[i].1.changed && r.sticks@[i].1.dir.x.0 == 0 && r.sticks@[i].1.dir.y.0 == 0,
        0 <= i < r.triggers@.len() ==> r.triggers@[i].0 == devices.triggers@[i].0
            && r.triggers@[i].1.0 == 0 && !r.triggers@[i].2,
        r.mouse_delta.x.0 == 0 && r.mouse_delta.y.0 == 0 && r.wheel.0 == 0,
        !r.drive.changed && r.drive.dir.x.0 == 0 && r.drive.dir.y.0 == 0,
{
}

} // verus!
