//! What the physics promises of balls, colliders and ground, said of what goes in and
//! what comes out: every collider that has a shape is met, each contact is told of once,
//! a ball is pushed by what is solid and by nothing else, and every ball that moves has
//! fallen, met the highest ground under it and been held to its greatest speed.

use vstd::prelude::*;
use crate::float::{F32, Vec3, below, is_nan, rank};
use crate::input::{Input, Key, is_held};
use crate::physics::{
    Body, Collider, Contact, Ground, Obstacle, OverlapEvent, Rolling, Shape, all_resolve, all_told,
    as_obstacle, ascending, bodies_by_entity, by_entity, course, event_of, falls, highest,
    impact_of, integrates, lands, least_axis_of, meets, moved_to, moves, obstacles_of,
    overlaps_resolve, pushes, resolves, rolls, sampled,
};

verus! {

// ---------------------------------------------------------------------------
// Overlaps
// ---------------------------------------------------------------------------

/// Whether an obstacle is what a ball meets of a collider: it is where the collider is,
/// and has the collider's sphere, or its box where it has no sphere.
pub open spec fn stands_for(o: Obstacle, c: Collider) -> bool {
    &&& o.entity == c.entity
    &&& o.center == c.center
    &&& o.trigger == c.trigger
    &&& match o.shape {
        Shape::Sphere(radius) => c.sphere == Some(radius),
        Shape::Aabb(half) => c.sphere is None && c.aabb == Some(half),
    }
}

/// Every obstacle is met as often as there are colliders that it stands for.
proof fn obstacles_are_counted(colliders: Seq<Collider>, n: int, o: Obstacle)
    requires
        0 <= n <= colliders.len(),
    ensures
        obstacles_of(colliders, n).to_multiset().count(o) == colliders.take(n).filter(
            |c: Collider| stands_for(o, c),
        ).len(),
    decreases n,
{
    let p = |c: Collider| stands_for(o, c);
    reveal(Seq::filter);
    if n > 0 {
        obstacles_are_counted(colliders, n - 1, o);
        let c = colliders[n - 1];
        assert(colliders.take(n).drop_last() =~= colliders.take(n - 1));
        assert(colliders.take(n).last() == c);
        let before = obstacles_of(colliders, n - 1);
        before.to_multiset_ensures();
        assert(as_obstacle(c) == Some(o) <==> stands_for(o, c));
    } else {
        assert(colliders.take(0) =~= Seq::<Collider>::empty());
        assert(obstacles_of(colliders, 0) =~= Seq::<Obstacle>::empty());
        obstacles_of(colliders, 0).to_multiset_ensures();
    }
}

/// How many obstacles there are: as many as colliders that have some shape.
proof fn every_shape_is_an_obstacle(colliders: Seq<Collider>, n: int)
    requires
        0 <= n <= colliders.len(),
    ensures
        obstacles_of(colliders, n).len() == colliders.take(n).filter(
            |c: Collider| c.sphere is Some || c.aabb is Some,
        ).len(),
    decreases n,
{
    reveal(Seq::filter);
    if n > 0 {
        every_shape_is_an_obstacle(colliders, n - 1);
        assert(colliders.take(n).drop_last() =~= colliders.take(n - 1));
        assert(colliders.take(n).last() == colliders[n - 1]);
    } else {
        assert(colliders.take(0) =~= Seq::<Collider>::empty());
    }
}

/// The obstacles that balls meet: in the order of their entities, each as often as there
/// are colliders that it stands for, and in all as many as colliders with some shape. A
/// sphere goes before a box, and what has neither is not met.
pub open spec fn lists_the_colliders(colliders: Seq<Collider>, list: Seq<Obstacle>) -> bool {
    &&& forall|i: int, j: int|
        0 <= i < j < list.len() ==> (#[trigger] list[i]).entity <= (#[trigger] list[j]).entity
    &&& forall|o: Obstacle| #[trigger]
        list.to_multiset().count(o) == colliders.filter(|c: Collider| stands_for(o, c)).len()
    &&& list.len() == colliders.filter(|c: Collider| c.sphere is Some || c.aabb is Some).len()
    &&& forall|i: int|
        0 <= i < colliders.len() && ((#[trigger] colliders[i]).sphere is Some || colliders[i].aabb is Some)
            ==> exists|k: int| 0 <= k < list.len() && stands_for(#[trigger] list[k], colliders[i])
    &&& forall|k: int|
        0 <= k < list.len() ==> exists|i: int|
            0 <= i < colliders.len() && stands_for(#[trigger] list[k], #[trigger] colliders[i])
}

/// Every collider that has a sphere or a box is met, as what it is, and nothing else is.
pub proof fn every_collider_with_a_shape_is_met(colliders: Seq<Collider>, list: Seq<Obstacle>)
    requires
        by_entity(list),
        list.to_multiset() == obstacles_of(colliders, colliders.len() as int).to_multiset(),
    ensures
        lists_the_colliders(colliders, list),
{
    let n = colliders.len() as int;
    assert(colliders.take(n) =~= colliders);
    let all = obstacles_of(colliders, n);
    list.to_multiset_ensures();
    all.to_multiset_ensures();
    every_shape_is_an_obstacle(colliders, n);
    assert forall|o: Obstacle| #[trigger] list.to_multiset().count(o) == colliders.filter(
        |c: Collider| stands_for(o, c),
    ).len() by {
        obstacles_are_counted(colliders, n, o);
    }
    assert forall|i: int|
        0 <= i < n && ((#[trigger] colliders[i]).sphere is Some || colliders[i].aabb is Some)
        implies exists|k: int| 0 <= k < list.len() && stands_for(#[trigger] list[k], colliders[i]) by {
        let c = colliders[i];
        let o = as_obstacle(c)->0;
        assert(stands_for(o, c));
        let p = |c: Collider| stands_for(o, c);
        colliders.lemma_filter_contains(p, i);
        assert(colliders.filter(p).contains(c));
        assert(list.to_multiset().count(o) > 0);
        assert(list.contains(o));
        let k = list.index_of(o);
        assert(stands_for(list[k], c));
    }
    assert forall|k: int| 0 <= k < list.len() implies exists|i: int|
        0 <= i < colliders.len() && stands_for(#[trigger] list[k], #[trigger] colliders[i]) by {
        let o = list[k];
        assert(list.contains(o));
        assert(list.to_multiset().count(o) > 0);
        let p = |c: Collider| stands_for(o, c);
        let some = colliders.filter(p);
        colliders.lemma_filter_pred(p, 0);
        assert(some.contains(some[0]));
        colliders.lemma_filter_contains_rev(p, some[0]);
        assert(colliders.contains(some[0]));
        let i = colliders.index_of(some[0]);
        assert(stands_for(list[k], colliders[i]));
    }
}

/// Whether a ball meets an obstacle as it should: where they do not overlap nothing
/// comes of it; where they do, that is told of once, with who met whom and how, and the
/// ball is pushed out of what is solid and left alone by what is not. It stays the ball
/// that it is.
pub open spec fn meets_as_it_should<
    O: Fn(Vec3, F32, Vec3, Shape) -> Option<Contact>,
    P: Fn(Vec3, Vec3, Contact) -> (Vec3, Vec3),
>(overlap: O, push: P, ball: Body, o: Obstacle, after: Body, told: Seq<OverlapEvent>) -> bool {
    &&& after.entity == ball.entity
    &&& after.radius == ball.radius
    &&& exists|met: Option<Contact>|
        {
            &&& #[trigger] overlap.ensures((ball.position, ball.radius, o.center, o.shape), met)
            &&& match met {
                None => {
                    &&& told.len() == 0
                    &&& after.position == ball.position
                    &&& after.velocity == ball.velocity
                },
                Some(c) => {
                    &&& told.len() == 1
                    &&& told[0].ball == ball.entity
                    &&& told[0].other == o.entity
                    &&& told[0].normal == c.normal
                    &&& told[0].depth == c.depth
                    &&& told[0].trigger == o.trigger
                    &&& if o.trigger {
                        after.position == ball.position && after.velocity == ball.velocity
                    } else {
                        push.ensures(
                            (ball.position, ball.velocity, c),
                            (after.position, after.velocity),
                        )
                    }
                },
            }
        }
}

proof fn a_meeting_is_as_it_should<
    O: Fn(Vec3, F32, Vec3, Shape) -> Option<Contact>,
    P: Fn(Vec3, Vec3, Contact) -> (Vec3, Vec3),
>(overlap: O, push: P, ball: Body, o: Obstacle, after: Body, told: Seq<OverlapEvent>)
    requires
        meets(overlap, push, ball, o, after, told),
    ensures
        meets_as_it_should(overlap, push, ball, o, after, told),
{
    if exists|c: Contact|
        {
            &&& #[trigger] overlap.ensures(
                (ball.position, ball.radius, o.center, o.shape),
                Some(c),
            )
            &&& told == seq![event_of(ball, o, c)]
            &&& if o.trigger {
                after == ball
            } else {
                exists|q: (Vec3, Vec3)|
                    #![trigger push.ensures((ball.position, ball.velocity, c), q)]
                    push.ensures((ball.position, ball.velocity, c), q) && after
                        == moved_to(ball, q.0, q.1)
            }
        } {
        let c = choose|c: Contact|
            {
                &&& #[trigger] overlap.ensures(
                    (ball.position, ball.radius, o.center, o.shape),
                    Some(c),
                )
                &&& told == seq![event_of(ball, o, c)]
                &&& if o.trigger {
                    after == ball
                } else {
                    exists|q: (Vec3, Vec3)|
                        #![trigger push.ensures((ball.position, ball.velocity, c), q)]
                        push.ensures((ball.position, ball.velocity, c), q) && after
                            == moved_to(ball, q.0, q.1)
                }
            };
        assert(overlap.ensures((ball.position, ball.radius, o.center, o.shape), Some(c)));
        if !o.trigger {
            let q = choose|q: (Vec3, Vec3)|
                #![trigger push.ensures((ball.position, ball.velocity, c), q)]
                push.ensures((ball.position, ball.velocity, c), q) && after
                    == moved_to(ball, q.0, q.1);
            assert(q == (after.position, after.velocity));
        }
    } else {
        assert(overlap.ensures((ball.position, ball.radius, o.center, o.shape), None));
    }
}

/// Whether a ball meets every obstacle of a list, one after another, as it should:
/// `states` is what it is before each and after the last, and `parts` what is told of
/// each.
pub open spec fn goes_through<
    O: Fn(Vec3, F32, Vec3, Shape) -> Option<Contact>,
    P: Fn(Vec3, Vec3, Contact) -> (Vec3, Vec3),
>(
    overlap: O,
    push: P,
    list: Seq<Obstacle>,
    states: Seq<Body>,
    parts: Seq<Seq<OverlapEvent>>,
) -> bool {
    &&& parts.len() == list.len()
    &&& states.len() == list.len() + 1
    &&& forall|i: int|
        0 <= i < list.len() ==> meets_as_it_should(
            overlap,
            push,
            states[i],
            #[trigger] list[i],
            states[i + 1],
            parts[i],
        )
}

proof fn all_is_told(told: Seq<Seq<OverlapEvent>>, n: int)
    requires
        0 <= n <= told.len(),
    ensures
        all_told(told, n) == told.take(n).flatten(),
    decreases n,
{
    if n > 0 {
        all_is_told(told, n - 1);
        assert(told.take(n) =~= told.take(n - 1).push(told[n - 1]));
        told.take(n - 1).lemma_flatten_push(told[n - 1]);
    } else {
        assert(told.take(0) =~= Seq::<Seq<OverlapEvent>>::empty());
    }
}

/// A ball goes through the obstacles from where it is to what it comes to, and what is
/// told of it is what is told of each, in their order.
pub proof fn a_ball_goes_through_the_obstacles<
    O: Fn(Vec3, F32, Vec3, Shape) -> Option<Contact>,
    P: Fn(Vec3, Vec3, Contact) -> (Vec3, Vec3),
>(
    overlap: O,
    push: P,
    ball: Body,
    list: Seq<Obstacle>,
    after: Body,
    told: Seq<OverlapEvent>,
)
    requires
        resolves(overlap, push, ball, list, after, told),
    ensures
        exists|states: Seq<Body>, parts: Seq<Seq<OverlapEvent>>| #[trigger]
            goes_through(overlap, push, list, states, parts) && states[0] == ball
                && states.last() == after && told == parts.flatten(),
{
    let (states, parts) = choose|states: Seq<Body>, parts: Seq<Seq<OverlapEvent>>|
        {
            &&& #[trigger] course(overlap, push, list, states, parts)
            &&& parts.len() == list.len()
            &&& states[0] == ball
            &&& states.last() == after
            &&& told == all_told(parts, parts.len() as int)
        };
    assert forall|i: int| 0 <= i < list.len() implies meets_as_it_should(
        overlap,
        push,
        states[i],
        #[trigger] list[i],
        states[i + 1],
        parts[i],
    ) by {
        assert(meets(overlap, push, states[i], list[i], states[i + 1], parts[i]));
        a_meeting_is_as_it_should(overlap, push, states[i], list[i], states[i + 1], parts[i]);
    }
    assert(goes_through(overlap, push, list, states, parts));
    all_is_told(parts, parts.len() as int);
    assert(parts.take(parts.len() as int) =~= parts);
}

/// Whether one ball of a world comes to `after`, going through `list`, with `told` told.
pub open spec fn comes_to<
    O: Fn(Vec3, F32, Vec3, Shape) -> Option<Contact>,
    P: Fn(Vec3, Vec3, Contact) -> (Vec3, Vec3),
>(
    overlap: O,
    push: P,
    ball: Body,
    list: Seq<Obstacle>,
    after: Body,
    told: Seq<OverlapEvent>,
) -> bool {
    exists|states: Seq<Body>, parts: Seq<Seq<OverlapEvent>>| #[trigger]
        goes_through(overlap, push, list, states, parts) && states[0] == ball && states.last()
            == after && told == parts.flatten()
}

/// Whether every ball of `start` comes to what stands in its place in `after`, each going
/// through `list`, with what is told of each in `told`.
pub open spec fn all_come_to<
    O: Fn(Vec3, F32, Vec3, Shape) -> Option<Contact>,
    P: Fn(Vec3, Vec3, Contact) -> (Vec3, Vec3),
>(
    overlap: O,
    push: P,
    start: Seq<Body>,
    list: Seq<Obstacle>,
    after: Seq<Body>,
    told: Seq<Seq<OverlapEvent>>,
) -> bool {
    &&& after.len() == start.len()
    &&& told.len() == start.len()
    &&& forall|i: int|
        0 <= i < start.len() ==> comes_to(
            overlap,
            push,
            #[trigger] start[i],
            list,
            after[i],
            told[i],
        )
}

/// The balls of a world, in the order of their entities, each go through every collider
/// that has a shape, in the order of theirs; and everything that is told is what is told
/// of each ball, one after another.
pub proof fn balls_go_through_the_colliders<
    O: Fn(Vec3, F32, Vec3, Shape) -> Option<Contact>,
    P: Fn(Vec3, Vec3, Contact) -> (Vec3, Vec3),
>(
    overlap: O,
    push: P,
    balls: Seq<Body>,
    colliders: Seq<Collider>,
    after: Seq<Body>,
    events: Seq<OverlapEvent>,
)
    requires
        overlaps_resolve(overlap, push, balls, colliders, after, events),
    ensures
        exists|start: Seq<Body>, list: Seq<Obstacle>, told: Seq<Seq<OverlapEvent>>|
            {
                &&& #[trigger] all_come_to(overlap, push, start, list, after, told)
                &&& start.to_multiset() == balls.to_multiset()
                &&& forall|i: int, j: int|
                    0 <= i < j < start.len() ==> (#[trigger] start[i]).entity <= (
                    #[trigger] start[j]).entity
                &&& lists_the_colliders(colliders, list)
                &&& events == told.flatten()
            },
{
    let (start, list) = choose|start: Seq<Body>, list: Seq<Obstacle>|
        {
            &&& bodies_by_entity(start)
            &&& start.to_multiset() == balls.to_multiset()
            &&& by_entity(list)
            &&& list.to_multiset() == obstacles_of(colliders, colliders.len() as int).to_multiset()
            &&& #[trigger] all_resolve(overlap, push, start, list, after, events)
        };
    every_collider_with_a_shape_is_met(colliders, list);
    let told = choose|told: Seq<Seq<OverlapEvent>>|
        {
            &&& told.len() == start.len()
            &&& events == #[trigger] all_told(told, told.len() as int)
            &&& forall|i: int|
                0 <= i < told.len() ==> resolves(
                    overlap,
                    push,
                    start[i],
                    list,
                    after[i],
                    #[trigger] told[i],
                )
        };
    assert forall|i: int| 0 <= i < start.len() implies comes_to(
        overlap,
        push,
        #[trigger] start[i],
        list,
        after[i],
        told[i],
    ) by {
        assert(resolves(overlap, push, start[i], list, after[i], told[i]));
        a_ball_goes_through_the_obstacles(overlap, push, start[i], list, after[i], told[i]);
    }
    all_is_told(told, told.len() as int);
    assert(told.take(told.len() as int) =~= told);
    assert(all_come_to(overlap, push, start, list, after, told));
}

proof fn the_only_one(start: Seq<Body>, ball: Body)
    requires
        start.to_multiset() == seq![ball].to_multiset(),
    ensures
        start.len() == 1,
        start[0] == ball,
{
    start.to_multiset_ensures();
    seq![ball].to_multiset_ensures();
    assert(start.len() == 1);
    assert(start.contains(start[0]));
    assert(seq![ball].to_multiset().count(start[0]) > 0);
    assert(seq![ball].contains(start[0]));
}

proof fn the_only_obstacle(list: Seq<Obstacle>, c: Collider)
    requires
        lists_the_colliders(seq![c], list),
        c.sphere is Some || c.aabb is Some,
    ensures
        list.len() == 1,
        stands_for(list[0], c),
{
    let shaped = |c: Collider| c.sphere is Some || c.aabb is Some;
    let one = seq![c];
    one.lemma_filter_len(shaped);
    assert(one[0] == c);
    let k = choose|k: int| 0 <= k < list.len() && stands_for(#[trigger] list[k], one[0]);
    assert(list.len() == 1 && k == 0);
}

/// A ball that goes through one obstacle meets that, and what is told of it is all.
#[verifier::spinoff_prover]
proof fn the_only_meeting<
    O: Fn(Vec3, F32, Vec3, Shape) -> Option<Contact>,
    P: Fn(Vec3, Vec3, Contact) -> (Vec3, Vec3),
>(
    overlap: O,
    push: P,
    ball: Body,
    list: Seq<Obstacle>,
    after: Body,
    told: Seq<OverlapEvent>,
)
    requires
        list.len() == 1,
        comes_to(overlap, push, ball, list, after, told),
    ensures
        meets_as_it_should(overlap, push, ball, list[0], after, told),
{
    let (states, parts) = choose|states: Seq<Body>, parts: Seq<Seq<OverlapEvent>>| #[trigger]
        goes_through(overlap, push, list, states, parts) && states[0] == ball && states.last()
            == after && told == parts.flatten();
    assert(meets_as_it_should(overlap, push, states[0], list[0], states[1], parts[0]));
    parts.lemma_flatten_one_element();
}

/// One ball and one collider with a shape: where they overlap there is one event of it,
/// and the ball is pushed where the collider is solid; where they do not, there is none
/// and the ball is as it was.
#[verifier::spinoff_prover]
#[verifier::rlimit(50)]
pub proof fn one_ball_meets_one_collider<
    O: Fn(Vec3, F32, Vec3, Shape) -> Option<Contact>,
    P: Fn(Vec3, Vec3, Contact) -> (Vec3, Vec3),
>(
    overlap: O,
    push: P,
    ball: Body,
    c: Collider,
    after: Seq<Body>,
    events: Seq<OverlapEvent>,
)
    requires
        overlaps_resolve(overlap, push, seq![ball], seq![c], after, events),
        c.sphere is Some || c.aabb is Some,
    ensures
        after.len() == 1,
        exists|o: Obstacle| #[trigger]
            stands_for(o, c) && meets_as_it_should(overlap, push, ball, o, after[0], events),
{
    balls_go_through_the_colliders(overlap, push, seq![ball], seq![c], after, events);
    let (start, list, told) = choose|
        start: Seq<Body>,
        list: Seq<Obstacle>,
        told: Seq<Seq<OverlapEvent>>,
    |
        {
            &&& #[trigger] all_come_to(overlap, push, start, list, after, told)
            &&& start.to_multiset() == seq![ball].to_multiset()
            &&& lists_the_colliders(seq![c], list)
            &&& events == told.flatten()
        };
    the_only_one(start, ball);
    the_only_obstacle(list, c);
    assert(start[0] == ball);
    assert(comes_to(overlap, push, start[0], list, after[0], told[0]));
    the_only_meeting(overlap, push, ball, list, after[0], told[0]);
    told.lemma_flatten_one_element();
    assert(stands_for(list[0], c));
}

// ---------------------------------------------------------------------------
// A tick of motion
// ---------------------------------------------------------------------------

/// Whether `g` is the ground of a point that has these surfaces under it: one of them,
/// none of which is higher, and the first where several are as high.
pub open spec fn is_the_ground(under: Seq<Option<Ground>>, g: Ground) -> bool {
    exists|k: int|
        {
            &&& 0 <= k < under.len()
            &&& #[trigger] under[k] == Some(g)
            &&& forall|j: int|
                0 <= j < under.len() ==> ((#[trigger] under[j]) matches Some(h) ==> !below(
                    g.height,
                    h.height,
                ))
            &&& forall|j: int|
                0 <= j < k ==> ((#[trigger] under[j]) matches Some(h) ==> is_nan(h.height) || below(
                    h.height,
                    g.height,
                ))
        }
}

proof fn the_highest_is_the_ground(under: Seq<Option<Ground>>, n: int)
    requires
        0 <= n <= under.len(),
    ensures
        match highest(under, n) {
            Some(g) => is_the_ground(under.take(n), g),
            None => forall|i: int| 0 <= i < n ==> (#[trigger] under[i]) is None,
        },
    decreases n,
{
    if n > 0 {
        the_highest_is_the_ground(under, n - 1);
        let (few, more) = (under.take(n - 1), under.take(n));
        assert forall|j: int| 0 <= j < n - 1 implies #[trigger] more[j] == few[j] by {}
        assert(more[n - 1] == under[n - 1]);
        match highest(under, n - 1) {
            Some(b) => {
                let k = choose|k: int|
                    {
                        &&& 0 <= k < few.len()
                        &&& #[trigger] few[k] == Some(b)
                        &&& forall|j: int|
                            0 <= j < few.len() ==> ((#[trigger] few[j]) matches Some(h) ==> !below(
                                b.height,
                                h.height,
                            ))
                        &&& forall|j: int|
                            0 <= j < k ==> ((#[trigger] few[j]) matches Some(h) ==> is_nan(h.height)
                                || below(h.height, b.height))
                    };
                if highest(under, n) == Some(b) {
                    assert(more[k] == Some(b));
                } else {
                    assert(more[n - 1] == highest(under, n));
                }
            },
            None => {
                assert forall|j: int| 0 <= j < n - 1 implies (#[trigger] more[j]) is None by {
                    assert(under[j] is None);
                }
                if under[n - 1] is Some {
                    assert(more[n - 1] == highest(under, n));
                }
            },
        }
    }
}

/// Whether a tick takes a ball to `after` as it should. It falls, pushed where the player
/// drives it and there is something to steer by; every terrain is asked what is under it
/// there; it meets the ground where it reaches it, and flies on where it does not or there
/// is none; and in every case its speed is capped at the end.
pub open spec fn rolls_as_it_should<
    F: Fn(Body, bool) -> Body,
    S: Fn(u64, Vec3) -> Option<Ground>,
    R: Fn(Body, F32) -> bool,
    L: Fn(Body, Ground) -> Body,
    C: Fn(Body) -> Body,
>(
    fall: F,
    sample: S,
    reaches: R,
    land: L,
    cap: C,
    terrains: Seq<u64>,
    steered: bool,
    ball: Rolling,
    after: Rolling,
    fallen: Body,
    landed: Body,
    under: Seq<Option<Ground>>,
) -> bool {
    &&& after.driven == ball.driven
    &&& fall.ensures((ball.body, ball.driven && steered), fallen)
    &&& under.len() == terrains.len()
    &&& forall|i: int|
        0 <= i < terrains.len() ==> sample.ensures(
            (terrains[i], fallen.position),
            #[trigger] under[i],
        )
    &&& match after.ground {
        Some(g) => {
            &&& is_the_ground(under, g)
            &&& reaches.ensures((fallen, g.height), true)
            &&& land.ensures((fallen, g), landed)
        },
        None => {
            &&& landed == fallen
            &&& (forall|i: int| 0 <= i < under.len() ==> (#[trigger] under[i]) is None) || (exists|
                g: Ground,
            | #[trigger]
                is_the_ground(under, g) && reaches.ensures((fallen, g.height), false))
        },
    }
    &&& cap.ensures((landed,), after.body)
}

/// Whether a tick takes a ball to `after` as it should, by way of some fall and some
/// landing.
pub open spec fn has_rolled<
    F: Fn(Body, bool) -> Body,
    S: Fn(u64, Vec3) -> Option<Ground>,
    R: Fn(Body, F32) -> bool,
    L: Fn(Body, Ground) -> Body,
    C: Fn(Body) -> Body,
>(
    fall: F,
    sample: S,
    reaches: R,
    land: L,
    cap: C,
    terrains: Seq<u64>,
    steered: bool,
    ball: Rolling,
    after: Rolling,
) -> bool {
    exists|fallen: Body, landed: Body, under: Seq<Option<Ground>>| #[trigger]
        rolls_as_it_should(
            fall,
            sample,
            reaches,
            land,
            cap,
            terrains,
            steered,
            ball,
            after,
            fallen,
            landed,
            under,
        )
}

proof fn a_roll_is_as_it_should<
    F: Fn(Body, bool) -> Body,
    S: Fn(u64, Vec3) -> Option<Ground>,
    R: Fn(Body, F32) -> bool,
    L: Fn(Body, Ground) -> Body,
    C: Fn(Body) -> Body,
>(
    fall: F,
    sample: S,
    reaches: R,
    land: L,
    cap: C,
    terrains: Seq<u64>,
    steered: bool,
    ball: Rolling,
    after: Rolling,
)
    requires
        rolls(fall, sample, reaches, land, cap, terrains, steered, ball, after),
    ensures
        has_rolled(fall, sample, reaches, land, cap, terrains, steered, ball, after),
{
    let (fallen, landed) = choose|fallen: Body, landed: Body|
        {
            &&& #[trigger] falls(fall, ball, steered, fallen)
            &&& #[trigger] lands(sample, reaches, land, terrains, fallen, landed, after.ground)
            &&& cap.ensures((landed,), after.body)
        };
    let under = choose|under: Seq<Option<Ground>>|
        {
            &&& #[trigger] sampled(sample, terrains, fallen.position, under)
            &&& match highest(under, under.len() as int) {
                Some(g) => {
                    ||| reaches.ensures((fallen, g.height), true) && land.ensures(
                        (fallen, g),
                        landed,
                    ) && after.ground == Some(g)
                    ||| reaches.ensures((fallen, g.height), false) && landed == fallen
                        && after.ground is None
                },
                None => landed == fallen && after.ground is None,
            }
        };
    the_highest_is_the_ground(under, under.len() as int);
    assert(under.take(under.len() as int) =~= under);
    assert(rolls_as_it_should(
        fall,
        sample,
        reaches,
        land,
        cap,
        terrains,
        steered,
        ball,
        after,
        fallen,
        landed,
        under,
    ));
}

/// In a tick of a finite length above zero every ball falls, meets the ground and is
/// capped, and the terrains are asked in the order of their entities, each once; in any
/// other nothing changes at all.
pub proof fn every_ball_rolls_as_it_should<
    F: Fn(Body, bool) -> Body,
    S: Fn(u64, Vec3) -> Option<Ground>,
    R: Fn(Body, F32) -> bool,
    L: Fn(Body, Ground) -> Body,
    C: Fn(Body) -> Body,
>(
    dt: F32,
    terrains: Seq<u64>,
    steered: bool,
    fall: F,
    sample: S,
    reaches: R,
    land: L,
    cap: C,
    before: Seq<Rolling>,
    after: Seq<Rolling>,
)
    requires
        integrates(dt, terrains, steered, fall, sample, reaches, land, cap, before, after),
    ensures
        after.len() == before.len(),
        !(0 < dt.0 < 0x7f80_0000) ==> after == before,
        0 < dt.0 < 0x7f80_0000 ==> exists|order: Seq<u64>|
            {
                &&& #[trigger] order.to_multiset() == terrains.to_multiset()
                &&& forall|i: int, j: int|
                    0 <= i < j < order.len() ==> #[trigger] order[i] <= #[trigger] order[j]
                &&& forall|i: int|
                    0 <= i < before.len() ==> has_rolled(fall, sample, reaches, land, cap, order, steered, before[i], #[trigger] after[i])
            },
{
    assert(moves(dt) <==> 0 < dt.0 < 0x7f80_0000);
    if moves(dt) {
        let order = choose|order: Seq<u64>|
            {
                &&& #[trigger] ascending(order)
                &&& order.to_multiset() == terrains.to_multiset()
                &&& forall|i: int|
                    0 <= i < before.len() ==> rolls(
                        fall,
                        sample,
                        reaches,
                        land,
                        cap,
                        order,
                        steered,
                        before[i],
                        #[trigger] after[i],
                    )
            };
        assert(order.to_multiset() == terrains.to_multiset());
        assert forall|i: int| 0 <= i < before.len() implies has_rolled(fall, sample, reaches, land, cap, order, steered, before[i], #[trigger] after[i]) by {
            assert(rolls(
                fall,
                sample,
                reaches,
                land,
                cap,
                order,
                steered,
                before[i],
                after[i],
            ));
            a_roll_is_as_it_should(
                fall,
                sample,
                reaches,
                land,
                cap,
                order,
                steered,
                before[i],
                after[i],
            );
        }
    }
}

/// No ball is faster behind a tick than the cap lets it be, on the ground or off it:
/// whatever holds of everything that the cap gives holds of every ball.
pub proof fn every_ball_is_capped<
    F: Fn(Body, bool) -> Body,
    S: Fn(u64, Vec3) -> Option<Ground>,
    R: Fn(Body, F32) -> bool,
    L: Fn(Body, Ground) -> Body,
    C: Fn(Body) -> Body,
>(
    dt: F32,
    terrains: Seq<u64>,
    steered: bool,
    fall: F,
    sample: S,
    reaches: R,
    land: L,
    cap: C,
    before: Seq<Rolling>,
    after: Seq<Rolling>,
    slow: spec_fn(Body) -> bool,
    i: int,
)
    requires
        integrates(dt, terrains, steered, fall, sample, reaches, land, cap, before, after),
        0 < dt.0 < 0x7f80_0000,
        0 <= i < before.len(),
        forall|b: Body, r: Body| #[trigger] cap.ensures((b,), r) ==> slow(r),
    ensures
        slow(after[i].body),
        exists|b: Body| #[trigger] cap.ensures((b,), after[i].body),
{
    every_ball_rolls_as_it_should(
        dt,
        terrains,
        steered,
        fall,
        sample,
        reaches,
        land,
        cap,
        before,
        after,
    );
    let order = choose|order: Seq<u64>|
        {
            &&& #[trigger] order.to_multiset() == terrains.to_multiset()
            &&& forall|i: int|
                0 <= i < before.len() ==> has_rolled(fall, sample, reaches, land, cap, order, steered, before[i], #[trigger] after[i])
        };
    let (fallen, landed, under) = choose|
        fallen: Body,
        landed: Body,
        under: Seq<Option<Ground>>,
    | #[trigger]
        rolls_as_it_should(
            fall,
            sample,
            reaches,
            land,
            cap,
            order,
            steered,
            before[i],
            after[i],
            fallen,
            landed,
            under,
        );
    assert(cap.ensures((landed,), after[i].body));
}

// ---------------------------------------------------------------------------
// Keys and contacts
// ---------------------------------------------------------------------------

/// A ball that moves away from the ground, or along it, is leaving; one that moves into it
/// bounces where that is faster than one, and comes to rest where it is not.
pub proof fn only_fast_balls_bounce(into: F32)
    requires
        !is_nan(into),
    ensures
        impact_of(into) is Separate <==> rank(into) >= 0,
        impact_of(into) is Reflect <==> rank(into) < -0x3f80_0000,
        impact_of(into) is Absorb <==> -0x3f80_0000 <= rank(into) < 0,
{
}

/// A ball leaves a box by the face that it is least far in at.
pub proof fn balls_leave_by_the_nearest_face(gap: Vec3)
    requires
        !is_nan(gap.x),
        !is_nan(gap.y),
        !is_nan(gap.z),
    ensures
        ({
            let axis = least_axis_of(gap);
            let least = if axis == 0 {
                rank(gap.x)
            } else if axis == 1 {
                rank(gap.y)
            } else {
                rank(gap.z)
            };
            &&& 0 <= axis <= 2
            &&& least <= rank(gap.x) && least <= rank(gap.y) && least <= rank(gap.z)
            &&& axis >= 1 ==> least < rank(gap.x)
            &&& axis == 2 ==> least < rank(gap.y)
        }),
{
}

/// Whether `r` is one where only the first two keys are held, either of them; minus one
/// where only the last two are; and nothing where both are or neither.
pub open spec fn pulls(
    input: Input,
    a: Key,
    b: Key,
    against: Key,
    also_against: Key,
    r: int,
) -> bool {
    let keys = input.keys@;
    let one = is_held(keys, a) || is_held(keys, b);
    let other = is_held(keys, against) || is_held(keys, also_against);
    &&& one && !other ==> r == 1
    &&& other && !one ==> r == -1
    &&& one == other ==> r == 0
}

/// The keys push the way they are named for: D and the right arrow to the right, A and the
/// left one to the left, W and up forward, S and down back.
pub proof fn the_keys_push_their_way(input: Input, r: (i32, i32))
    requires
        pushes(input, r),
    ensures
        pulls(input, Key::D, Key::Right, Key::A, Key::Left, r.0 as int),
        pulls(input, Key::W, Key::Up, Key::S, Key::Down, r.1 as int),
{
}

} // verus!
