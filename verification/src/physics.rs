//! What the physics decides: which way the keys push, which ground a ball is
//! over, how it meets the ground, and whom it meets in which order.
//!
//! The vectors are computed elsewhere and come in as arguments, or from the
//! functions that are handed in; the order of things, and who is moved by whom,
//! is settled here.

use vstd::prelude::*;

use crate::float::{at_most, below, is_nan, rank, F32, ONE_BITS, SIGN_BIT, Vec2, Vec3};
use crate::input::{is_held, Input, Key};

verus! {

// ---------------------------------------------------------------------------
// Balls
// ---------------------------------------------------------------------------

/// What a ball is like: a point with a radius, and how it moves.
#[derive(Clone, Copy, Debug, PartialEq, Eq, Structural)]
pub struct Ball {
    pub radius: F32,
    /// How fast it is pulled down, metres per second squared.
    pub gravity: F32,
    /// How fast its motion along the ground decays, per second.
    pub rolling_friction: F32,
    /// How fast all of its motion decays, per second.
    pub air_damping: F32,
    /// How much of its speed a bounce gives back.
    pub restitution: F32,
    /// The fastest it goes, metres per second.
    pub max_speed: F32,
}

/// The ball that is like any other, with this radius.
pub open spec fn plain_ball(radius: F32) -> Ball {
    Ball {
        radius,
        gravity: F32(0x41a0_0000),
        rolling_friction: F32(0x3f99_999a),
        air_damping: F32(0x3dcc_cccd),
        restitution: F32(0x3eb3_3333),
        max_speed: F32(0x41c8_0000),
    }
}

impl Ball {
    pub fn with_radius(radius: F32) -> (r: Ball)
        ensures
            r == plain_ball(radius),
    {
        Ball {
            radius,
            gravity: F32(0x41a0_0000),
            rolling_friction: F32(0x3f99_999a),
            air_damping: F32(0x3dcc_cccd),
            restitution: F32(0x3eb3_3333),
            max_speed: F32(0x41c8_0000),
        }
    }
}

impl Default for Ball {
    /// Half a metre in radius.
    fn default() -> (r: Ball)
        ensures
            r == plain_ball(F32(0x3f00_0000)),
    {
        Ball::with_radius(F32(0x3f00_0000))
    }
}

/// How hard the player pushes a ball, metres per second squared at full stick.
#[derive(Clone, Copy, Debug, PartialEq, Eq, Structural)]
pub struct BallController {
    pub accel: F32,
}

impl Default for BallController {
    fn default() -> (r: BallController)
        ensures
            r == (BallController { accel: F32(0x41b0_0000) }),
    {
        BallController { accel: F32(0x41b0_0000) }
    }
}

/// Whether a ball is on the ground, and which way the ground faces: straight up
/// while it is in the air.
#[derive(Clone, Copy, Debug, PartialEq, Eq, Structural)]
pub struct Grounded {
    pub grounded: bool,
    pub normal: Vec3,
}

/// Straight up.
pub open spec fn straight_up() -> Vec3 {
    Vec3 { x: F32(0), y: F32(ONE_BITS), z: F32(0) }
}

impl Default for Grounded {
    fn default() -> (r: Grounded)
        ensures
            r == (Grounded { grounded: false, normal: straight_up() }),
    {
        Grounded { grounded: false, normal: Vec3 { x: F32(0), y: F32(ONE_BITS), z: F32(0) } }
    }
}

// ---------------------------------------------------------------------------
// Keys
// ---------------------------------------------------------------------------

/// Whether either key is held.
pub open spec fn either_held(input: Input, a: Key, b: Key) -> bool {
    is_held(input.keys@, a) || is_held(input.keys@, b)
}

/// A pair of opposite directions: one, the other, or neither where both or none
/// are held.
pub open spec fn axis(pos: bool, neg: bool) -> int {
    (if pos {
        1int
    } else {
        0
    }) - (if neg {
        1int
    } else {
        0
    })
}

/// Whether `r` is which way the keys push.
pub open spec fn pushes(input: Input, r: (i32, i32)) -> bool {
    &&& r.0 == axis(
        either_held(input, Key::D, Key::Right),
        either_held(input, Key::A, Key::Left),
    )
    &&& r.1 == axis(either_held(input, Key::W, Key::Up), either_held(input, Key::S, Key::Down))
}

/// Which way the keys push: to the right and forward, each by one at most.
pub fn input_direction(input: &Input) -> (r: (i32, i32))
    ensures
        pushes(*input, r),
{
    let right: bool = input.held(Key::D) || input.held(Key::Right);
    let left: bool = input.held(Key::A) || input.held(Key::Left);
    let forward: bool = input.held(Key::W) || input.held(Key::Up);
    let back: bool = input.held(Key::S) || input.held(Key::Down);
    (tilt(right, left), tilt(forward, back))
}

fn tilt(pos: bool, neg: bool) -> (r: i32)
    ensures
        r == axis(pos, neg),
{
    if pos == neg {
        0
    } else if pos {
        1
    } else {
        -1
    }
}

// ---------------------------------------------------------------------------
// Ground
// ---------------------------------------------------------------------------

/// A surface at a point: its height and its gradient.
#[derive(Clone, Copy, Debug, PartialEq, Eq, Structural)]
pub struct Ground {
    pub height: F32,
    pub gradient: Vec2,
}

/// The highest of the first `n` surfaces that reach the point, the first of them
/// where several are as high.
pub open spec fn highest(samples: Seq<Option<Ground>>, n: int) -> Option<Ground>
    decreases n,
{
    if n <= 0 {
        None
    } else {
        let best = highest(samples, n - 1);
        match samples[n - 1] {
            Some(g) => match best {
                Some(b) => if below(b.height, g.height) {
                    Some(g)
                } else {
                    Some(b)
                },
                None => Some(g),
            },
            None => best,
        }
    }
}

/// The ground under a point, from what each terrain has there: nothing where the
/// point is outside it.
pub fn ground_under(samples: &Vec<Option<Ground>>) -> (r: Option<Ground>)
    ensures
        r == highest(samples@, samples@.len() as int),
{
    let mut best: Option<Ground> = None;
    let mut i: usize = 0;
    while i < samples.len()
        invariant
            i <= samples@.len(),
            best == highest(samples@, i as int),
        decreases samples@.len() - i,
    {
        if let Some(g) = samples[i] {
            best = match best {
                Some(b) => if b.height.lt(g.height) {
                    Some(g)
                } else {
                    Some(b)
                },
                None => Some(g),
            };
        }
        i = i + 1;
    }
    best
}

/// The ground is one of the surfaces that reach the point, and none of them is
/// higher; there is none only where none reaches it.
pub proof fn the_highest_ground_wins(samples: Seq<Option<Ground>>, n: int, k: int)
    requires
        0 <= n <= samples.len(),
        forall|i: int|
            0 <= i < n ==> ((#[trigger] samples[i]) matches Some(g) ==> !is_nan(g.height)),
        0 <= k < n,
        samples[k] is Some,
    ensures
        highest(samples, n) is Some,
        rank(samples[k]->0.height) <= rank(highest(samples, n)->0.height),
        exists|i: int| 0 <= i < n && #[trigger] samples[i] == highest(samples, n),
    decreases n,
{
    if k < n - 1 {
        the_highest_ground_wins(samples, n - 1, k);
    } else {
        if highest(samples, n - 1) is Some {
            ground_is_a_sample(samples, n - 1);
        }
        assert(samples[k] == samples[n - 1]);
    }
    if highest(samples, n) == samples[n - 1] {
    } else {
        ground_is_a_sample(samples, n - 1);
    }
}

proof fn ground_is_a_sample(samples: Seq<Option<Ground>>, n: int)
    requires
        0 <= n <= samples.len(),
        highest(samples, n) is Some,
    ensures
        exists|i: int| 0 <= i < n && #[trigger] samples[i] == highest(samples, n),
    decreases n,
{
    if highest(samples, n) == samples[n - 1] {
    } else {
        ground_is_a_sample(samples, n - 1);
    }
}

// ---------------------------------------------------------------------------
// Contact
// ---------------------------------------------------------------------------

/// How a ball meets the ground along the normal.
#[derive(Clone, Copy, Debug, PartialEq, Eq, Structural)]
pub enum Impact {
    /// Fast enough to bounce.
    Reflect,
    /// Too slow to: it comes to rest.
    Absorb,
    /// It is leaving already.
    Separate,
}

/// `f` with its sign turned.
pub open spec fn negated(f: F32) -> F32 {
    if f.0 >= SIGN_BIT {
        F32((f.0 - SIGN_BIT) as u32)
    } else {
        F32((f.0 + SIGN_BIT) as u32)
    }
}

/// How a ball that moves along the normal at `into` meets the ground: into it is
/// below zero, and what is faster than one bounces.
pub open spec fn impact_of(into: F32) -> Impact {
    if below(into, F32(0)) {
        if below(F32(ONE_BITS), negated(into)) {
            Impact::Reflect
        } else {
            Impact::Absorb
        }
    } else {
        Impact::Separate
    }
}

/// How a ball that moves along the normal at `into` meets the ground.
pub fn impact(into: F32) -> (r: Impact)
    ensures
        r == impact_of(into),
{
    if into.lt(F32(0)) {
        let speed: F32 = if into.0 >= SIGN_BIT {
            F32(into.0 - SIGN_BIT)
        } else {
            F32(into.0 + SIGN_BIT)
        };
        if F32(ONE_BITS).lt(speed) {
            Impact::Reflect
        } else {
            Impact::Absorb
        }
    } else {
        Impact::Separate
    }
}

/// The axis of least penetration: where several tie, the first.
pub open spec fn least_axis_of(gap: Vec3) -> int {
    if at_most(gap.x, gap.y) && at_most(gap.x, gap.z) {
        0
    } else if at_most(gap.y, gap.z) {
        1
    } else {
        2
    }
}

/// The face of a box that a ball inside it leaves by: the axis of least
/// penetration.
pub fn least_axis(gap: Vec3) -> (r: usize)
    ensures
        r == least_axis_of(gap),
{
    if gap.x.le(gap.y) && gap.x.le(gap.z) {
        0
    } else if gap.y.le(gap.z) {
        1
    } else {
        2
    }
}

// ---------------------------------------------------------------------------
// Overlaps
// ---------------------------------------------------------------------------

/// A shape that a ball can overlap.
#[derive(Clone, Copy, Debug, PartialEq, Eq, Structural)]
pub enum Shape {
    Sphere(F32),
    Aabb(Vec3),
}

/// A collider as the world has it: either shape, both or neither.
#[derive(Clone, Copy, Debug, PartialEq, Eq, Structural)]
pub struct Collider {
    pub entity: u64,
    pub center: Vec3,
    pub sphere: Option<F32>,
    pub aabb: Option<Vec3>,
    pub trigger: bool,
}

/// A collider as a ball meets it.
#[derive(Clone, Copy, Debug, PartialEq, Eq, Structural)]
pub struct Obstacle {
    pub entity: u64,
    pub center: Vec3,
    pub shape: Shape,
    pub trigger: bool,
}

/// What a collider is met as: by its sphere where it has one, else by its box.
pub open spec fn as_obstacle(c: Collider) -> Option<Obstacle> {
    match (c.sphere, c.aabb) {
        (Some(radius), _) => Some(
            Obstacle {
                entity: c.entity,
                center: c.center,
                shape: Shape::Sphere(radius),
                trigger: c.trigger,
            },
        ),
        (None, Some(half)) => Some(
            Obstacle {
                entity: c.entity,
                center: c.center,
                shape: Shape::Aabb(half),
                trigger: c.trigger,
            },
        ),
        (None, None) => None,
    }
}

/// The obstacles among the first `n` colliders.
pub open spec fn obstacles_of(colliders: Seq<Collider>, n: int) -> Seq<Obstacle>
    decreases n,
{
    if n <= 0 {
        Seq::empty()
    } else {
        let before = obstacles_of(colliders, n - 1);
        match as_obstacle(colliders[n - 1]) {
            Some(o) => before.push(o),
            None => before,
        }
    }
}

/// Obstacles in the order of their entities.
pub open spec fn by_entity(s: Seq<Obstacle>) -> bool {
    forall|i: int, j: int|
        0 <= i < j < s.len() ==> (#[trigger] s[i]).entity <= (#[trigger] s[j]).entity
}

fn obstacle(c: &Collider) -> (r: Option<Obstacle>)
    ensures
        r == as_obstacle(*c),
{
    let shape: Shape = match (c.sphere, c.aabb) {
        (Some(radius), _) => Shape::Sphere(radius),
        (None, Some(half)) => Shape::Aabb(half),
        (None, None) => {
            return None;
        },
    };
    Some(Obstacle { entity: c.entity, center: c.center, shape, trigger: c.trigger })
}

/// Put one more obstacle where its entity belongs.
fn insert_by_entity(list: &mut Vec<Obstacle>, o: Obstacle)
    requires
        by_entity(old(list)@),
    ensures
        by_entity(final(list)@),
        final(list)@.to_multiset() == old(list)@.to_multiset().insert(o),
{
    let ghost before = list@;
    let mut at: usize = list.len();
    while at > 0 && list[at - 1].entity > o.entity
        invariant
            at <= list@.len(),
            list@ == before,
            forall|j: int| at <= j < list@.len() ==> (#[trigger] list@[j]).entity > o.entity,
        decreases at,
    {
        at = at - 1;
    }
    list.insert(at, o);
    proof {
        let after = list@;
        assert forall|i: int, j: int| 0 <= i < j < after.len() implies (#[trigger] after[i]).entity
            <= (#[trigger] after[j]).entity by {
            if i < at && j < at {
                assert(after[i] == before[i] && after[j] == before[j]);
            } else if i < at && j > at {
                assert(after[i] == before[i] && after[j] == before[j - 1]);
            } else if i < at {
                assert(after[i] == before[i] && before[at - 1].entity <= o.entity);
                if i < at - 1 {
                    assert(before[i].entity <= before[at - 1].entity);
                }
            } else if i > at {
                assert(after[i] == before[i - 1] && after[j] == before[j - 1]);
            } else {
                assert(after[j] == before[j - 1]);
            }
        }
        before.to_multiset_ensures();
        before.insert_ensures(at as int, o);
        assert(after =~= before.insert(at as int, o));
        let front = before.take(at as int);
        let back = before.skip(at as int);
        assert(before =~= front + back);
        assert(after =~= front.push(o) + back);
        vstd::seq_lib::lemma_multiset_commutative(front, back);
        vstd::seq_lib::lemma_multiset_commutative(front.push(o), back);
        front.to_multiset_ensures();
        assert(front.push(o).to_multiset() =~= front.to_multiset().insert(o));
        assert(after.to_multiset() =~= before.to_multiset().insert(o));
    }
}

/// The obstacles of a world, in the order of their entities: the order that the
/// colliders come in does not matter.
pub fn obstacles(colliders: &Vec<Collider>) -> (r: Vec<Obstacle>)
    ensures
        by_entity(r@),
        r@.to_multiset() == obstacles_of(colliders@, colliders@.len() as int).to_multiset(),
{
    let mut out: Vec<Obstacle> = Vec::new();
    let mut i: usize = 0;
    while i < colliders.len()
        invariant
            i <= colliders@.len(),
            by_entity(out@),
            out@.to_multiset() == obstacles_of(colliders@, i as int).to_multiset(),
        decreases colliders@.len() - i,
    {
        if let Some(o) = obstacle(&colliders[i]) {
            insert_by_entity(&mut out, o);
            proof {
                obstacles_of(colliders@, i as int).to_multiset_ensures();
            }
        }
        i = i + 1;
    }
    out
}

/// Obstacles of different entities are in one order only: two lists in order that
/// hold the same obstacles are the same, however the colliders came.
pub proof fn obstacles_have_one_order(a: Seq<Obstacle>, b: Seq<Obstacle>)
    requires
        by_entity(a),
        by_entity(b),
        a.to_multiset() == b.to_multiset(),
        forall|i: int, j: int|
            0 <= i < j < a.len() ==> (#[trigger] a[i]).entity != (#[trigger] a[j]).entity,
    ensures
        a == b,
    decreases a.len(),
{
    a.to_multiset_ensures();
    b.to_multiset_ensures();
    assert(a.len() == b.len());
    if a.len() > 0 {
        let n = a.len() - 1;
        let (p, q) = (a.drop_last(), b.drop_last());
        assert(a =~= p.push(a[n]));
        assert(b =~= q.push(b[n]));
        assert(a.contains(a[n]) && b.contains(b[n]));
        assert(b.to_multiset().contains(a[n]) && a.to_multiset().contains(b[n]));
        let i = choose|i: int| 0 <= i < b.len() && b[i] == a[n];
        let j = choose|j: int| 0 <= j < a.len() && a[j] == b[n];
        assert(a[n] == b[n]) by {
            if j < n {
                assert(a[j].entity != a[n].entity);
                assert(a[j].entity <= a[n].entity);
                if i < n {
                    assert(b[i].entity <= b[n].entity);
                }
            }
        }
        p.to_multiset_ensures();
        q.to_multiset_ensures();
        assert(a.to_multiset() == p.to_multiset().insert(a[n]));
        assert(b.to_multiset() == q.to_multiset().insert(b[n]));
        assert(p.to_multiset() =~= a.to_multiset().remove(a[n]));
        assert(q.to_multiset() =~= b.to_multiset().remove(b[n]));
        assert forall|x: int, y: int| 0 <= x < y < p.len() implies (#[trigger] p[x]).entity
            != (#[trigger] p[y]).entity by {
            assert(a[x].entity != a[y].entity);
        }
        obstacles_have_one_order(p, q);
    } else {
        assert(a =~= b);
    }
}

/// A ball, where it is and how it moves.
#[derive(Clone, Copy, Debug, PartialEq, Eq, Structural)]
pub struct Body {
    pub entity: u64,
    pub radius: F32,
    pub position: Vec3,
    pub velocity: Vec3,
}

/// Where a ball overlaps something: the way out, and how far it is.
#[derive(Clone, Copy, Debug, PartialEq, Eq, Structural)]
pub struct Contact {
    pub normal: Vec3,
    pub depth: F32,
}

/// A ball overlapped a collider, solid or not.
#[derive(Clone, Copy, Debug, PartialEq, Eq, Structural)]
pub struct OverlapEvent {
    pub ball: u64,
    pub other: u64,
    /// The way from the collider towards the ball.
    pub normal: Vec3,
    pub depth: F32,
    /// Whether nothing was pushed out.
    pub trigger: bool,
}

/// What is told of a contact.
pub open spec fn event_of(ball: Body, o: Obstacle, c: Contact) -> OverlapEvent {
    OverlapEvent {
        ball: ball.entity,
        other: o.entity,
        normal: c.normal,
        depth: c.depth,
        trigger: o.trigger,
    }
}

/// A ball with another place and motion.
pub open spec fn moved_to(ball: Body, position: Vec3, velocity: Vec3) -> Body {
    Body { position, velocity, ..ball }
}

/// `after` is what meeting `o` may make of `ball`, and `told` what is told of it.
/// `overlap` says whether they meet, and `push` where that leaves the ball. A
/// trigger is told of and pushes nothing.
pub open spec fn meets<
    O: Fn(Vec3, F32, Vec3, Shape) -> Option<Contact>,
    P: Fn(Vec3, Vec3, Contact) -> (Vec3, Vec3),
>(overlap: O, push: P, ball: Body, o: Obstacle, after: Body, told: Seq<OverlapEvent>) -> bool {
    ||| overlap.ensures((ball.position, ball.radius, o.center, o.shape), None) && after == ball
        && told == Seq::<OverlapEvent>::empty()
    ||| exists|c: Contact|
        {
            &&& #[trigger] overlap.ensures(
                (ball.position, ball.radius, o.center, o.shape),
                Some(c),
            )
            &&& told == seq![event_of(ball, o, c)]
            &&& if o.trigger {
                after == ball
            } else {
                exists|q: (Vec3, Vec3)|
                    #![trigger push.ensures((ball.position, ball.velocity, c), q)]
                    push.ensures((ball.position, ball.velocity, c), q) && after == moved_to(
                        ball,
                        q.0,
                        q.1,
                    )
            }
        }
}

/// What is told in `n` parts, one after another.
pub open spec fn all_told(told: Seq<Seq<OverlapEvent>>, n: int) -> Seq<OverlapEvent>
    decreases n,
{
    if n <= 0 {
        Seq::empty()
    } else {
        all_told(told, n - 1) + told[n - 1]
    }
}

/// A ball meets the obstacles one after another: `states` has what it is before
/// each and after the last, and `parts` what is told of each.
pub open spec fn course<
    O: Fn(Vec3, F32, Vec3, Shape) -> Option<Contact>,
    P: Fn(Vec3, Vec3, Contact) -> (Vec3, Vec3),
>(
    overlap: O,
    push: P,
    obstacles: Seq<Obstacle>,
    states: Seq<Body>,
    parts: Seq<Seq<OverlapEvent>>,
) -> bool {
    &&& states.len() == parts.len() + 1
    &&& parts.len() <= obstacles.len()
    &&& forall|i: int|
        0 <= i < parts.len() ==> meets(
            overlap,
            push,
            states[i],
            obstacles[i],
            states[i + 1],
            #[trigger] parts[i],
        )
}

/// `after` is what meeting every obstacle, one after another, may make of `ball`,
/// and `told` what is told of it in that order.
pub open spec fn resolves<
    O: Fn(Vec3, F32, Vec3, Shape) -> Option<Contact>,
    P: Fn(Vec3, Vec3, Contact) -> (Vec3, Vec3),
>(
    overlap: O,
    push: P,
    ball: Body,
    obstacles: Seq<Obstacle>,
    after: Body,
    told: Seq<OverlapEvent>,
) -> bool {
    exists|states: Seq<Body>, parts: Seq<Seq<OverlapEvent>>|
        {
            &&& #[trigger] course(overlap, push, obstacles, states, parts)
            &&& parts.len() == obstacles.len()
            &&& states[0] == ball
            &&& states.last() == after
            &&& told == all_told(parts, parts.len() as int)
        }
}

/// Meet one obstacle.
fn meet<
    O: Fn(Vec3, F32, Vec3, Shape) -> Option<Contact>,
    P: Fn(Vec3, Vec3, Contact) -> (Vec3, Vec3),
>(overlap: &O, push: &P, ball: Body, o: Obstacle, events: &mut Vec<OverlapEvent>) -> (r: (
    Body,
    Ghost<Seq<OverlapEvent>>,
))
    requires
        forall|p: Vec3, radius: F32, q: Vec3, s: Shape| #[trigger]
            overlap.requires((p, radius, q, s)),
        forall|p: Vec3, v: Vec3, c: Contact| #[trigger] push.requires((p, v, c)),
    ensures
        meets(*overlap, *push, ball, o, r.0, r.1@),
        final(events)@ == old(events)@ + r.1@,
{
    let ghost before = events@;
    match overlap(ball.position, ball.radius, o.center, o.shape) {
        None => {
            proof {
                assert(before =~= before + Seq::<OverlapEvent>::empty());
            }
            (ball, Ghost(Seq::empty()))
        },
        Some(c) => {
            let event = OverlapEvent {
                ball: ball.entity,
                other: o.entity,
                normal: c.normal,
                depth: c.depth,
                trigger: o.trigger,
            };
            events.push(event);
            let ghost told = seq![event];
            proof {
                assert(events@ =~= before + told);
            }
            if o.trigger {
                (ball, Ghost(told))
            } else {
                let (position, velocity) = push(ball.position, ball.velocity, c);
                let after = Body { entity: ball.entity, radius: ball.radius, position, velocity };
                proof {
                    let q = (position, velocity);
                    assert(push.ensures((ball.position, ball.velocity, c), q));
                    assert(after == moved_to(ball, q.0, q.1));
                }
                (after, Ghost(told))
            }
        },
    }
}

/// Meet every obstacle, in order.
fn resolve<
    O: Fn(Vec3, F32, Vec3, Shape) -> Option<Contact>,
    P: Fn(Vec3, Vec3, Contact) -> (Vec3, Vec3),
>(
    overlap: &O,
    push: &P,
    ball: Body,
    obstacles: &Vec<Obstacle>,
    events: &mut Vec<OverlapEvent>,
) -> (r: (Body, Ghost<Seq<OverlapEvent>>))
    requires
        forall|p: Vec3, radius: F32, q: Vec3, s: Shape| #[trigger]
            overlap.requires((p, radius, q, s)),
        forall|p: Vec3, v: Vec3, c: Contact| #[trigger] push.requires((p, v, c)),
    ensures
        resolves(*overlap, *push, ball, obstacles@, r.0, r.1@),
        final(events)@ == old(events)@ + r.1@,
{
    let ghost before = events@;
    let ghost mut states: Seq<Body> = seq![ball];
    let ghost mut parts: Seq<Seq<OverlapEvent>> = Seq::empty();
    let mut now: Body = ball;
    let mut i: usize = 0;
    proof {
        assert(before =~= before + all_told(parts, 0));
    }
    while i < obstacles.len()
        invariant
            i <= obstacles@.len(),
            forall|p: Vec3, radius: F32, q: Vec3, s: Shape| #[trigger]
                overlap.requires((p, radius, q, s)),
            forall|p: Vec3, v: Vec3, c: Contact| #[trigger] push.requires((p, v, c)),
            course(*overlap, *push, obstacles@, states, parts),
            parts.len() == i,
            states[0] == ball,
            states.last() == now,
            events@ == before + all_told(parts, i as int),
        decreases obstacles@.len() - i,
    {
        let (next, Ghost(last)) = meet(overlap, push, now, obstacles[i], events);
        proof {
            let longer = parts.push(last);
            told_of_prefix(parts, last, i as int);
            assert(all_told(longer, i + 1) == all_told(parts, i as int) + last);
            assert(events@ =~= before + all_told(longer, i + 1));
            let more = states.push(next);
            assert forall|j: int| 0 <= j < longer.len() implies meets(
                *overlap,
                *push,
                more[j],
                obstacles@[j],
                more[j + 1],
                #[trigger] longer[j],
            ) by {
                if j < i {
                    assert(longer[j] == parts[j]);
                    assert(more[j] == states[j] && more[j + 1] == states[j + 1]);
                }
            }
            states = more;
            parts = longer;
        }
        now = next;
        i = i + 1;
    }
    proof {
        assert(course(*overlap, *push, obstacles@, states, parts));
    }
    (now, Ghost(all_told(parts, parts.len() as int)))
}

/// Balls in the order of their entities.
pub open spec fn bodies_by_entity(s: Seq<Body>) -> bool {
    forall|i: int, j: int|
        0 <= i < j < s.len() ==> (#[trigger] s[i]).entity <= (#[trigger] s[j]).entity
}

/// Put one more ball where its entity belongs.
fn insert_body(list: &mut Vec<Body>, b: Body)
    requires
        bodies_by_entity(old(list)@),
    ensures
        bodies_by_entity(final(list)@),
        final(list)@.to_multiset() == old(list)@.to_multiset().insert(b),
{
    let ghost before = list@;
    let mut at: usize = list.len();
    while at > 0 && list[at - 1].entity > b.entity
        invariant
            at <= list@.len(),
            list@ == before,
            forall|j: int| at <= j < list@.len() ==> (#[trigger] list@[j]).entity > b.entity,
        decreases at,
    {
        at = at - 1;
    }
    list.insert(at, b);
    proof {
        let after = list@;
        assert forall|i: int, j: int| 0 <= i < j < after.len() implies (#[trigger] after[i]).entity
            <= (#[trigger] after[j]).entity by {
            if i < at && j < at {
                assert(after[i] == before[i] && after[j] == before[j]);
            } else if i < at && j > at {
                assert(after[i] == before[i] && after[j] == before[j - 1]);
            } else if i < at {
                assert(after[i] == before[i] && before[at - 1].entity <= b.entity);
                if i < at - 1 {
                    assert(before[i].entity <= before[at - 1].entity);
                }
            } else if i > at {
                assert(after[i] == before[i - 1] && after[j] == before[j - 1]);
            } else {
                assert(after[j] == before[j - 1]);
            }
        }
        let front = before.take(at as int);
        let back = before.skip(at as int);
        assert(before =~= front + back);
        assert(after =~= front.push(b) + back);
        vstd::seq_lib::lemma_multiset_commutative(front, back);
        vstd::seq_lib::lemma_multiset_commutative(front.push(b), back);
        front.to_multiset_ensures();
        assert(front.push(b).to_multiset() =~= front.to_multiset().insert(b));
        assert(after.to_multiset() =~= before.to_multiset().insert(b));
    }
}

/// The balls in the order of their entities.
fn in_entity_order(balls: &Vec<Body>) -> (r: Vec<Body>)
    ensures
        bodies_by_entity(r@),
        r@.to_multiset() == balls@.to_multiset(),
{
    let mut out: Vec<Body> = Vec::new();
    let mut i: usize = 0;
    proof {
        assert(balls@.take(0) =~= out@);
    }
    while i < balls.len()
        invariant
            i <= balls@.len(),
            bodies_by_entity(out@),
            out@.to_multiset() == balls@.take(i as int).to_multiset(),
        decreases balls@.len() - i,
    {
        insert_body(&mut out, balls[i]);
        proof {
            let before = balls@.take(i as int);
            before.to_multiset_ensures();
            assert(balls@.take(i + 1) =~= before.push(balls@[i as int]));
        }
        i = i + 1;
    }
    proof {
        assert(balls@.take(i as int) =~= balls@);
    }
    out
}

/// The balls of a world after they met its colliders, in the order of their
/// entities, and what is told of it.
pub struct Resolved {
    pub balls: Vec<Body>,
    pub events: Vec<OverlapEvent>,
}

/// What may come of balls that meet obstacles, each ball after the other.
pub open spec fn all_resolve<
    O: Fn(Vec3, F32, Vec3, Shape) -> Option<Contact>,
    P: Fn(Vec3, Vec3, Contact) -> (Vec3, Vec3),
>(
    overlap: O,
    push: P,
    balls: Seq<Body>,
    obstacles: Seq<Obstacle>,
    after: Seq<Body>,
    events: Seq<OverlapEvent>,
) -> bool {
    &&& after.len() == balls.len()
    &&& exists|told: Seq<Seq<OverlapEvent>>|
        {
            &&& told.len() == balls.len()
            &&& events == #[trigger] all_told(told, told.len() as int)
            &&& forall|i: int|
                0 <= i < told.len() ==> resolves(
                    overlap,
                    push,
                    balls[i],
                    obstacles,
                    after[i],
                    #[trigger] told[i],
                )
        }
}

/// What may come of balls that meet colliders, both in the order of their entities.
pub open spec fn overlaps_resolve<
    O: Fn(Vec3, F32, Vec3, Shape) -> Option<Contact>,
    P: Fn(Vec3, Vec3, Contact) -> (Vec3, Vec3),
>(
    overlap: O,
    push: P,
    balls: Seq<Body>,
    colliders: Seq<Collider>,
    after: Seq<Body>,
    events: Seq<OverlapEvent>,
) -> bool {
    exists|start: Seq<Body>, list: Seq<Obstacle>|
        {
            &&& bodies_by_entity(start)
            &&& start.to_multiset() == balls.to_multiset()
            &&& by_entity(list)
            &&& list.to_multiset() == obstacles_of(colliders, colliders.len() as int).to_multiset()
            &&& #[trigger] all_resolve(overlap, push, start, list, after, events)
        }
}

/// Let every ball meet every collider: the balls one after another, and each ball
/// the colliders one after another. Both go in the order of their entities,
/// whatever order they come in. Only balls are moved, and only by what is solid;
/// every overlap is told of, in that order.
///
/// `overlap` says whether a ball meets a shape and where, and `push` moves a ball
/// out of it.
pub fn resolve_overlaps<
    O: Fn(Vec3, F32, Vec3, Shape) -> Option<Contact>,
    P: Fn(Vec3, Vec3, Contact) -> (Vec3, Vec3),
>(balls: &Vec<Body>, colliders: &Vec<Collider>, overlap: O, push: P) -> (r: Resolved)
    requires
        forall|p: Vec3, radius: F32, q: Vec3, s: Shape| #[trigger]
            overlap.requires((p, radius, q, s)),
        forall|p: Vec3, v: Vec3, c: Contact| #[trigger] push.requires((p, v, c)),
    ensures
        overlaps_resolve(overlap, push, balls@, colliders@, r.balls@, r.events@),
{
    let list: Vec<Obstacle> = obstacles(colliders);
    let mut sorted: Vec<Body> = in_entity_order(balls);
    let ghost start = sorted@;
    let events: Vec<OverlapEvent> = resolve_all(&mut sorted, &list, &overlap, &push);
    let r = Resolved { balls: sorted, events };
    proof {
        assert(start.to_multiset() == balls@.to_multiset());
        assert(all_resolve(overlap, push, start, list@, r.balls@, r.events@));
    }
    r
}

/// Let every ball meet every obstacle, in the order that they are listed in.
fn resolve_all<
    O: Fn(Vec3, F32, Vec3, Shape) -> Option<Contact>,
    P: Fn(Vec3, Vec3, Contact) -> (Vec3, Vec3),
>(balls: &mut Vec<Body>, obstacles: &Vec<Obstacle>, overlap: &O, push: &P) -> (r: Vec<
    OverlapEvent,
>)
    requires
        forall|p: Vec3, radius: F32, q: Vec3, s: Shape| #[trigger]
            overlap.requires((p, radius, q, s)),
        forall|p: Vec3, v: Vec3, c: Contact| #[trigger] push.requires((p, v, c)),
    ensures
        all_resolve(*overlap, *push, old(balls)@, obstacles@, final(balls)@, r@),
{
    let ghost start = balls@;
    let mut events: Vec<OverlapEvent> = Vec::new();
    let ghost mut told: Seq<Seq<OverlapEvent>> = Seq::empty();
    let n: usize = balls.len();
    let mut i: usize = 0;
    while i < n
        invariant
            i <= n == balls@.len() == start.len(),
            told.len() == i,
            forall|p: Vec3, radius: F32, q: Vec3, s: Shape| #[trigger]
                overlap.requires((p, radius, q, s)),
            forall|p: Vec3, v: Vec3, c: Contact| #[trigger] push.requires((p, v, c)),
            events@ == all_told(told, i as int),
            forall|j: int| i <= j < n ==> #[trigger] balls@[j] == start[j],
            forall|j: int|
                0 <= j < i ==> resolves(
                    *overlap,
                    *push,
                    start[j],
                    obstacles@,
                    balls@[j],
                    #[trigger] told[j],
                ),
        decreases n - i,
    {
        let ball: Body = balls[i];
        let (after, Ghost(last)) = resolve(overlap, push, ball, obstacles, &mut events);
        let ghost before = balls@;
        balls.set(i, after);
        proof {
            let more = told.push(last);
            told_of_prefix(told, last, i as int);
            assert(all_told(more, i + 1) == all_told(told, i as int) + last);
            assert forall|j: int| 0 <= j < i + 1 implies resolves(
                *overlap,
                *push,
                start[j],
                obstacles@,
                balls@[j],
                #[trigger] more[j],
            ) by {
                if j < i {
                    assert(balls@[j] == before[j] && more[j] == told[j]);
                }
            }
            told = more;
        }
        i = i + 1;
    }
    proof {
        assert(events@ == all_told(told, told.len() as int));
    }
    events
}

proof fn told_of_prefix(told: Seq<Seq<OverlapEvent>>, last: Seq<OverlapEvent>, n: int)
    requires
        0 <= n <= told.len(),
    ensures
        all_told(told.push(last), n) == all_told(told, n),
    decreases n,
{
    if n > 0 {
        told_of_prefix(told, last, n - 1);
        assert(told.push(last)[n - 1] == told[n - 1]);
    }
}

proof fn still_among_triggers<
    O: Fn(Vec3, F32, Vec3, Shape) -> Option<Contact>,
    P: Fn(Vec3, Vec3, Contact) -> (Vec3, Vec3),
>(
    overlap: O,
    push: P,
    obstacles: Seq<Obstacle>,
    states: Seq<Body>,
    parts: Seq<Seq<OverlapEvent>>,
    n: int,
)
    requires
        course(overlap, push, obstacles, states, parts),
        0 <= n <= parts.len(),
        forall|i: int| 0 <= i < obstacles.len() ==> (#[trigger] obstacles[i]).trigger,
    ensures
        states[n] == states[0],
    decreases n,
{
    if n > 0 {
        still_among_triggers(overlap, push, obstacles, states, parts, n - 1);
        assert(meets(overlap, push, states[n - 1], obstacles[n - 1], states[n], parts[n - 1]));
        assert(obstacles[n - 1].trigger);
    }
}

/// Among triggers a ball flies on: where every obstacle is one, it is left where it
/// was and as it moved.
pub proof fn triggers_move_nothing<
    O: Fn(Vec3, F32, Vec3, Shape) -> Option<Contact>,
    P: Fn(Vec3, Vec3, Contact) -> (Vec3, Vec3),
>(
    overlap: O,
    push: P,
    ball: Body,
    obstacles: Seq<Obstacle>,
    after: Body,
    told: Seq<OverlapEvent>,
)
    requires
        resolves(overlap, push, ball, obstacles, after, told),
        forall|i: int| 0 <= i < obstacles.len() ==> (#[trigger] obstacles[i]).trigger,
    ensures
        after == ball,
{
    let (states, parts) = choose|states: Seq<Body>, parts: Seq<Seq<OverlapEvent>>|
        {
            &&& #[trigger] course(overlap, push, obstacles, states, parts)
            &&& parts.len() == obstacles.len()
            &&& states[0] == ball
            &&& states.last() == after
            &&& told == all_told(parts, parts.len() as int)
        };
    still_among_triggers(overlap, push, obstacles, states, parts, parts.len() as int);
}

/// Whether an event is of a ball and one of the first `n` obstacles.
pub open spec fn names(event: OverlapEvent, ball: Body, obstacles: Seq<Obstacle>, n: int) -> bool {
    event.ball == ball.entity && exists|i: int|
        0 <= i < n && (#[trigger] obstacles[i]).entity == event.other && obstacles[i].trigger
            == event.trigger
}

proof fn told_names<
    O: Fn(Vec3, F32, Vec3, Shape) -> Option<Contact>,
    P: Fn(Vec3, Vec3, Contact) -> (Vec3, Vec3),
>(
    overlap: O,
    push: P,
    obstacles: Seq<Obstacle>,
    states: Seq<Body>,
    parts: Seq<Seq<OverlapEvent>>,
    n: int,
)
    requires
        course(overlap, push, obstacles, states, parts),
        0 <= n <= parts.len(),
    ensures
        states[n].entity == states[0].entity,
        states[n].radius == states[0].radius,
        all_told(parts, n).len() <= n,
        forall|k: int|
            0 <= k < all_told(parts, n).len() ==> names(
                #[trigger] all_told(parts, n)[k],
                states[0],
                obstacles,
                n,
            ),
    decreases n,
{
    if n > 0 {
        told_names(overlap, push, obstacles, states, parts, n - 1);
        let last = parts[n - 1];
        let first = all_told(parts, n - 1);
        assert(meets(overlap, push, states[n - 1], obstacles[n - 1], states[n], last));
        assert forall|k: int| 0 <= k < all_told(parts, n).len() implies names(
            #[trigger] all_told(parts, n)[k],
            states[0],
            obstacles,
            n,
        ) by {
            let e = all_told(parts, n)[k];
            if k < first.len() {
                assert(e == first[k]);
                assert(names(first[k], states[0], obstacles, n - 1));
                let i = choose|i: int|
                    0 <= i < n - 1 && (#[trigger] obstacles[i]).entity == e.other
                        && obstacles[i].trigger == e.trigger;
                assert(obstacles[i].entity == e.other);
            } else {
                assert(e == last[k - first.len()]);
                assert(obstacles[n - 1].entity == e.other);
            }
        }
    }
}

/// Everything that is told of a ball names it, and names an obstacle with its
/// being a trigger or not; there are no more such events than
/// obstacles; and the ball stays the ball that it is.
pub proof fn events_name_what_met<
    O: Fn(Vec3, F32, Vec3, Shape) -> Option<Contact>,
    P: Fn(Vec3, Vec3, Contact) -> (Vec3, Vec3),
>(
    overlap: O,
    push: P,
    ball: Body,
    obstacles: Seq<Obstacle>,
    after: Body,
    told: Seq<OverlapEvent>,
)
    requires
        resolves(overlap, push, ball, obstacles, after, told),
    ensures
        after.entity == ball.entity,
        after.radius == ball.radius,
        told.len() <= obstacles.len(),
        forall|k: int|
            0 <= k < told.len() ==> names(
                #[trigger] told[k],
                ball,
                obstacles,
                obstacles.len() as int,
            ),
{
    let (states, parts) = choose|states: Seq<Body>, parts: Seq<Seq<OverlapEvent>>|
        {
            &&& #[trigger] course(overlap, push, obstacles, states, parts)
            &&& parts.len() == obstacles.len()
            &&& states[0] == ball
            &&& states.last() == after
            &&& told == all_told(parts, parts.len() as int)
        };
    told_names(overlap, push, obstacles, states, parts, parts.len() as int);
}

// ---------------------------------------------------------------------------
// A tick of motion
// ---------------------------------------------------------------------------

/// A ball that rolls: its body, whether the player drives it, and the ground that
/// it is on, where it is on any.
#[derive(Clone, Copy, Debug, PartialEq, Eq, Structural)]
pub struct Rolling {
    pub body: Body,
    pub driven: bool,
    pub ground: Option<Ground>,
}

/// What each terrain has under a point: one sample for one terrain.
pub open spec fn sampled<S: Fn(u64, Vec3) -> Option<Ground>>(
    sample: S,
    terrains: Seq<u64>,
    at: Vec3,
    samples: Seq<Option<Ground>>,
) -> bool {
    &&& samples.len() == terrains.len()
    &&& forall|i: int|
        0 <= i < terrains.len() ==> sample.ensures((terrains[i], at), #[trigger] samples[i])
}

/// `landed` is what meeting the highest ground under it may make of `fallen`, and
/// `on` that ground, where the ball reaches it.
pub open spec fn lands<
    S: Fn(u64, Vec3) -> Option<Ground>,
    R: Fn(Body, F32) -> bool,
    L: Fn(Body, Ground) -> Body,
>(
    sample: S,
    reaches: R,
    land: L,
    terrains: Seq<u64>,
    fallen: Body,
    landed: Body,
    on: Option<Ground>,
) -> bool {
    exists|samples: Seq<Option<Ground>>|
        {
            &&& #[trigger] sampled(sample, terrains, fallen.position, samples)
            &&& match highest(samples, samples.len() as int) {
                Some(g) => {
                    ||| reaches.ensures((fallen, g.height), true) && land.ensures(
                        (fallen, g),
                        landed,
                    ) && on == Some(g)
                    ||| reaches.ensures((fallen, g.height), false) && landed == fallen && on is None
                },
                None => landed == fallen && on is None,
            }
        }
}

/// `fallen` is what a step in the air may make of `ball`, pushed by the player where
/// the player drives it and there is a camera to steer by.
pub open spec fn falls<F: Fn(Body, bool) -> Body>(
    fall: F,
    ball: Rolling,
    steered: bool,
    fallen: Body,
) -> bool {
    fall.ensures((ball.body, ball.driven && steered), fallen)
}

/// `after` is what a tick may make of `ball`: it falls, it meets the ground, and
/// its speed is capped.
pub open spec fn rolls<
    F: Fn(Body, bool) -> Body,
    S: Fn(u64, Vec3) -> Option<Ground>,
    R: Fn(Body, F32) -> bool,
    L: Fn(Body, Ground) -> Body,
    C: Fn(Body) -> Body,
>(
    fall: F,
    sample: S,
    reaches: R,
    land: L,
    cap: C,
    terrains: Seq<u64>,
    steered: bool,
    ball: Rolling,
    after: Rolling,
) -> bool {
    &&& after.driven == ball.driven
    &&& exists|fallen: Body, landed: Body|
        {
            &&& #[trigger] falls(fall, ball, steered, fallen)
            &&& #[trigger] lands(sample, reaches, land, terrains, fallen, landed, after.ground)
            &&& cap.ensures((landed,), after.body)
        }
}

/// The ground under a ball, from every terrain in order.
fn find_ground<S: Fn(u64, Vec3) -> Option<Ground>>(
    sample: &S,
    terrains: &Vec<u64>,
    at: Vec3,
) -> (r: (Option<Ground>, Ghost<Seq<Option<Ground>>>))
    requires
        forall|t: u64, p: Vec3| #[trigger] sample.requires((t, p)),
    ensures
        sampled(*sample, terrains@, at, r.1@),
        r.0 == highest(r.1@, r.1@.len() as int),
{
    let mut samples: Vec<Option<Ground>> = Vec::new();
    let mut i: usize = 0;
    while i < terrains.len()
        invariant
            i <= terrains@.len(),
            samples@.len() == i,
            forall|t: u64, p: Vec3| #[trigger] sample.requires((t, p)),
            forall|j: int| 0 <= j < i ==> sample.ensures((terrains@[j], at), #[trigger] samples@[j]),
        decreases terrains@.len() - i,
    {
        samples.push(sample(terrains[i], at));
        i = i + 1;
    }
    let ground: Option<Ground> = ground_under(&samples);
    (ground, Ghost(samples@))
}

/// One tick of one ball.
fn roll<
    F: Fn(Body, bool) -> Body,
    S: Fn(u64, Vec3) -> Option<Ground>,
    R: Fn(Body, F32) -> bool,
    L: Fn(Body, Ground) -> Body,
    C: Fn(Body) -> Body,
>(
    fall: &F,
    sample: &S,
    reaches: &R,
    land: &L,
    cap: &C,
    terrains: &Vec<u64>,
    steered: bool,
    ball: Rolling,
) -> (r: Rolling)
    requires
        forall|b: Body, d: bool| #[trigger] fall.requires((b, d)),
        forall|t: u64, p: Vec3| #[trigger] sample.requires((t, p)),
        forall|b: Body, h: F32| #[trigger] reaches.requires((b, h)),
        forall|b: Body, g: Ground| #[trigger] land.requires((b, g)),
        forall|b: Body| #[trigger] cap.requires((b,)),
    ensures
        rolls(*fall, *sample, *reaches, *land, *cap, terrains@, steered, ball, r),
{
    let fallen: Body = fall(ball.body, ball.driven && steered);
    let (ground, Ghost(samples)) = find_ground(sample, terrains, fallen.position);
    let (landed, on): (Body, Option<Ground>) = match ground {
        Some(g) => if reaches(fallen, g.height) {
            (land(fallen, g), Some(g))
        } else {
            (fallen, None)
        },
        None => (fallen, None),
    };
    proof {
        assert(sampled(*sample, terrains@, fallen.position, samples));
        assert(lands(*sample, *reaches, *land, terrains@, fallen, landed, on));
    }
    let body: Body = cap(landed);
    let r = Rolling { body, driven: ball.driven, ground: on };
    proof {
        assert(falls(*fall, ball, steered, fallen));
        assert(lands(*sample, *reaches, *land, terrains@, fallen, landed, r.ground));
    }
    r
}

/// Numbers in order.
pub open spec fn ascending(s: Seq<u64>) -> bool {
    forall|i: int, j: int| 0 <= i < j < s.len() ==> #[trigger] s[i] <= #[trigger] s[j]
}

/// Put one more number where it belongs.
fn insert_number(list: &mut Vec<u64>, x: u64)
    requires
        ascending(old(list)@),
    ensures
        ascending(final(list)@),
        final(list)@.to_multiset() == old(list)@.to_multiset().insert(x),
{
    let ghost before = list@;
    let mut at: usize = list.len();
    while at > 0 && list[at - 1] > x
        invariant
            at <= list@.len(),
            list@ == before,
            forall|j: int| at <= j < list@.len() ==> #[trigger] list@[j] > x,
        decreases at,
    {
        at = at - 1;
    }
    list.insert(at, x);
    proof {
        let after = list@;
        assert forall|i: int, j: int| 0 <= i < j < after.len() implies #[trigger] after[i]
            <= #[trigger] after[j] by {
            if i < at && j < at {
                assert(after[i] == before[i] && after[j] == before[j]);
            } else if i < at && j > at {
                assert(after[i] == before[i] && after[j] == before[j - 1]);
            } else if i < at {
                assert(after[i] == before[i] && before[at - 1] <= x);
                if i < at - 1 {
                    assert(before[i] <= before[at - 1]);
                }
            } else if i > at {
                assert(after[i] == before[i - 1] && after[j] == before[j - 1]);
            } else {
                assert(after[j] == before[j - 1]);
            }
        }
        let front = before.take(at as int);
        let back = before.skip(at as int);
        assert(before =~= front + back);
        assert(after =~= front.push(x) + back);
        vstd::seq_lib::lemma_multiset_commutative(front, back);
        vstd::seq_lib::lemma_multiset_commutative(front.push(x), back);
        front.to_multiset_ensures();
        assert(front.push(x).to_multiset() =~= front.to_multiset().insert(x));
        assert(after.to_multiset() =~= before.to_multiset().insert(x));
    }
}

/// The entities in order.
fn in_number_order(entities: &Vec<u64>) -> (r: Vec<u64>)
    ensures
        ascending(r@),
        r@.to_multiset() == entities@.to_multiset(),
{
    let mut out: Vec<u64> = Vec::new();
    let mut i: usize = 0;
    proof {
        assert(entities@.take(0) =~= out@);
    }
    while i < entities.len()
        invariant
            i <= entities@.len(),
            ascending(out@),
            out@.to_multiset() == entities@.take(i as int).to_multiset(),
        decreases entities@.len() - i,
    {
        insert_number(&mut out, entities[i]);
        proof {
            let before = entities@.take(i as int);
            before.to_multiset_ensures();
            assert(entities@.take(i + 1) =~= before.push(entities@[i as int]));
        }
        i = i + 1;
    }
    proof {
        assert(entities@.take(i as int) =~= entities@);
    }
    out
}

/// Whether a tick is one that anything moves in: a finite time above zero.
pub open spec fn moves(dt: F32) -> bool {
    crate::float::magnitude(dt) < crate::float::INFINITY_BITS && below(F32(0), dt)
}

/// What a tick may make of the balls of a world.
pub open spec fn integrates<
    F: Fn(Body, bool) -> Body,
    S: Fn(u64, Vec3) -> Option<Ground>,
    R: Fn(Body, F32) -> bool,
    L: Fn(Body, Ground) -> Body,
    C: Fn(Body) -> Body,
>(
    dt: F32,
    terrains: Seq<u64>,
    steered: bool,
    fall: F,
    sample: S,
    reaches: R,
    land: L,
    cap: C,
    before: Seq<Rolling>,
    after: Seq<Rolling>,
) -> bool {
    &&& after.len() == before.len()
    &&& !moves(dt) ==> after == before
    &&& moves(dt) ==> exists|order: Seq<u64>|
        {
            &&& #[trigger] ascending(order)
            &&& order.to_multiset() == terrains.to_multiset()
            &&& forall|i: int|
                0 <= i < before.len() ==> rolls(
                    fall,
                    sample,
                    reaches,
                    land,
                    cap,
                    order,
                    steered,
                    before[i],
                    #[trigger] after[i],
                )
        }
}

/// One tick of every ball.
///
/// Each ball moves on its own, so their order does not matter; the terrains are
/// asked in the order of their entities, so that of two surfaces as high the lower
/// entity's counts. `steered` is whether there is a camera to steer by. The rest is
/// arithmetic: `fall` is a step of a ball in the air, pushed or not; `sample` the
/// surface of a terrain under a point; `reaches` whether a ball touches a height;
/// `land` how it meets the ground there; and `cap` the limit of its speed.
pub fn integrate_balls<
    F: Fn(Body, bool) -> Body,
    S: Fn(u64, Vec3) -> Option<Ground>,
    R: Fn(Body, F32) -> bool,
    L: Fn(Body, Ground) -> Body,
    C: Fn(Body) -> Body,
>(
    dt: F32,
    balls: &mut Vec<Rolling>,
    terrains: &Vec<u64>,
    steered: bool,
    fall: F,
    sample: S,
    reaches: R,
    land: L,
    cap: C,
)
    requires
        forall|b: Body, d: bool| #[trigger] fall.requires((b, d)),
        forall|t: u64, p: Vec3| #[trigger] sample.requires((t, p)),
        forall|b: Body, h: F32| #[trigger] reaches.requires((b, h)),
        forall|b: Body, g: Ground| #[trigger] land.requires((b, g)),
        forall|b: Body| #[trigger] cap.requires((b,)),
    ensures
        integrates(
            dt,
            terrains@,
            steered,
            fall,
            sample,
            reaches,
            land,
            cap,
            old(balls)@,
            final(balls)@,
        ),
{
    if !dt.is_finite() || !F32(0).lt(dt) {
        return;
    }
    let ghost start = balls@;
    let order: Vec<u64> = in_number_order(terrains);
    let n: usize = balls.len();
    let mut i: usize = 0;
    while i < n
        invariant
            i <= n == balls@.len() == start.len(),
            forall|b: Body, d: bool| #[trigger] fall.requires((b, d)),
            forall|t: u64, p: Vec3| #[trigger] sample.requires((t, p)),
            forall|b: Body, h: F32| #[trigger] reaches.requires((b, h)),
            forall|b: Body, g: Ground| #[trigger] land.requires((b, g)),
            forall|b: Body| #[trigger] cap.requires((b,)),
            forall|j: int| i <= j < n ==> #[trigger] balls@[j] == start[j],
            forall|j: int|
                0 <= j < i ==> rolls(
                    fall,
                    sample,
                    reaches,
                    land,
                    cap,
                    order@,
                    steered,
                    start[j],
                    #[trigger] balls@[j],
                ),
        decreases n - i,
    {
        let after: Rolling = roll(
            &fall,
            &sample,
            &reaches,
            &land,
            &cap,
            &order,
            steered,
            balls[i],
        );
        balls.set(i, after);
        i = i + 1;
    }
    proof {
        assert(ascending(order@));
    }
}

/// A ball without ground under it is in free fall: what it comes to is what falling
/// and the cap make of it, and it is on nothing.
pub proof fn no_ground_is_free_fall<
    F: Fn(Body, bool) -> Body,
    S: Fn(u64, Vec3) -> Option<Ground>,
    R: Fn(Body, F32) -> bool,
    L: Fn(Body, Ground) -> Body,
    C: Fn(Body) -> Body,
>(
    fall: F,
    sample: S,
    reaches: R,
    land: L,
    cap: C,
    steered: bool,
    ball: Rolling,
    after: Rolling,
)
    requires
        rolls(fall, sample, reaches, land, cap, Seq::empty(), steered, ball, after),
    ensures
        after.ground is None,
        exists|fallen: Body| #[trigger]
            falls(fall, ball, steered, fallen) && cap.ensures(
                (fallen,),
                after.body,
            ),
{
    let (fallen, landed) = choose|fallen: Body, landed: Body|
        {
            &&& #[trigger] falls(fall, ball, steered, fallen)
            &&& #[trigger] lands(
                sample,
                reaches,
                land,
                Seq::empty(),
                fallen,
                landed,
                after.ground,
            )
            &&& cap.ensures((landed,), after.body)
        };
    assert(landed == fallen);
    assert(falls(fall, ball, steered, fallen));
}

} // verus!
