use runt_core::float::{F32, Vec2, Vec3};
use runt_core::input::{Edges, Input, Key, Level};
use runt_core::physics::{
    ground_under, impact, input_direction, integrate_balls, least_axis, obstacles, resolve_overlaps, Ball, BallController,
    Body, Collider, Contact, Ground, Grounded, Impact, Rolling, Shape,
};

fn f(v: f32) -> F32 {
    F32(v.to_bits())
}

fn val(v: F32) -> f32 {
    f32::from_bits(v.0)
}

fn v3(x: f32, y: f32, z: f32) -> Vec3 {
    Vec3 { x: f(x), y: f(y), z: f(z) }
}

fn held(keys: &[Key]) -> Input {
    Input {
        keys: keys.iter().map(|k| (*k, Edges { pressed: false, released: false, held: true })).collect(),
        buttons: vec![],
        mouse_delta: Vec2 { x: f(0.0), y: f(0.0) },
        wheel: f(0.0),
        drive: Level { dir: Vec2 { x: f(0.0), y: f(0.0) }, changed: false },
        pad: vec![],
        sticks: vec![],
        triggers: vec![],
        started: vec![],
        live: vec![],
        ended: vec![],
    }
}

#[test]
fn opposite_keys_cancel() {
    assert_eq!(input_direction(&held(&[Key::W, Key::D])), (1, 1));
    assert_eq!(input_direction(&held(&[Key::Up, Key::W])), (0, 1));
    assert_eq!(input_direction(&held(&[Key::A, Key::Right, Key::S])), (0, -1));
    assert_eq!(input_direction(&held(&[])), (0, 0));
}

fn ground(height: f32) -> Ground {
    Ground { height: f(height), gradient: Vec2 { x: f(0.0), y: f(0.0) } }
}

#[test]
fn the_highest_ground_is_the_ground() {
    assert_eq!(ground_under(&vec![Some(ground(1.0)), None, Some(ground(3.0)), Some(ground(2.0))]), Some(ground(3.0)));
    assert_eq!(ground_under(&vec![None, None]), None);
}

#[test]
fn only_a_real_impact_bounces() {
    assert_eq!(impact(f(-3.0)), Impact::Reflect);
    assert_eq!(impact(f(-0.25)), Impact::Absorb);
    assert_eq!(impact(f(0.0)), Impact::Separate);
    assert_eq!(impact(f(2.0)), Impact::Separate);
}

#[test]
fn a_ball_leaves_a_box_by_the_nearest_face() {
    assert_eq!(least_axis(v3(1.0, 2.0, 3.0)), 0);
    assert_eq!(least_axis(v3(3.0, 2.0, 2.0)), 1);
    assert_eq!(least_axis(v3(3.0, 2.0, 1.0)), 2);
}

fn collider(entity: u64, center: Vec3, sphere: Option<f32>, trigger: bool) -> Collider {
    Collider { entity, center, sphere: sphere.map(f), aabb: None, trigger }
}

#[test]
fn obstacles_come_in_the_order_of_their_entities() {
    let list = obstacles(&vec![
        collider(7, v3(0.0, 0.0, 0.0), Some(1.0), false),
        collider(3, v3(1.0, 0.0, 0.0), Some(2.0), true),
        collider(5, v3(2.0, 0.0, 0.0), None, false),
    ]);
    let entities: Vec<u64> = list.iter().map(|o| o.entity).collect();
    assert_eq!(entities, [3, 7]);
    assert_eq!(list[0].shape, Shape::Sphere(f(2.0)));
}

fn body(entity: u64, position: Vec3) -> Body {
    Body { entity, radius: f(0.5), position, velocity: v3(0.0, 0.0, 0.0) }
}

/// Spheres on a line: whether two overlap along x, and by how much.
fn overlap_on_a_line(p: Vec3, radius: F32, q: Vec3, shape: Shape) -> Option<Contact> {
    let Shape::Sphere(other) = shape else {
        return None;
    };
    let d = val(p.x) - val(q.x);
    let reach = val(radius) + val(other);
    if d.abs() >= reach {
        return None;
    }
    Some(Contact { normal: v3(if d < 0.0 { -1.0 } else { 1.0 }, 0.0, 0.0), depth: f(reach - d.abs()) })
}

fn push_on_a_line(p: Vec3, v: Vec3, c: Contact) -> (Vec3, Vec3) {
    (v3(val(p.x) + val(c.normal.x) * val(c.depth), val(p.y), val(p.z)), v)
}

#[test]
fn a_solid_pushes_out_and_a_trigger_only_tells() {
    let balls = vec![body(9, v3(1.0, 0.0, 0.0)), body(2, v3(10.0, 0.0, 0.0))];
    let colliders = vec![
        collider(40, v3(10.25, 0.0, 0.0), Some(0.5), true),
        collider(30, v3(0.25, 0.0, 0.0), Some(0.5), false),
    ];
    let resolved = resolve_overlaps(&balls, &colliders, overlap_on_a_line, push_on_a_line);
    let entities: Vec<u64> = resolved.balls.iter().map(|b| b.entity).collect();
    assert_eq!(entities, [2, 9]);
    assert_eq!(resolved.balls[0].position, v3(10.0, 0.0, 0.0), "a trigger moves nothing");
    assert_eq!(resolved.balls[1].position, v3(1.25, 0.0, 0.0));
    let told: Vec<(u64, u64, bool)> = resolved.events.iter().map(|e| (e.ball, e.other, e.trigger)).collect();
    assert_eq!(told, [(2, 40, true), (9, 30, false)]);
    assert_eq!(resolved.events[1].depth, f(0.25));
}

fn rolling(entity: u64, y: f32, driven: bool) -> Rolling {
    Rolling { body: body(entity, v3(0.0, y, 0.0)), driven, ground: None }
}

fn step(b: Body, pushed: bool) -> Body {
    let x = if pushed { 1.0 } else { 0.0 };
    Body { position: v3(val(b.position.x) + x, val(b.position.y) - 1.0, 0.0), ..b }
}

fn touches(b: Body, height: F32) -> bool {
    val(b.position.y) - val(b.radius) <= val(height)
}

fn settle(b: Body, g: Ground) -> Body {
    Body { position: v3(val(b.position.x), val(g.height) + val(b.radius), 0.0), ..b }
}

fn same(b: Body) -> Body {
    b
}

#[test]
fn balls_fall_until_they_meet_the_highest_ground() {
    let mut balls = vec![rolling(1, 10.0, false), rolling(2, 3.0, true)];
    let heights = |t: u64, _: Vec3| Some(ground(t as f32));
    integrate_balls(f(0.5), &mut balls, &vec![2, 1], true, step, heights, touches, settle, same);
    assert_eq!(balls[0].body.position, v3(0.0, 9.0, 0.0));
    assert_eq!(balls[0].ground, None);
    assert_eq!(balls[1].body.position, v3(1.0, 2.5, 0.0));
    assert_eq!(balls[1].ground, Some(ground(2.0)));
}

#[test]
fn without_a_camera_nobody_is_driven_and_without_time_nothing_moves() {
    let none = |_: u64, _: Vec3| None;
    let mut balls = vec![rolling(1, 10.0, true)];
    integrate_balls(f(0.5), &mut balls, &vec![1], false, step, none, touches, settle, same);
    assert_eq!(balls[0].body.position, v3(0.0, 9.0, 0.0));
    for dt in [0.0, -1.0, f32::NAN, f32::INFINITY] {
        let before = balls.clone();
        integrate_balls(f(dt), &mut balls, &vec![1], true, step, none, touches, settle, same);
        assert_eq!(balls, before);
    }
}

#[test]
fn a_plain_ball_is_the_ball_that_was_tuned() {
    let ball = Ball::default();
    assert_eq!(
        [ball.radius, ball.gravity, ball.rolling_friction, ball.air_damping, ball.restitution, ball.max_speed].map(val),
        [0.5, 20.0, 1.2, 0.1, 0.35, 25.0]
    );
    assert_eq!(Ball::with_radius(f(2.0)), Ball { radius: f(2.0), ..ball });
    assert_eq!(val(BallController::default().accel), 22.0);
    assert_eq!(Grounded::default(), Grounded { grounded: false, normal: v3(0.0, 1.0, 0.0) });
}
