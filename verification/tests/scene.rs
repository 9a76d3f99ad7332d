use std::collections::HashMap;

use runt_core::float::{F32, Vec3, Vec4};
use runt_core::material::MaterialVariant;
use runt_core::registry::MeshHandle;
use runt_core::scene::{
    plan_scene, scene_desc, spawn_scene, tilted_terrain, validate_scene, CameraDesc, EntityDesc, FollowDesc, GeneratorEntry, LightingDesc, LiveTransform,
    LoadedScene, MaterialDesc, QualityPolicy, Resolved, RotationDesc, SceneDesc, SceneError, SceneWorld, SpinDesc, Thing,
    Transform, TransformDesc,
    DEMO_SPIN,
};

fn f(v: f32) -> F32 {
    F32(v.to_bits())
}

fn v3(x: f32, y: f32, z: f32) -> Vec3 {
    Vec3 { x: f(x), y: f(y), z: f(z) }
}

fn generator(name: &str, spec: u32) -> GeneratorEntry<u32> {
    GeneratorEntry { name: name.to_string(), spec, quality: QualityPolicy::Inherit }
}

fn at(x: f32) -> TransformDesc {
    TransformDesc { translation: v3(x, 0.0, 0.0), rotation: RotationDesc::Identity, scale: v3(1.0, 1.0, 1.0) }
}

fn material() -> MaterialDesc {
    MaterialDesc {
        base_color: Vec4::one(),
        params: Vec4::zero(),
        vertex_color: true,
        texture: false,
        ramp: false,
        live_texture: false,
    }
}

fn entity(name: Option<&str>, generator: &str, spins: bool) -> EntityDesc {
    EntityDesc {
        name: name.map(str::to_string),
        generator: generator.to_string(),
        transform: at(1.0),
        material: material(),
        spin: if spins { Some(SpinDesc { axis: v3(0.0, 1.0, 0.0), rad_per_sec: F32(DEMO_SPIN) }) } else { None },
        interpolated: false,
    }
}

fn lighting(x: f32) -> LightingDesc {
    LightingDesc { key_dir: v3(x, 1.0, 0.0), key_color: v3(1.0, 1.0, 1.0), sky_color: v3(0.1, 0.1, 0.1), ground_color: v3(0.0, 0.0, 0.0) }
}

fn scene(entities: Vec<EntityDesc>, follow: Option<&str>) -> SceneDesc<u32> {
    SceneDesc {
        generators: vec![generator("box", 1), generator("hill", 2), generator("twin", 1)],
        entities,
        camera: CameraDesc {
            eye: v3(0.0, 5.0, 5.0),
            target: v3(0.0, 0.0, 0.0),
            fov_y_degrees: f(60.0),
            z_near: f(0.1),
            z_far: f(100.0),
            follow: follow.map(|e| FollowDesc { entity: e.to_string(), offset: v3(0.0, 2.0, 0.0), stiffness: f(4.0) }),
        },
        lighting: lighting(0.0),
    }
}

fn built() -> Vec<Resolved> {
    let mesh = |key: u64, terrain| Resolved { mesh: MeshHandle(key), param_key: key + 100, terrain };
    vec![mesh(1, false), mesh(2, true), mesh(1, false)]
}

#[test]
fn a_scene_is_planned_in_the_order_of_its_placements() {
    let desc = scene(vec![entity(None, "twin", false), entity(Some("top"), "box", true), entity(Some("floor"), "hill", false)], None);
    let plan = plan_scene(&desc, &built()).expect("holds together");
    let generators: Vec<usize> = plan.placements.iter().map(|p| p.generator).collect();
    assert_eq!(generators, [2, 0, 1]);
    assert_eq!(plan.placements[0].mesh, plan.placements[1].mesh, "the same content is one mesh");
    assert_eq!(plan.placements[2].param_key, 102);
    assert!(plan.placements[2].terrain && !plan.placements[0].terrain);
    assert_eq!(plan.placements[1].material.variant, MaterialVariant(MaterialVariant::VERTEX_COLOR));
    assert_eq!((plan.follow, plan.focus), (None, Some(1)), "the first that spins is looked at");
    assert_eq!((plan.stats.generators, plan.stats.entities, plan.stats.meshes), (3, 3, 2));
}

#[test]
fn a_followed_placement_is_looked_at() {
    let desc = scene(vec![entity(Some("top"), "box", true), entity(Some("ball"), "twin", false)], Some("ball"));
    let plan = plan_scene(&desc, &built()).expect("holds together");
    assert_eq!((plan.follow, plan.focus), (Some(1), Some(1)));
}

#[test]
fn a_scene_that_does_not_hold_together_is_refused() {
    let desc = scene(vec![entity(None, "box", false), entity(None, "cone\n", false)], Some("nobody"));
    let error = validate_scene(&desc).expect_err("no such generator");
    assert!(matches!(&error, SceneError::UnknownGenerator { entity: 1, name } if name == "cone\n"));
    assert_eq!(error.message(), "entity 1 references generator \"cone\\n\", which the scene does not define");
    assert!(plan_scene(&desc, &built()).is_err());

    let desc = scene(vec![entity(Some("ball"), "box", false)], Some("nobody"));
    let error = validate_scene(&desc).expect_err("no such target");
    assert_eq!(error.message(), "camera follows entity \"nobody\", which the scene does not define");
}

#[test]
fn errors_say_what_went_wrong() {
    assert_eq!(SceneError::Parse("1:2: eof".to_string()).message(), "scene parse error: 1:2: eof");
    assert_eq!(SceneError::Serialize("no".to_string()).message(), "scene serialize error: no");
    assert_eq!(SceneError::NoSceneLoaded.message(), "no scene has been loaded into this world");
}

#[test]
fn a_loaded_scene_finds_its_entities_and_goes_camera_last() {
    let desc = scene(vec![entity(Some("a"), "box", false), entity(Some("b"), "box", false), entity(Some("b"), "hill", false)], None);
    let loaded = LoadedScene { desc, spawned: vec![11, 12, 13], camera: 40 };
    assert_eq!(loaded.entity(&"b".to_string()), Some(12));
    assert_eq!(loaded.entity(&"c".to_string()), None);
    assert_eq!(loaded.despawn_order(), [11, 12, 13, 40]);
}

#[test]
fn a_save_rewrites_what_moved_and_nothing_else() {
    let desc = scene(vec![entity(Some("a"), "box", false), entity(Some("b"), "box", false), entity(None, "hill", false)], None);
    let pose = |x: f32, w: f32| Transform {
        translation: v3(x, 0.0, 0.0),
        rotation: Vec4 { x: f(0.0), y: f(0.0), z: f(0.0), w: f(w) },
        scale: v3(1.0, 1.0, 1.0),
    };
    let live = vec![
        Some(LiveTransform { pose: pose(9.0, 1.0), moved: true }),
        Some(LiveTransform { pose: pose(8.0, 0.5), moved: false }),
    ];
    let saved = scene_desc(Some(desc), &live, Some(lighting(3.0))).expect("loaded");
    assert_eq!(saved.entities[0].transform, at(9.0));
    assert_eq!(saved.entities[1].transform, at(1.0));
    assert_eq!(saved.entities[2].transform, at(1.0));
    assert_eq!(saved.lighting, lighting(3.0));
    assert!(matches!(scene_desc::<u32>(None, &vec![], None), Err(SceneError::NoSceneLoaded)));

    let turned = TransformDesc::from_transform(&pose(0.0, 0.5));
    assert_eq!(turned.rotation, RotationDesc::Quat(pose(0.0, 0.5).rotation));
}

#[test]
fn a_material_sets_the_flags_it_asks_for() {
    let all = MaterialDesc { texture: true, ramp: true, live_texture: true, ..material() };
    assert_eq!(all.to_material().variant.bits(), 0xf);
    assert_eq!(all.to_material().texture, None);
    assert_eq!(MaterialDesc { vertex_color: false, ..material() }.to_material().variant.bits(), 0);
    assert_eq!(DEMO_SPIN, 0.4f32.to_bits());
}

#[test]
fn a_policy_follows_scales_or_ignores_the_tier() {
    let times = |a: F32, b: F32| f(f32::from_bits(a.0) * f32::from_bits(b.0));
    assert_eq!(QualityPolicy::default(), QualityPolicy::Inherit);
    assert_eq!(QualityPolicy::Inherit.resolve(f(0.6), times), f(0.6));
    assert_eq!(QualityPolicy::Scaled(f(0.5)).resolve(f(0.6), times), f(0.3));
    assert_eq!(QualityPolicy::Fixed(f(1.0)).resolve(f(0.6), times), f(1.0));
}

#[test]
fn loading_twice_replaces_and_does_not_accumulate() {
    let mut world: SceneWorld<u32, &str> =
        SceneWorld { things: HashMap::new(), loaded: None, focus: None, lighting: None };
    world.things.insert(7, Thing::Other("score"));
    let first = scene(vec![entity(Some("ball"), "box", false), entity(None, "hill", false)], Some("ball"));
    let stats = spawn_scene(&mut world, first, &built(), &vec![10, 11, 12]).expect("holds together");
    assert_eq!((stats.entities, stats.meshes), (2, 2));
    assert_eq!(world.things.len(), 4);
    assert_eq!(world.focus, Some(10));
    assert!(matches!(&world.things[&12], Thing::Camera(rig) if rig.follow.map(|f| f.target) == Some(10)));

    let second = scene(vec![entity(None, "twin", false)], None);
    spawn_scene(&mut world, second, &built(), &vec![20, 21]).expect("holds together");
    let mut left: Vec<u64> = world.things.keys().copied().collect();
    left.sort();
    assert_eq!(left, [7, 20, 21]);
    assert!(matches!(&world.things[&7], Thing::Other("score")));
    assert!(matches!(&world.things[&20], Thing::Placed(p) if p.generator == 2));
    assert_eq!(world.focus, None);
    let loaded = world.loaded.as_ref().expect("loaded");
    assert_eq!((loaded.spawned.clone(), loaded.camera), (vec![20], 21));

    let broken = scene(vec![entity(None, "cone", false)], None);
    assert!(spawn_scene(&mut world, broken, &built(), &vec![30, 31]).is_err());
    assert_eq!(world.things.len(), 3, "a refused scene leaves the world alone");
}

#[test]
fn a_terrain_is_only_moved() {
    let level = |r: RotationDesc| r == RotationDesc::Identity;
    let mut desc = scene(vec![entity(None, "box", false), entity(None, "hill", false)], None);
    desc.entities[0].transform.rotation = RotationDesc::Euler(v3(90.0, 0.0, 0.0));
    assert_eq!(tilted_terrain(&plan_scene(&desc, &built()).expect("plan"), level), None);
    desc.entities[1].transform.scale = v3(1.0, 2.0, 1.0);
    assert_eq!(tilted_terrain(&plan_scene(&desc, &built()).expect("plan"), level), Some(1));
    desc.entities[1].transform = desc.entities[0].transform;
    assert_eq!(tilted_terrain(&plan_scene(&desc, &built()).expect("plan"), level), Some(1));
}
