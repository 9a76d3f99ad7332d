//! Scenes: what a scene file says, and what a world is told to do about it.
//!
//! A [`SceneDesc`] lists generators, which say what to build, and placements,
//! which say where to put it. [`validate_scene`] refuses a description that
//! names something it does not define, before anything in the world is touched;
//! [`plan_scene`] turns one that holds together into a [`ScenePlan`], entity by
//! entity, and [`spawn_scene`] puts it into a world in place of the one there. The
//! generators' own parameters pass through untouched, as `S`.

use std::collections::HashMap;
use vstd::prelude::*;
use crate::find::{count_distinct, first_is, first_is_none, first_means, first_where, none_before};
use crate::float::{one4, same_value, zero4, F32, Vec3, Vec4, ONE_BITS};
use crate::material::{Material, MaterialVariant};
use crate::registry::MeshHandle;
use crate::text::{joined, quoted, write_decimal, write_quoted, decimal};

verus! {

broadcast use vstd::std_specs::hash::group_hash_axioms;

/// The bits of the rate at which the demo spins: 0.4 radians a second.
pub const DEMO_SPIN: u32 = 0x3ecc_cccd;

/// How a generator's detail follows the device's tier.
#[derive(Clone, Copy, Debug, PartialEq, Eq, Structural, Hash)]
pub enum QualityPolicy {
    /// The tier as it is.
    Inherit,
    /// The tier times this.
    Scaled(F32),
    /// This, whatever the tier.
    Fixed(F32),
}

impl Default for QualityPolicy {
    fn default() -> (policy: QualityPolicy)
        ensures
            policy == QualityPolicy::Inherit,
    {
        QualityPolicy::Inherit
    }
}

/// Whether `detail` is what a generator is built at, where the device's tier is `tier`.
pub open spec fn is_detail<M: Fn(F32, F32) -> F32>(
    policy: QualityPolicy,
    tier: F32,
    times: M,
    detail: F32,
) -> bool {
    &&& policy matches QualityPolicy::Inherit ==> detail == tier
    &&& policy matches QualityPolicy::Scaled(factor) ==> times.ensures((tier, factor), detail)
    &&& policy matches QualityPolicy::Fixed(q) ==> detail == q
}

impl QualityPolicy {
    /// The detail that a generator is built at, where the device's tier is
    /// `tier`. `times` multiplies.
    pub fn resolve<M: Fn(F32, F32) -> F32>(self, tier: F32, times: M) -> (detail: F32)
        requires
            forall|a: F32, b: F32| times.requires((a, b)),
        ensures
            is_detail(self, tier, times, detail),
    {
        match self {
            QualityPolicy::Inherit => tier,
            QualityPolicy::Scaled(factor) => times(tier, factor),
            QualityPolicy::Fixed(q) => q,
        }
    }
}

/// One generator invocation, under the name that placements use.
#[derive(Debug)]
pub struct GeneratorEntry<S> {
    pub name: String,
    pub spec: S,
    pub quality: QualityPolicy,
}

/// A rotation, as a scene file may write it.
#[derive(Clone, Copy, Debug, PartialEq, Eq, Structural, Hash)]
pub enum RotationDesc {
    Identity,
    /// Degrees about X, Y and Z, in that order.
    Euler(Vec3),
    Quat(Vec4),
}

/// Where a placement stands.
#[derive(Clone, Copy, Debug, PartialEq, Eq, Structural, Hash)]
pub struct TransformDesc {
    pub translation: Vec3,
    pub rotation: RotationDesc,
    pub scale: Vec3,
}

/// Where something stands in a world; the rotation is a quaternion.
#[derive(Clone, Copy, Debug, PartialEq, Eq, Structural, Hash)]
pub struct Transform {
    pub translation: Vec3,
    pub rotation: Vec4,
    pub scale: Vec3,
}

/// What a placement looks like.
#[derive(Clone, Copy, Debug, PartialEq, Eq, Structural, Hash)]
pub struct MaterialDesc {
    pub base_color: Vec4,
    pub params: Vec4,
    pub vertex_color: bool,
    pub texture: bool,
    pub ramp: bool,
    pub live_texture: bool,
}

/// A constant rotation.
#[derive(Clone, Copy, Debug, PartialEq, Eq, Structural, Hash)]
pub struct SpinDesc {
    pub axis: Vec3,
    pub rad_per_sec: F32,
}

/// One entity placement.
#[derive(Debug)]
pub struct EntityDesc {
    /// What the rest of the file calls it, if anything does.
    pub name: Option<String>,
    /// The generator that supplies its geometry.
    pub generator: String,
    pub transform: TransformDesc,
    pub material: MaterialDesc,
    pub spin: Option<SpinDesc>,
    pub interpolated: bool,
}

/// A camera that follows a placement.
#[derive(Debug)]
pub struct FollowDesc {
    pub entity: String,
    pub offset: Vec3,
    pub stiffness: F32,
}

/// The scene's camera.
#[derive(Debug)]
pub struct CameraDesc {
    pub eye: Vec3,
    pub target: Vec3,
    pub fov_y_degrees: F32,
    pub z_near: F32,
    pub z_far: F32,
    pub follow: Option<FollowDesc>,
}

/// The scene's light.
#[derive(Clone, Copy, Debug, PartialEq, Eq, Structural, Hash)]
pub struct LightingDesc {
    pub key_dir: Vec3,
    pub key_color: Vec3,
    pub sky_color: Vec3,
    pub ground_color: Vec3,
}

/// A whole scene. The order of the placements is the order they are spawned in.
#[derive(Debug)]
pub struct SceneDesc<S> {
    pub generators: Vec<GeneratorEntry<S>>,
    pub entities: Vec<EntityDesc>,
    pub camera: CameraDesc,
    pub lighting: LightingDesc,
}

/// Why a scene was not loaded or saved.
#[derive(Debug)]
pub enum SceneError {
    Parse(String),
    UnknownGenerator { entity: usize, name: String },
    UnknownFollowTarget(String),
    NoSceneLoaded,
    Serialize(String),
}

/// What a load came to.
#[derive(Clone, Copy, Debug, PartialEq, Eq, Structural, Hash)]
pub struct SceneStats {
    pub generators: usize,
    pub entities: usize,
    /// Different meshes: generators that build the same content share one.
    pub meshes: usize,
}

/// A generator that has been built: its mesh, the key of its parameters, and
/// whether it is terrain.
#[derive(Clone, Copy, Debug, PartialEq, Eq, Structural, Hash)]
pub struct Resolved {
    pub mesh: MeshHandle,
    pub param_key: u64,
    pub terrain: bool,
}

/// One entity to spawn.
#[derive(Clone, Copy, Debug, PartialEq, Eq, Structural, Hash)]
pub struct Placement {
    /// The place of its generator in the scene's list.
    pub generator: usize,
    pub mesh: MeshHandle,
    pub param_key: u64,
    pub material: Material,
    pub transform: TransformDesc,
    pub spin: Option<SpinDesc>,
    /// Whether it is drawn between ticks rather than on them.
    pub interpolated: bool,
    /// Whether it carries its height field for physics to sample.
    pub terrain: bool,
}

/// What to do to a world to load a scene into it.
#[derive(Debug)]
pub struct ScenePlan {
    pub placements: Vec<Placement>,
    /// The placement that the camera follows.
    pub follow: Option<usize>,
    /// The placement to look at: the one followed, else the first that spins.
    pub focus: Option<usize>,
    pub stats: SceneStats,
}

/// The vector with every component zero.
pub open spec fn zero3() -> Vec3 {
    Vec3 { x: F32(0), y: F32(0), z: F32(0) }
}

/// The vector with every component one.
pub open spec fn one3() -> Vec3 {
    Vec3 { x: F32(ONE_BITS), y: F32(ONE_BITS), z: F32(ONE_BITS) }
}

/// Whether a quaternion is the identity.
pub open spec fn is_identity(q: Vec4) -> bool {
    same_value(q.x, F32(0)) && same_value(q.y, F32(0)) && same_value(q.z, F32(0)) && same_value(
        q.w,
        F32(ONE_BITS),
    )
}

/// How a scene file writes where something stands: the identity by its name.
pub open spec fn described(t: Transform) -> TransformDesc {
    TransformDesc {
        translation: t.translation,
        rotation: if is_identity(t.rotation) {
            RotationDesc::Identity
        } else {
            RotationDesc::Quat(t.rotation)
        },
        scale: t.scale,
    }
}

impl TransformDesc {
    pub fn from_transform(t: &Transform) -> (r: TransformDesc)
        ensures
            r == described(*t),
    {
        let q = t.rotation;
        let identity: bool = q.x.same(F32(0)) && q.y.same(F32(0)) && q.z.same(F32(0)) && q.w.same(
            F32(ONE_BITS),
        );
        TransformDesc {
            translation: t.translation,
            rotation: if identity {
                RotationDesc::Identity
            } else {
                RotationDesc::Quat(q)
            },
            scale: t.scale,
        }
    }
}

impl Default for TransformDesc {
    fn default() -> (r: TransformDesc)
        ensures
            r == (TransformDesc {
                translation: zero3(),
                rotation: RotationDesc::Identity,
                scale: one3(),
            }),
    {
        TransformDesc {
            translation: Vec3 { x: F32(0), y: F32(0), z: F32(0) },
            rotation: RotationDesc::Identity,
            scale: Vec3 { x: F32(ONE_BITS), y: F32(ONE_BITS), z: F32(ONE_BITS) },
        }
    }
}

/// The key of a described material, as a number: vertex colours are worth one,
/// the texture two, the ramp four and the live texture eight.
pub open spec fn described_bits(d: MaterialDesc) -> u32 {
    ((if d.vertex_color {
        1int
    } else {
        0
    }) + (if d.texture {
        2int
    } else {
        0
    }) + (if d.ramp {
        4int
    } else {
        0
    }) + (if d.live_texture {
        8int
    } else {
        0
    })) as u32
}

/// The material that a description stands for.
pub open spec fn described_material(d: MaterialDesc) -> Material {
    Material {
        base_color: d.base_color,
        params: d.params,
        texture: None,
        variant: MaterialVariant(described_bits(d)),
    }
}

impl MaterialDesc {
    pub fn to_material(self) -> (r: Material)
        ensures
            r == described_material(self),
    {
        let mut bits: u32 = MaterialVariant::NONE;
        if self.vertex_color {
            assert(0u32 | 1 == 1) by (bit_vector);
            bits = bits | MaterialVariant::VERTEX_COLOR;
        }
        if self.texture {
            assert(bits | 2 == bits + 2) by (bit_vector)
                requires
                    bits < 2,
            ;
            bits = bits | MaterialVariant::TEXTURE;
        }
        if self.ramp {
            assert(bits | 4 == bits + 4) by (bit_vector)
                requires
                    bits < 4,
            ;
            bits = bits | MaterialVariant::RAMP;
        }
        if self.live_texture {
            assert(bits | 8 == bits + 8) by (bit_vector)
                requires
                    bits < 8,
            ;
            bits = bits | MaterialVariant::LIVE_TEX;
        }
        let variant = MaterialVariant::from_bits(bits);
        Material { base_color: self.base_color, params: self.params, texture: None, variant }
    }
}

impl Default for MaterialDesc {
    fn default() -> (r: MaterialDesc)
        ensures
            r == (MaterialDesc {
                base_color: one4(),
                params: zero4(),
                vertex_color: true,
                texture: false,
                ramp: false,
                live_texture: false,
            }),
    {
        MaterialDesc {
            base_color: Vec4::one(),
            params: Vec4::zero(),
            vertex_color: true,
            texture: false,
            ramp: false,
            live_texture: false,
        }
    }
}

impl Default for CameraDesc {
    /// The demo's camera: up and back from the origin, looking at it.
    fn default() -> (r: CameraDesc)
        ensures
            r.eye == (Vec3 { x: F32(0), y: F32(0x4019_999a), z: F32(0x40d0_0000) }),
            r.target == zero3(),
            r.fov_y_degrees == F32(0x4270_0000),
            r.z_near == F32(0x3dcc_cccd),
            r.z_far == F32(0x42c8_0000),
            r.follow is None,
    {
        CameraDesc {
            eye: Vec3 { x: F32(0), y: F32(0x4019_999a), z: F32(0x40d0_0000) },
            target: Vec3 { x: F32(0), y: F32(0), z: F32(0) },
            fov_y_degrees: F32(0x4270_0000),
            z_near: F32(0x3dcc_cccd),
            z_far: F32(0x42c8_0000),
            follow: None,
        }
    }
}

/// Being called `name`, of a generator.
pub open spec fn generator_called<S>(name: Seq<char>) -> spec_fn(GeneratorEntry<S>) -> bool {
    |g: GeneratorEntry<S>| g.name@ == name
}

/// Being called `name`, of a placement.
pub open spec fn entity_called(name: Seq<char>) -> spec_fn(EntityDesc) -> bool {
    |e: EntityDesc|
        match e.name {
            Some(n) => n@ == name,
            None => false,
        }
}

/// Naming a generator that is not among these.
pub open spec fn lacks_generator<S>(generators: Seq<GeneratorEntry<S>>) -> spec_fn(
    EntityDesc,
) -> bool {
    |e: EntityDesc| named_generator(generators, e.generator@) is None
}

/// Spinning.
pub open spec fn spins() -> spec_fn(EntityDesc) -> bool {
    |e: EntityDesc| e.spin is Some
}

/// The place of the first generator called `name`.
pub open spec fn named_generator<S>(generators: Seq<GeneratorEntry<S>>, name: Seq<char>) -> Option<
    int,
> {
    first_where(generators, generator_called(name))
}

/// The place of the first placement called `name`.
pub open spec fn named_entity(entities: Seq<EntityDesc>, name: Seq<char>) -> Option<int> {
    first_where(entities, entity_called(name))
}

/// The place of the first placement whose generator the scene does not define.
pub open spec fn first_unknown<S>(desc: SceneDesc<S>) -> Option<int> {
    first_where(desc.entities@, lacks_generator(desc.generators@))
}

/// Whether the camera follows a placement that the scene does not define.
pub open spec fn follows_nothing<S>(desc: SceneDesc<S>) -> bool {
    match desc.camera.follow {
        Some(follow) => named_entity(desc.entities@, follow.entity@) is None,
        None => false,
    }
}

/// Whether everything that the scene names, it defines.
pub open spec fn holds_together<S>(desc: SceneDesc<S>) -> bool {
    first_unknown(desc) is None && !follows_nothing(desc)
}

/// The error that a scene which does not hold together is refused with: the
/// first placement without a generator, else the follow target.
pub open spec fn refused_with<S>(desc: SceneDesc<S>, e: SceneError) -> bool {
    match first_unknown(desc) {
        Some(i) => {
            &&& e is UnknownGenerator
            &&& e->entity == i
            &&& e->name@ == desc.entities@[i].generator@
        },
        None => {
            &&& follows_nothing(desc)
            &&& e is UnknownFollowTarget
            &&& e->UnknownFollowTarget_0@ == desc.camera.follow->0.entity@
        },
    }
}

/// Whether a scene is let through, or refused and why.
pub open spec fn validates<S>(desc: SceneDesc<S>, r: Result<(), SceneError>) -> bool {
    &&& r is Ok <==> holds_together(desc)
    &&& match r {
        Ok(_) => true,
        Err(e) => refused_with(desc, e),
    }
}

fn find_generator<S>(generators: &Vec<GeneratorEntry<S>>, name: &String) -> (r: Option<usize>)
    ensures
        match r {
            Some(i) => named_generator(generators@, name@) == Some(i as int) && i < generators@.len(),
            None => named_generator(generators@, name@) is None,
        },
{
    let ghost p = generator_called::<S>(name@);
    let mut i: usize = 0;
    while i < generators.len()
        invariant
            i <= generators.len(),
            p == generator_called::<S>(name@),
            none_before(generators@, p, i as int),
        decreases generators.len() - i,
    {
        if generators[i].name == *name {
            proof {
                first_is(generators@, p, i as int);
            }
            return Some(i);
        }
        i = i + 1;
    }
    proof {
        first_is_none(generators@, p);
    }
    None
}

/// The first placement called `name` among the first `count`.
fn find_entity(entities: &Vec<EntityDesc>, count: usize, name: &String) -> (r: Option<usize>)
    requires
        count <= entities@.len(),
    ensures
        match r {
            Some(i) => named_entity(entities@.take(count as int), name@) == Some(i as int) && i
                < count,
            None => named_entity(entities@.take(count as int), name@) is None,
        },
{
    let ghost p = entity_called(name@);
    let ghost front = entities@.take(count as int);
    let mut i: usize = 0;
    while i < count
        invariant
            i <= count <= entities@.len(),
            front == entities@.take(count as int),
            p == entity_called(name@),
            none_before(front, p, i as int),
        decreases count - i,
    {
        let found: bool = match &entities[i].name {
            Some(n) => *n == *name,
            None => false,
        };
        proof {
            assert(front[i as int] == entities@[i as int]);
            assert(p(front[i as int]) == found);
        }
        if found {
            proof {
                first_is(front, p, i as int);
            }
            return Some(i);
        }
        i = i + 1;
    }
    proof {
        first_is_none(front, p);
    }
    None
}

/// Refuse a description that names a generator or a follow target which it does
/// not define. A placement's generator is looked at before the follow target.
pub fn validate_scene<S>(desc: &SceneDesc<S>) -> (r: Result<(), SceneError>)
    ensures
        validates(*desc, r),
{
    let ghost p = lacks_generator(desc.generators@);
    let mut i: usize = 0;
    while i < desc.entities.len()
        invariant
            i <= desc.entities.len(),
            p == lacks_generator(desc.generators@),
            none_before(desc.entities@, p, i as int),
        decreases desc.entities.len() - i,
    {
        if find_generator(&desc.generators, &desc.entities[i].generator).is_none() {
            proof {
                first_is(desc.entities@, p, i as int);
            }
            return Err(
                SceneError::UnknownGenerator {
                    entity: i,
                    name: desc.entities[i].generator.clone(),
                },
            );
        }
        i = i + 1;
    }
    proof {
        first_is_none(desc.entities@, p);
        assert(desc.entities@.take(desc.entities@.len() as int) =~= desc.entities@);
    }
    match &desc.camera.follow {
        Some(follow) => {
            if find_entity(&desc.entities, desc.entities.len(), &follow.entity).is_none() {
                return Err(SceneError::UnknownFollowTarget(follow.entity.clone()));
            }
        },
        None => {},
    }
    Ok(())
}

/// What the placement `e` becomes, its generator being the one at `g`. Something
/// that spins is always drawn between ticks.
pub open spec fn placed(e: EntityDesc, g: int, resolved: Seq<Resolved>) -> Placement {
    Placement {
        generator: g as usize,
        mesh: resolved[g].mesh,
        param_key: resolved[g].param_key,
        material: described_material(e.material),
        transform: e.transform,
        spin: e.spin,
        interpolated: e.interpolated || e.spin is Some,
        terrain: resolved[g].terrain,
    }
}

/// The handles of the generators' meshes.
pub open spec fn mesh_handles(resolved: Seq<Resolved>) -> Seq<u64> {
    resolved.map_values(|r: Resolved| r.mesh.0)
}

/// The placement to look at.
pub open spec fn focus_of<S>(desc: SceneDesc<S>) -> Option<int> {
    match desc.camera.follow {
        Some(follow) => named_entity(desc.entities@, follow.entity@),
        None => first_where(desc.entities@, spins()),
    }
}

/// The placement that the camera follows.
pub open spec fn followed<S>(desc: SceneDesc<S>) -> Option<int> {
    match desc.camera.follow {
        Some(follow) => named_entity(desc.entities@, follow.entity@),
        None => None,
    }
}

/// A place in a list, as an index into it.
pub open spec fn as_index(place: Option<int>) -> Option<usize> {
    match place {
        Some(i) => Some(i as usize),
        None => None,
    }
}

/// What loading `desc` comes to, its generators built as `resolved`.
pub open spec fn planned<S>(desc: SceneDesc<S>, resolved: Seq<Resolved>, plan: ScenePlan) -> bool {
    &&& plan.placements@.len() == desc.entities@.len()
    &&& forall|i: int|
        0 <= i < desc.entities@.len() ==> #[trigger] plan.placements@[i] == placed(
            desc.entities@[i],
            named_generator(desc.generators@, desc.entities@[i].generator@)->0,
            resolved,
        )
    &&& plan.follow == as_index(followed(desc))
    &&& plan.focus == as_index(focus_of(desc))
    &&& plan.stats.generators == desc.generators@.len()
    &&& plan.stats.entities == desc.entities@.len()
    &&& plan.stats.meshes == mesh_handles(resolved).to_set().len()
}

/// Whether planning the load of `desc` comes to `r`.
pub open spec fn plans<S>(
    desc: SceneDesc<S>,
    resolved: Seq<Resolved>,
    r: Result<ScenePlan, SceneError>,
) -> bool {
    &&& r is Ok <==> holds_together(desc)
    &&& match r {
        Ok(plan) => planned(desc, resolved, plan),
        Err(e) => refused_with(desc, e),
    }
}

fn find_spinner(entities: &Vec<EntityDesc>) -> (r: Option<usize>)
    ensures
        r == as_index(first_where(entities@, spins())),
{
    let ghost p = spins();
    let mut i: usize = 0;
    while i < entities.len()
        invariant
            i <= entities.len(),
            p == spins(),
            none_before(entities@, p, i as int),
        decreases entities.len() - i,
    {
        if entities[i].spin.is_some() {
            proof {
                first_is(entities@, p, i as int);
            }
            return Some(i);
        }
        i = i + 1;
    }
    proof {
        first_is_none(entities@, p);
    }
    None
}

/// Plan the load of a scene whose generators have been built, in their order, as
/// `resolved`. A scene that does not hold together is refused.
pub fn plan_scene<S>(desc: &SceneDesc<S>, resolved: &Vec<Resolved>) -> (r: Result<
    ScenePlan,
    SceneError,
>)
    requires
        resolved@.len() == desc.generators@.len(),
    ensures
        plans(*desc, resolved@, r),
{
    match validate_scene(desc) {
        Ok(_) => {},
        Err(e) => {
            return Err(e);
        },
    }
    let ghost unknown = lacks_generator(desc.generators@);
    proof {
        first_means(desc.entities@, unknown);
    }
    let mut placements: Vec<Placement> = Vec::new();
    let mut i: usize = 0;
    while i < desc.entities.len()
        invariant
            i <= desc.entities.len(),
            placements.len() == i,
            resolved@.len() == desc.generators@.len(),
            unknown == lacks_generator(desc.generators@),
            none_before(desc.entities@, unknown, desc.entities@.len() as int),
            forall|j: int|
                0 <= j < i ==> #[trigger] placements@[j] == placed(
                    desc.entities@[j],
                    named_generator(desc.generators@, desc.entities@[j].generator@)->0,
                    resolved@,
                ),
        decreases desc.entities.len() - i,
    {
        let e = &desc.entities[i];
        assert(!unknown(desc.entities@[i as int]));
        let g: usize = find_generator(&desc.generators, &e.generator).unwrap();
        placements.push(
            Placement {
                generator: g,
                mesh: resolved[g].mesh,
                param_key: resolved[g].param_key,
                material: e.material.to_material(),
                transform: e.transform,
                spin: e.spin,
                interpolated: e.interpolated || e.spin.is_some(),
                terrain: resolved[g].terrain,
            },
        );
        i = i + 1;
    }

    let mut handles: Vec<u64> = Vec::new();
    let mut k: usize = 0;
    while k < resolved.len()
        invariant
            k <= resolved.len(),
            handles@ == mesh_handles(resolved@.take(k as int)),
        decreases resolved.len() - k,
    {
        handles.push(resolved[k].mesh.0);
        k = k + 1;
        assert(handles@ =~= mesh_handles(resolved@.take(k as int)));
    }
    assert(resolved@.take(k as int) =~= resolved@);
    let meshes: usize = count_distinct(&handles);

    assert(desc.entities@.take(desc.entities@.len() as int) =~= desc.entities@);
    let follow: Option<usize> = match &desc.camera.follow {
        Some(follow) => find_entity(&desc.entities, desc.entities.len(), &follow.entity),
        None => None,
    };
    let focus: Option<usize> = if follow.is_some() {
        follow
    } else {
        find_spinner(&desc.entities)
    };
    let stats = SceneStats {
        generators: desc.generators.len(),
        entities: desc.entities.len(),
        meshes,
    };
    Ok(ScenePlan { placements, follow, focus, stats })
}

/// A scene that a world holds: its description, and the entities that came of
/// it, in the order of the placements.
#[derive(Debug)]
pub struct LoadedScene<S> {
    pub desc: SceneDesc<S>,
    pub spawned: Vec<u64>,
    pub camera: u64,
}

/// The entity of the first placement called `name`, where that has one.
pub open spec fn entity_of<S>(loaded: LoadedScene<S>, name: Seq<char>) -> Option<u64> {
    match named_entity(placements_with_entity(loaded), name) {
        Some(i) => Some(loaded.spawned@[i]),
        None => None,
    }
}

/// The placements that have an entity.
pub open spec fn placements_with_entity<S>(loaded: LoadedScene<S>) -> Seq<EntityDesc> {
    if loaded.desc.entities@.len() <= loaded.spawned@.len() {
        loaded.desc.entities@
    } else {
        loaded.desc.entities@.take(loaded.spawned@.len() as int)
    }
}

impl<S> LoadedScene<S> {
    /// The entity of the first placement called `name`.
    pub fn entity(&self, name: &String) -> (r: Option<u64>)
        ensures
            r == entity_of(*self, name@),
    {
        let count: usize = if self.desc.entities.len() <= self.spawned.len() {
            self.desc.entities.len()
        } else {
            self.spawned.len()
        };
        proof {
            assert(self.desc.entities@.take(self.desc.entities@.len() as int)
                =~= self.desc.entities@);
        }
        match find_entity(&self.desc.entities, count, name) {
            Some(i) => Some(self.spawned[i]),
            None => None,
        }
    }

    /// What to despawn before another scene is loaded: every placement's entity,
    /// and the camera last.
    pub fn despawn_order(&self) -> (r: Vec<u64>)
        ensures
            r@ == self.spawned@.push(self.camera),
    {
        let mut order: Vec<u64> = Vec::new();
        let mut i: usize = 0;
        while i < self.spawned.len()
            invariant
                i <= self.spawned.len(),
                order@ == self.spawned@.take(i as int),
            decreases self.spawned.len() - i,
        {
            order.push(self.spawned[i]);
            i = i + 1;
            assert(order@ =~= self.spawned@.take(i as int));
        }
        order.push(self.camera);
        assert(order@ =~= self.spawned@.push(self.camera));
        order
    }
}

/// A camera that a scene set up.
#[derive(Clone, Copy, Debug, PartialEq, Eq, Structural, Hash)]
pub struct CameraRig {
    pub eye: Vec3,
    pub target: Vec3,
    pub fov_y_degrees: F32,
    pub z_near: F32,
    pub z_far: F32,
    pub follow: Option<FollowRig>,
}

/// The entity that a camera follows, and how.
#[derive(Clone, Copy, Debug, PartialEq, Eq, Structural, Hash)]
pub struct FollowRig {
    pub target: u64,
    pub offset: Vec3,
    pub stiffness: F32,
}

/// What an entity of a world is: a scene's, or something else that a game put
/// there.
#[derive(Debug)]
pub enum Thing<G> {
    Placed(Placement),
    Camera(CameraRig),
    Other(G),
}

/// A world, as far as scenes are concerned.
#[derive(Debug)]
pub struct SceneWorld<S, G> {
    pub things: HashMap<u64, Thing<G>>,
    pub loaded: Option<LoadedScene<S>>,
    /// The entity to look at.
    pub focus: Option<u64>,
    pub lighting: Option<LightingDesc>,
}

/// The camera of a scene whose placements became the entities `ids`.
pub open spec fn rigged<S>(desc: SceneDesc<S>, ids: Seq<u64>) -> CameraRig {
    CameraRig {
        eye: desc.camera.eye,
        target: desc.camera.target,
        fov_y_degrees: desc.camera.fov_y_degrees,
        z_near: desc.camera.z_near,
        z_far: desc.camera.z_far,
        follow: match desc.camera.follow {
            Some(follow) => Some(
                FollowRig {
                    target: ids[followed(desc)->0],
                    offset: follow.offset,
                    stiffness: follow.stiffness,
                },
            ),
            None => None,
        },
    }
}

/// `things` without the first `n` of these.
pub open spec fn without<G>(things: Map<u64, Thing<G>>, ids: Seq<u64>, n: int) -> Map<
    u64,
    Thing<G>,
>
    decreases n,
{
    if n <= 0 {
        things
    } else {
        without(things, ids, n - 1).remove(ids[n - 1])
    }
}

/// The entities of a scene: its placements' and its camera.
pub open spec fn ids_of<S>(loaded: LoadedScene<S>) -> Seq<u64> {
    loaded.spawned@.push(loaded.camera)
}

/// `things` without those of the scene that is loaded.
pub open spec fn unloaded<S, G>(
    things: Map<u64, Thing<G>>,
    loaded: Option<LoadedScene<S>>,
) -> Map<u64, Thing<G>> {
    match loaded {
        Some(l) => without(things, ids_of(l), ids_of(l).len() as int),
        None => things,
    }
}

/// `things` and the first `n` placements of a scene.
pub open spec fn with_placements<S, G>(
    things: Map<u64, Thing<G>>,
    desc: SceneDesc<S>,
    resolved: Seq<Resolved>,
    ids: Seq<u64>,
    n: int,
) -> Map<u64, Thing<G>>
    decreases n,
{
    if n <= 0 {
        things
    } else {
        let e = desc.entities@[n - 1];
        let g = named_generator(desc.generators@, e.generator@)->0;
        with_placements(things, desc, resolved, ids, n - 1).insert(
            ids[n - 1],
            Thing::Placed(placed(e, g, resolved)),
        )
    }
}

/// The things of a world once a scene is loaded in place of the one there. `ids`
/// are the placements' and then the camera's.
pub open spec fn reloaded<S, G>(
    things: Map<u64, Thing<G>>,
    loaded: Option<LoadedScene<S>>,
    desc: SceneDesc<S>,
    resolved: Seq<Resolved>,
    ids: Seq<u64>,
) -> Map<u64, Thing<G>> {
    let n = desc.entities@.len() as int;
    with_placements(unloaded(things, loaded), desc, resolved, ids, n).insert(
        ids[n],
        Thing::Camera(rigged(desc, ids)),
    )
}

/// Names for new entities: each once, and none that something has.
pub open spec fn all_fresh<G>(things: Map<u64, Thing<G>>, ids: Seq<u64>) -> bool {
    &&& ids.no_duplicates()
    &&& forall|i: int| 0 <= i < ids.len() ==> !things.contains_key(#[trigger] ids[i])
}

/// Remove the entities of the scene that is loaded, and the scene.
fn despawn_previous_scene<S, G>(world: &mut SceneWorld<S, G>)
    ensures
        final(world).things@ == unloaded(old(world).things@, old(world).loaded),
        final(world).loaded is None,
        old(world).loaded is None ==> final(world).focus == old(world).focus,
        old(world).loaded is Some ==> final(world).focus is None,
        final(world).lighting == old(world).lighting,
{
    let previous = match world.loaded.take() {
        Some(l) => l,
        None => {
            return ;
        },
    };
    let order: Vec<u64> = previous.despawn_order();
    let mut i: usize = 0;
    while i < order.len()
        invariant
            i <= order.len(),
            order@ == ids_of(previous),
            world.things@ == without(old(world).things@, order@, i as int),
            world.loaded is None,
            world.lighting == old(world).lighting,
        decreases order.len() - i,
    {
        let _ = world.things.remove(&order[i]);
        i = i + 1;
    }
    world.focus = None;
}

/// Whether loading `desc` into `before` comes to `after` and `r`: a scene that does not
/// hold together changes nothing, and any other is there in place of the one before.
pub open spec fn loads<S, G>(
    before: SceneWorld<S, G>,
    desc: SceneDesc<S>,
    resolved: Seq<Resolved>,
    ids: Seq<u64>,
    after: SceneWorld<S, G>,
    r: Result<SceneStats, SceneError>,
) -> bool {
    &&& r is Ok <==> holds_together(desc)
    &&& match r {
        Err(e) => refused_with(desc, e) && after == before,
        Ok(stats) => {
            let n = desc.entities@.len() as int;
            &&& after.things@ == reloaded(before.things@, before.loaded, desc, resolved, ids)
            &&& after.loaded is Some
            &&& after.loaded->0.desc == desc
            &&& after.loaded->0.spawned@ == ids.take(n)
            &&& after.loaded->0.camera == ids[n]
            &&& after.focus == match focus_of(desc) {
                Some(i) => Some(ids[i]),
                None => None,
            }
            &&& after.lighting == Some(desc.lighting)
            &&& stats.generators == desc.generators@.len()
            &&& stats.entities == desc.entities@.len()
            &&& stats.meshes == mesh_handles(resolved).to_set().len()
        },
    }
}

/// Load a scene whose generators have been built, in their order, as `resolved`, in
/// place of any that is loaded. A scene that does not hold together is refused, and
/// the world is left as it was. `ids` names the placements' entities and then the
/// camera.
pub fn spawn_scene<S, G>(
    world: &mut SceneWorld<S, G>,
    desc: SceneDesc<S>,
    resolved: &Vec<Resolved>,
    ids: &Vec<u64>,
) -> (r: Result<SceneStats, SceneError>)
    requires
        resolved@.len() == desc.generators@.len(),
        ids@.len() == desc.entities@.len() + 1,
        all_fresh(old(world).things@, ids@),
    ensures
        loads(*old(world), desc, resolved@, ids@, *final(world), r),
{
    let plan = match plan_scene(&desc, resolved) {
        Ok(plan) => plan,
        Err(e) => {
            return Err(e);
        },
    };
    let n: usize = desc.entities.len();
    proof {
        assert(desc.generators@.len() == plan.stats.generators);
        plans_refer_inwards(desc, resolved@, plan);
        if desc.camera.follow is None {
            first_means(desc.entities@, spins());
        } else {
            first_means(desc.entities@, entity_called(desc.camera.follow->0.entity@));
        }
    }
    despawn_previous_scene(world);
    let ghost kept = world.things@;
    let mut spawned: Vec<u64> = Vec::new();
    let mut i: usize = 0;
    while i < n
        invariant
            i <= n == desc.entities@.len(),
            ids@.len() == n + 1,
            planned(desc, resolved@, plan),
            spawned@ == ids@.take(i as int),
            world.things@ == with_placements(kept, desc, resolved@, ids@, i as int),
        decreases n - i,
    {
        proof {
            assert(plan.placements@[i as int] == placed(
                desc.entities@[i as int],
                named_generator(desc.generators@, desc.entities@[i as int].generator@)->0,
                resolved@,
            ));
        }
        let _ = world.things.insert(ids[i], Thing::Placed(plan.placements[i]));
        spawned.push(ids[i]);
        i = i + 1;
        assert(spawned@ =~= ids@.take(i as int));
    }
    let follow: Option<FollowRig> = match (&desc.camera.follow, plan.follow) {
        (Some(follow), Some(at)) => Some(
            FollowRig { target: ids[at], offset: follow.offset, stiffness: follow.stiffness },
        ),
        _ => None,
    };
    let rig = CameraRig {
        eye: desc.camera.eye,
        target: desc.camera.target,
        fov_y_degrees: desc.camera.fov_y_degrees,
        z_near: desc.camera.z_near,
        z_far: desc.camera.z_far,
        follow,
    };
    let camera: u64 = ids[n];
    let _ = world.things.insert(camera, Thing::Camera(rig));
    world.focus = match plan.focus {
        Some(at) => Some(ids[at]),
        None => None,
    };
    world.lighting = Some(desc.lighting);
    world.loaded = Some(LoadedScene { desc, spawned, camera });
    Ok(plan.stats)
}

/// Whether `r` is the first placement of a terrain that is turned or scaled.
pub open spec fn finds_the_tilted<L: Fn(RotationDesc) -> bool>(
    placements: Seq<Placement>,
    level: L,
    r: Option<usize>,
) -> bool {
    match r {
        Some(i) => {
            &&& i < placements.len()
            &&& tilted(level, placements[i as int])
            &&& forall|j: int| 0 <= j < i ==> stands_level(level, #[trigger] placements[j])
        },
        None => forall|j: int|
            0 <= j < placements.len() ==> stands_level(level, #[trigger] placements[j]),
    }
}

/// The first placement of a terrain that is turned or scaled, which a height field
/// cannot be. `level` says of a rotation whether it is none.
pub fn tilted_terrain<L: Fn(RotationDesc) -> bool>(plan: &ScenePlan, level: L) -> (r: Option<usize>)
    requires
        forall|rotation: RotationDesc| #[trigger] level.requires((rotation,)),
    ensures
        finds_the_tilted(plan.placements@, level, r),
{
    let mut i: usize = 0;
    while i < plan.placements.len()
        invariant
            i <= plan.placements@.len(),
            forall|rotation: RotationDesc| #[trigger] level.requires((rotation,)),
            forall|j: int| 0 <= j < i ==> stands_level(level, #[trigger] plan.placements@[j]),
        decreases plan.placements@.len() - i,
    {
        let p: Placement = plan.placements[i];
        if p.terrain {
            let one = F32(ONE_BITS);
            let scale: Vec3 = p.transform.scale;
            if !(scale.x.same(one) && scale.y.same(one) && scale.z.same(one)) || !level(
                p.transform.rotation,
            ) {
                return Some(i);
            }
        }
        i = i + 1;
    }
    None
}

/// Whether a scale is one every way.
pub open spec fn unscaled(scale: Vec3) -> bool {
    let one = F32(ONE_BITS);
    same_value(scale.x, one) && same_value(scale.y, one) && same_value(scale.z, one)
}

/// Whether a placement is a terrain that is turned or scaled.
pub open spec fn tilted<L: Fn(RotationDesc) -> bool>(level: L, p: Placement) -> bool {
    p.terrain && (!unscaled(p.transform.scale) || level.ensures((p.transform.rotation,), false))
}

/// Whether a placement is no terrain, or is one that is only moved.
pub open spec fn stands_level<L: Fn(RotationDesc) -> bool>(level: L, p: Placement) -> bool {
    p.terrain ==> unscaled(p.transform.scale) && level.ensures((p.transform.rotation,), true)
}

proof fn without_lacks<G>(things: Map<u64, Thing<G>>, ids: Seq<u64>, n: int, id: u64)
    requires
        0 <= n <= ids.len(),
    ensures
        without(things, ids, n).contains_key(id) <==> things.contains_key(id) && !ids.take(
            n,
        ).contains(id),
        without(things, ids, n).contains_key(id) ==> without(things, ids, n)[id] == things[id],
    decreases n,
{
    if n > 0 {
        without_lacks(things, ids, n - 1, id);
        let before = ids.take(n - 1);
        let now = ids.take(n);
        assert(now[n - 1] == ids[n - 1]);
        if before.contains(id) {
            assert(now[before.index_of(id)] == id);
        }
        if now.contains(id) && id != ids[n - 1] {
            assert(before[now.index_of(id)] == id);
        }
    }
}

proof fn placements_add<S, G>(
    things: Map<u64, Thing<G>>,
    desc: SceneDesc<S>,
    resolved: Seq<Resolved>,
    ids: Seq<u64>,
    n: int,
    id: u64,
)
    requires
        0 <= n <= ids.len(),
    ensures
        ({
            let now = with_placements(things, desc, resolved, ids, n);
            &&& now.contains_key(id) <==> things.contains_key(id) || ids.take(n).contains(id)
            &&& !ids.take(n).contains(id) && things.contains_key(id) ==> now[id] == things[id]
        }),
    decreases n,
{
    if n > 0 {
        placements_add(things, desc, resolved, ids, n - 1, id);
        let before = ids.take(n - 1);
        let now = ids.take(n);
        assert(now[n - 1] == ids[n - 1]);
        if before.contains(id) {
            assert(now[before.index_of(id)] == id);
        }
        if now.contains(id) && id != ids[n - 1] {
            assert(before[now.index_of(id)] == id);
        }
    }
}

/// Loading a scene replaces the one that was loaded and does not add to it: of what
/// was there, exactly the old scene's entities are gone and everything else is as it
/// was; what is new is the new scene's.
pub proof fn loading_twice_replaces<S, G>(
    things: Map<u64, Thing<G>>,
    loaded: Option<LoadedScene<S>>,
    desc: SceneDesc<S>,
    resolved: Seq<Resolved>,
    ids: Seq<u64>,
    id: u64,
)
    requires
        ids.len() == desc.entities@.len() + 1,
        all_fresh(things, ids),
    ensures
        ({
            let after = reloaded(things, loaded, desc, resolved, ids);
            let of_old = loaded is Some && ids_of(loaded->0).contains(id);
            &&& things.contains_key(id) && of_old ==> !after.contains_key(id)
            &&& things.contains_key(id) && !of_old ==> after.contains_key(id) && after[id]
                == things[id]
            &&& !things.contains_key(id) ==> (after.contains_key(id) <==> ids.contains(id))
        }),
{
    let n = desc.entities@.len() as int;
    let kept = unloaded(things, loaded);
    if loaded is Some {
        let gone = ids_of(loaded->0);
        without_lacks(things, gone, gone.len() as int, id);
        assert(gone.take(gone.len() as int) =~= gone);
    }
    placements_add(kept, desc, resolved, ids, n, id);
    if ids.contains(id) {
        let k = ids.index_of(id);
        assert(!things.contains_key(ids[k]));
        if k < n {
            assert(ids.take(n)[k] == id);
        }
    }
    if ids.take(n).contains(id) {
        let k = ids.take(n).index_of(id);
        assert(ids[k] == id);
    }
    assert(ids[n] == ids[n]);
}

/// A world in which a scene is loaded has the entities of that scene, the placements
/// as planned and the camera.
pub proof fn what_is_loaded_is_there<S, G>(
    things: Map<u64, Thing<G>>,
    loaded: Option<LoadedScene<S>>,
    desc: SceneDesc<S>,
    resolved: Seq<Resolved>,
    ids: Seq<u64>,
    i: int,
)
    requires
        ids.len() == desc.entities@.len() + 1,
        ids.no_duplicates(),
        0 <= i < desc.entities@.len(),
    ensures
        ({
            let after = reloaded(things, loaded, desc, resolved, ids);
            let e = desc.entities@[i];
            let g = named_generator(desc.generators@, e.generator@)->0;
            &&& after.contains_key(ids[i])
            &&& after[ids[i]] == Thing::<G>::Placed(placed(e, g, resolved))
            &&& after[ids[desc.entities@.len() as int]] == Thing::<G>::Camera(rigged(desc, ids))
        }),
{
    placement_stays(unloaded(things, loaded), desc, resolved, ids, desc.entities@.len() as int, i);
}

proof fn placement_stays<S, G>(
    things: Map<u64, Thing<G>>,
    desc: SceneDesc<S>,
    resolved: Seq<Resolved>,
    ids: Seq<u64>,
    n: int,
    i: int,
)
    requires
        0 <= i < n <= desc.entities@.len() < ids.len(),
        ids.no_duplicates(),
    ensures
        ({
            let now = with_placements(things, desc, resolved, ids, n);
            let e = desc.entities@[i];
            let g = named_generator(desc.generators@, e.generator@)->0;
            now.contains_key(ids[i]) && now[ids[i]] == Thing::<G>::Placed(placed(e, g, resolved))
        }),
    decreases n,
{
    if i < n - 1 {
        placement_stays(things, desc, resolved, ids, n - 1, i);
        assert(ids[i] != ids[n - 1]);
    }
}

/// Where a placement's entity stands now, and whether that is away from where
/// its description put it.
#[derive(Clone, Copy, Debug, PartialEq, Eq, Structural, Hash)]
pub struct LiveTransform {
    pub pose: Transform,
    pub moved: bool,
}

/// How a placement is saved: rewritten where its entity has moved, and as the
/// file had it where it has not or is gone.
pub open spec fn saved_transform(
    e: EntityDesc,
    live: Seq<Option<LiveTransform>>,
    i: int,
) -> TransformDesc {
    if i < live.len() && live[i] is Some && live[i]->0.moved {
        described(live[i]->0.pose)
    } else {
        e.transform
    }
}

/// Whether saving the scene that is loaded comes to `r`.
pub open spec fn saves<S>(
    loaded: Option<SceneDesc<S>>,
    live: Seq<Option<LiveTransform>>,
    lighting: Option<LightingDesc>,
    r: Result<SceneDesc<S>, SceneError>,
) -> bool {
    match loaded {
        None => r is Err && r->Err_0 is NoSceneLoaded,
        Some(desc) => {
            &&& r is Ok
            &&& r->Ok_0.generators == desc.generators
            &&& r->Ok_0.camera == desc.camera
            &&& r->Ok_0.lighting == match lighting {
                Some(l) => l,
                None => desc.lighting,
            }
            &&& r->Ok_0.entities@.len() == desc.entities@.len()
            &&& forall|i: int|
                0 <= i < desc.entities@.len() ==> #[trigger] r->Ok_0.entities@[i] == (EntityDesc {
                    transform: saved_transform(desc.entities@[i], live, i),
                    ..desc.entities@[i]
                })
        },
    }
}

/// The scene to save: the description that was loaded, with the placements that
/// have moved and the light as they are now. `live` follows the placements.
pub fn scene_desc<S>(
    loaded: Option<SceneDesc<S>>,
    live: &Vec<Option<LiveTransform>>,
    lighting: Option<LightingDesc>,
) -> (r: Result<SceneDesc<S>, SceneError>)
    ensures
        saves(loaded, live@, lighting, r),
{
    let SceneDesc { generators, entities, camera, lighting: authored } = match loaded {
        Some(desc) => desc,
        None => {
            return Err(SceneError::NoSceneLoaded);
        },
    };
    let mut entities = entities;
    let ghost before = entities@;
    let mut i: usize = 0;
    while i < entities.len()
        invariant
            i <= entities.len(),
            entities@.len() == before.len(),
            forall|j: int|
                0 <= j < i ==> #[trigger] entities@[j] == (EntityDesc {
                    transform: saved_transform(before[j], live@, j),
                    ..before[j]
                }),
            forall|j: int| i <= j < before.len() ==> #[trigger] entities@[j] == before[j],
        decreases entities.len() - i,
    {
        if i < live.len() {
            match &live[i] {
                Some(now) => {
                    if now.moved {
                        entities[i].transform = TransformDesc::from_transform(&now.pose);
                    }
                },
                None => {},
            }
        }
        i = i + 1;
    }
    let lighting = match lighting {
        Some(l) => l,
        None => authored,
    };
    Ok(SceneDesc { generators, entities, camera, lighting })
}

impl SceneError {
    /// The error as a line for people.
    pub fn message(&self) -> (r: String)
        ensures
            r@ == match *self {
                SceneError::Parse(e) => "scene parse error: "@ + e@,
                SceneError::UnknownGenerator { entity, name } => "entity "@ + decimal(entity as nat)
                    + " references generator "@ + quoted(name@)
                    + ", which the scene does not define"@,
                SceneError::UnknownFollowTarget(name) => "camera follows entity "@ + quoted(name@)
                    + ", which the scene does not define"@,
                SceneError::NoSceneLoaded => "no scene has been loaded into this world"@,
                SceneError::Serialize(e) => "scene serialize error: "@ + e@,
            },
    {
        match self {
            SceneError::Parse(e) => joined("scene parse error: ", e.as_str()),
            SceneError::UnknownGenerator { entity, name } => {
                let mut out = "entity ".to_owned();
                out.append(write_decimal(*entity as u64).as_str());
                out.append(" references generator ");
                out.append(write_quoted(name.as_str()).as_str());
                out.append(", which the scene does not define");
                out
            },
            SceneError::UnknownFollowTarget(name) => {
                let mut out = "camera follows entity ".to_owned();
                out.append(write_quoted(name.as_str()).as_str());
                out.append(", which the scene does not define");
                out
            },
            SceneError::NoSceneLoaded => "no scene has been loaded into this world".to_owned(),
            SceneError::Serialize(e) => joined("scene serialize error: ", e.as_str()),
        }
    }
}

/// Placements of one generator share its mesh.
pub proof fn one_generator_is_one_mesh<S>(
    desc: SceneDesc<S>,
    resolved: Seq<Resolved>,
    plan: ScenePlan,
    i: int,
    j: int,
)
    requires
        planned(desc, resolved, plan),
        0 <= i < desc.entities@.len(),
        0 <= j < desc.entities@.len(),
        desc.entities@[i].generator@ == desc.entities@[j].generator@,
    ensures
        plan.placements@[i].mesh == plan.placements@[j].mesh,
        plan.placements@[i].param_key == plan.placements@[j].param_key,
{
}

/// A plan refers to nothing outside itself: every placement's generator, the
/// followed placement and the focus are there.
pub proof fn plans_refer_inwards<S>(desc: SceneDesc<S>, resolved: Seq<Resolved>, plan: ScenePlan)
    requires
        planned(desc, resolved, plan),
        holds_together(desc),
        desc.generators@.len() <= usize::MAX,
        desc.entities@.len() <= usize::MAX,
    ensures
        forall|i: int|
            0 <= i < plan.placements@.len() ==> (#[trigger] plan.placements@[i]).generator
                < desc.generators@.len(),
        desc.camera.follow is Some <==> plan.follow is Some,
        plan.follow is Some ==> plan.follow->0 < plan.placements@.len() && plan.focus
            == plan.follow,
        plan.focus is Some ==> plan.focus->0 < plan.placements@.len(),
{
    let unknown = lacks_generator(desc.generators@);
    first_means(desc.entities@, unknown);
    assert forall|i: int| 0 <= i < plan.placements@.len() implies (
    #[trigger] plan.placements@[i]).generator < desc.generators@.len() by {
        let name = desc.entities@[i].generator@;
        assert(!unknown(desc.entities@[i]));
        first_means(desc.generators@, generator_called::<S>(name));
        let g = named_generator(desc.generators@, name)->0;
        assert(0 <= g < desc.generators@.len());
        assert(plan.placements@[i] == placed(desc.entities@[i], g, resolved));
    }
    match desc.camera.follow {
        Some(follow) => {
            first_means(desc.entities@, entity_called(follow.entity@));
        },
        None => {
            first_means(desc.entities@, spins());
        },
    }
}

/// There are no more meshes than generators.
pub proof fn meshes_are_at_most_generators<S>(
    desc: SceneDesc<S>,
    resolved: Seq<Resolved>,
    plan: ScenePlan,
)
    requires
        planned(desc, resolved, plan),
        resolved.len() == desc.generators@.len(),
    ensures
        plan.stats.meshes <= plan.stats.generators,
{
    mesh_handles(resolved).lemma_cardinality_of_set();
}

/// Saving a scene in which nothing has moved gives back the placements as they
/// were loaded.
pub proof fn saving_what_stood_still<S>(
    desc: SceneDesc<S>,
    live: Seq<Option<LiveTransform>>,
    i: int,
)
    requires
        0 <= i < desc.entities@.len(),
        forall|j: int| 0 <= j < live.len() && (#[trigger] live[j]) is Some ==> !live[j]->0.moved,
    ensures
        saved_transform(desc.entities@[i], live, i) == desc.entities@[i].transform,
{
}

} // verus!
