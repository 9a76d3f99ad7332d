//! What loading and saving a scene come to, said of the scene file itself: each
//! placement stands where the file has it, with the mesh that its generator built; the
//! camera and the light are the file's; and what is saved is what was loaded, with what
//! has moved since.

use vstd::prelude::*;
use crate::find::{first_means, first_where};
use crate::float::{F32, ONE_BITS, rank, same_value};
use crate::scene::{
    EntityDesc, GeneratorEntry, LightingDesc, LiveTransform, LoadedScene, MaterialDesc, Placement,
    QualityPolicy, Resolved, RotationDesc, SceneDesc, SceneError, ScenePlan, SceneStats,
    SceneWorld, Thing, Transform, all_fresh, described, described_bits, entity_called, entity_of,
    finds_the_tilted, first_unknown, focus_of, followed, generator_called, holds_together, ids_of,
    is_detail, lacks_generator, loading_twice_replaces, loads, mesh_handles, named_generator,
    placed, placements_with_entity, plans, refused_with, saves, spins, validates,
    what_is_loaded_is_there,
};
use crate::registry::MeshHandle;

verus! {

/// The flags of a described material are the described ones, each its own bit, and no
/// others.
pub proof fn a_described_material_has_its_flags(d: MaterialDesc)
    ensures
        ({
            let bits = described_bits(d);
            &&& d.vertex_color <==> bits & 0x1 != 0
            &&& d.texture <==> bits & 0x2 != 0
            &&& d.ramp <==> bits & 0x4 != 0
            &&& d.live_texture <==> bits & 0x8 != 0
            &&& bits < 16
        }),
{
    let bits = described_bits(d);
    let (a, b, c, e): (u32, u32, u32, u32) = (
        if d.vertex_color { 1 } else { 0 },
        if d.texture { 2 } else { 0 },
        if d.ramp { 4 } else { 0 },
        if d.live_texture { 8 } else { 0 },
    );
    assert(bits == a + b + c + e);
    assert((bits & 0x1 != 0 <==> a == 1) && (bits & 0x2 != 0 <==> b == 2) && (bits & 0x4 != 0 <==> c
        == 4) && (bits & 0x8 != 0 <==> e == 8) && bits < 16) by (bit_vector)
        requires
            a == 0 || a == 1,
            b == 0 || b == 2,
            c == 0 || c == 4,
            e == 0 || e == 8,
            bits == a + b + c + e,
    ;
}

/// Whether a placement is what a scene's entity says: it stands, turns and is drawn as
/// the file has it, with the mesh of the first generator that goes by the name.
pub open spec fn stands_as_said<S>(
    e: EntityDesc,
    generators: Seq<GeneratorEntry<S>>,
    resolved: Seq<Resolved>,
    p: Placement,
) -> bool {
    &&& p.transform.translation == e.transform.translation
    &&& p.transform.rotation == e.transform.rotation
    &&& p.transform.scale == e.transform.scale
    &&& p.spin == e.spin
    &&& p.interpolated == (e.interpolated || e.spin is Some)
    &&& p.material.base_color == e.material.base_color
    &&& p.material.params == e.material.params
    &&& p.material.texture is None
    &&& e.material.vertex_color <==> p.material.variant.0 & 0x1 != 0
    &&& e.material.texture <==> p.material.variant.0 & 0x2 != 0
    &&& e.material.ramp <==> p.material.variant.0 & 0x4 != 0
    &&& e.material.live_texture <==> p.material.variant.0 & 0x8 != 0
    &&& p.material.variant.0 < 16
    &&& p.generator < generators.len()
    &&& generators[p.generator as int].name@ == e.generator@
    &&& forall|h: int|
        0 <= h < p.generator ==> (#[trigger] generators[h]).name@ != e.generator@
    &&& p.mesh == resolved[p.generator as int].mesh
    &&& p.param_key == resolved[p.generator as int].param_key
    &&& p.terrain == resolved[p.generator as int].terrain
}

proof fn placed_stands<S>(desc: SceneDesc<S>, resolved: Seq<Resolved>, i: int)
    requires
        holds_together(desc),
        0 <= i < desc.entities@.len(),
        desc.generators@.len() <= usize::MAX,
    ensures
        stands_as_said(
            desc.entities@[i],
            desc.generators@,
            resolved,
            placed(
                desc.entities@[i],
                named_generator(desc.generators@, desc.entities@[i].generator@)->0,
                resolved,
            ),
        ),
{
    let e = desc.entities@[i];
    let unknown = lacks_generator(desc.generators@);
    first_means(desc.entities@, unknown);
    assert(!unknown(desc.entities@[i]));
    let called = generator_called::<S>(e.generator@);
    first_means(desc.generators@, called);
    a_described_material_has_its_flags(e.material);
    let g = named_generator(desc.generators@, e.generator@)->0;
    let p = placed(e, g, resolved);
    assert(p.generator == g);
    assert forall|h: int| 0 <= h < p.generator implies (#[trigger] desc.generators@[h]).name@
        != e.generator@ by {
        assert(!called(desc.generators@[h]));
    }
}

/// A plan has one placement for every entity of the scene, in its order, and each is what
/// the entity says; the camera follows the first entity that goes by the name it gives,
/// which is then the one to look at, else the first that spins; and the meshes are
/// counted once each.
pub proof fn a_plan_is_what_the_scene_says<S>(
    desc: SceneDesc<S>,
    resolved: Seq<Resolved>,
    r: Result<ScenePlan, SceneError>,
)
    requires
        plans(desc, resolved, r),
        r is Ok,
        desc.generators@.len() <= usize::MAX,
        desc.entities@.len() <= usize::MAX,
    ensures
        ({
            let plan = r->Ok_0;
            let entities = desc.entities@;
            &&& plan.placements@.len() == entities.len()
            &&& forall|i: int|
                0 <= i < entities.len() ==> stands_as_said(
                    entities[i],
                    desc.generators@,
                    resolved,
                    #[trigger] plan.placements@[i],
                )
            &&& match desc.camera.follow {
                Some(follow) => {
                    &&& plan.follow matches Some(k) && k < entities.len()
                    &&& entities[plan.follow->0 as int].name matches Some(n) && n@
                        == follow.entity@
                    &&& forall|j: int|
                        0 <= j < plan.follow->0 ==> ((#[trigger] entities[j]).name matches Some(n)
                            ==> n@ != follow.entity@)
                    &&& plan.focus == plan.follow
                },
                None => {
                    &&& plan.follow is None
                    &&& match plan.focus {
                        Some(k) => k < entities.len() && entities[k as int].spin is Some
                            && forall|j: int|
                            0 <= j < k ==> (#[trigger] entities[j]).spin is None,
                        None => forall|j: int|
                            0 <= j < entities.len() ==> (#[trigger] entities[j]).spin is None,
                    }
                },
            }
            &&& plan.stats.generators == desc.generators@.len()
            &&& plan.stats.entities == entities.len()
            &&& plan.stats.meshes == resolved.map_values(|b: Resolved| b.mesh).to_set().len()
        }),
{
    let plan = r->Ok_0;
    let entities = desc.entities@;
    assert forall|i: int| 0 <= i < entities.len() implies stands_as_said(
        entities[i],
        desc.generators@,
        resolved,
        #[trigger] plan.placements@[i],
    ) by {
        placed_stands(desc, resolved, i);
    }
    looks_where_said(desc);
    meshes_are_counted_once(resolved);
}

/// Where the camera follows an entity it is the first that goes by the name, and it is
/// the one to look at; else that is the first that spins.
proof fn looks_where_said<S>(desc: SceneDesc<S>)
    requires
        holds_together(desc),
    ensures
        ({
            let entities = desc.entities@;
            match desc.camera.follow {
                Some(follow) => {
                    &&& followed(desc) matches Some(k) && 0 <= k < entities.len()
                    &&& entities[followed(desc)->0].name matches Some(n) && n@ == follow.entity@
                    &&& forall|j: int|
                        0 <= j < followed(desc)->0 ==> ((#[trigger] entities[j]).name matches Some(
                            n,
                        ) ==> n@ != follow.entity@)
                    &&& focus_of(desc) == followed(desc)
                },
                None => {
                    &&& followed(desc) is None
                    &&& match focus_of(desc) {
                        Some(k) => 0 <= k < entities.len() && entities[k].spin is Some && forall|
                            j: int,
                        |
                            0 <= j < k ==> (#[trigger] entities[j]).spin is None,
                        None => forall|j: int|
                            0 <= j < entities.len() ==> (#[trigger] entities[j]).spin is None,
                    }
                },
            }
        }),
{
    let entities = desc.entities@;
    match desc.camera.follow {
        Some(follow) => {
            let called = entity_called(follow.entity@);
            first_means(entities, called);
            assert forall|j: int| 0 <= j < followed(desc)->0 implies ((
            #[trigger] entities[j]).name matches Some(n) ==> n@ != follow.entity@) by {
                assert(!called(entities[j]));
            }
        },
        None => {
            let p = spins();
            first_means(entities, p);
            let end = match focus_of(desc) {
                Some(k) => k,
                None => entities.len() as int,
            };
            assert forall|j: int| 0 <= j < end implies (#[trigger] entities[j]).spin is None by {
                assert(!p(entities[j]));
            }
        },
    }
}

proof fn meshes_are_counted_once(resolved: Seq<Resolved>)
    ensures
        mesh_handles(resolved).to_set().len() == resolved.map_values(
            |b: Resolved| b.mesh,
        ).to_set().len(),
{
    let handles = mesh_handles(resolved);
    let meshes = resolved.map_values(|b: Resolved| b.mesh);
    let bare = |h: MeshHandle| h.0;
    assert(meshes.to_set().map(bare) =~= handles.to_set()) by {
        assert forall|x: u64| #[trigger] handles.to_set().contains(x) implies meshes.to_set().map(
            bare,
        ).contains(x) by {
            let i = handles.index_of(x);
            assert(meshes[i] == resolved[i].mesh);
            assert(meshes.to_set().contains(meshes[i]) && bare(meshes[i]) == x);
        }
        assert forall|x: u64| #[trigger] meshes.to_set().map(bare).contains(x) implies handles
            .to_set().contains(x) by {
            let h = choose|h: MeshHandle|
                meshes.to_set().contains(h) && x == bare(h);
            let i = meshes.index_of(h);
            assert(handles[i] == resolved[i].mesh.0);
        }
    }
    vstd::seq_lib::seq_to_set_is_finite(meshes);
    assert(vstd::relations::injective(bare));
    vstd::set_lib::lemma_map_size(meshes.to_set(), handles.to_set(), bare);
}

/// Whether a scene defines everything that it names.
pub open spec fn defines_what_it_names<S>(desc: SceneDesc<S>) -> bool {
    &&& forall|i: int|
        0 <= i < desc.entities@.len() ==> exists|g: int|
            0 <= g < desc.generators@.len() && (#[trigger] desc.generators@[g]).name@ == (
            #[trigger] desc.entities@[i]).generator@
    &&& desc.camera.follow matches Some(follow) ==> exists|j: int|
        0 <= j < desc.entities@.len() && ((#[trigger] desc.entities@[j]).name matches Some(n) && n@
            == follow.entity@)
}

proof fn it_holds_together_where_all_is_defined<S>(desc: SceneDesc<S>)
    ensures
        holds_together(desc) <==> defines_what_it_names(desc),
{
    let unknown = lacks_generator(desc.generators@);
    first_means(desc.entities@, unknown);
    assert forall|i: int| 0 <= i < desc.entities@.len() implies (#[trigger] unknown(
        desc.entities@[i],
    ) <==> forall|g: int|
        0 <= g < desc.generators@.len() ==> (#[trigger] desc.generators@[g]).name@
            != desc.entities@[i].generator@) by {
        let called = generator_called::<S>(desc.entities@[i].generator@);
        first_means(desc.generators@, called);
        assert forall|g: int| 0 <= g < desc.generators@.len() implies called(
            #[trigger] desc.generators@[g],
        ) == (desc.generators@[g].name@ == desc.entities@[i].generator@) by {}
        if unknown(desc.entities@[i]) {
            assert forall|g: int| 0 <= g < desc.generators@.len() implies (
            #[trigger] desc.generators@[g]).name@ != desc.entities@[i].generator@ by {
                assert(!called(desc.generators@[g]));
            }
        }
    }
    if desc.camera.follow is Some {
        let name = desc.camera.follow->0.entity@;
        let called = entity_called(name);
        first_means(desc.entities@, called);
        assert forall|j: int| 0 <= j < desc.entities@.len() implies called(
            #[trigger] desc.entities@[j],
        ) == (desc.entities@[j].name matches Some(n) && n@ == name) by {}
    }
    if holds_together(desc) {
        assert forall|i: int| 0 <= i < desc.entities@.len() implies exists|g: int|
            0 <= g < desc.generators@.len() && (#[trigger] desc.generators@[g]).name@ == (
            #[trigger] desc.entities@[i]).generator@ by {
            assert(!unknown(desc.entities@[i]));
        }
    }
    if defines_what_it_names(desc) {
        match first_unknown(desc) {
            Some(i) => {
                assert(unknown(desc.entities@[i]));
                assert(desc.entities@[i] == desc.entities@[i]);
            },
            None => {},
        }
    }
}

/// A scene is let through exactly where it defines everything that it names. It is
/// refused for the first entity whose generator it does not define, and for the entity
/// that the camera follows only where every generator is defined.
pub proof fn a_scene_is_refused_for_what_it_lacks<S>(desc: SceneDesc<S>, r: Result<(), SceneError>)
    requires
        validates(desc, r),
    ensures
        r is Ok <==> defines_what_it_names(desc),
        r matches Err(e) ==> lacks(desc, e),
{
    it_holds_together_where_all_is_defined(desc);
    match r {
        Ok(_) => {},
        Err(e) => {
            refused_is_lacking(desc, e);
        },
    }
}

/// Whether an error names what a scene lacks, and nothing before it.
pub open spec fn lacks<S>(desc: SceneDesc<S>, e: SceneError) -> bool {
    match e {
        SceneError::UnknownGenerator { entity, name } => {
            &&& entity < desc.entities@.len()
            &&& name@ == desc.entities@[entity as int].generator@
            &&& forall|g: int|
                0 <= g < desc.generators@.len() ==> (#[trigger] desc.generators@[g]).name@ != name@
            &&& forall|i: int|
                0 <= i < entity ==> exists|g: int|
                    0 <= g < desc.generators@.len() && (#[trigger] desc.generators@[g]).name@ == (
                    #[trigger] desc.entities@[i]).generator@
        },
        SceneError::UnknownFollowTarget(name) => {
            &&& desc.camera.follow matches Some(follow) && follow.entity@ == name@
            &&& forall|j: int|
                0 <= j < desc.entities@.len() ==> ((#[trigger] desc.entities@[j]).name matches Some(
                    n,
                ) ==> n@ != name@)
            &&& forall|i: int|
                0 <= i < desc.entities@.len() ==> exists|g: int|
                    0 <= g < desc.generators@.len() && (#[trigger] desc.generators@[g]).name@ == (
                    #[trigger] desc.entities@[i]).generator@
        },
        _ => false,
    }
}

proof fn refused_is_lacking<S>(desc: SceneDesc<S>, e: SceneError)
    requires
        refused_with(desc, e),
    ensures
        lacks(desc, e),
{
    let unknown = lacks_generator(desc.generators@);
    first_means(desc.entities@, unknown);
    let end = match first_unknown(desc) {
        Some(i) => i,
        None => desc.entities@.len() as int,
    };
    assert forall|i: int| 0 <= i < end implies exists|g: int|
        0 <= g < desc.generators@.len() && (#[trigger] desc.generators@[g]).name@ == (
        #[trigger] desc.entities@[i]).generator@ by {
        assert(!unknown(desc.entities@[i]));
        first_means(desc.generators@, generator_called::<S>(desc.entities@[i].generator@));
    }
    match first_unknown(desc) {
        Some(k) => {
            let name = desc.entities@[k].generator@;
            let called = generator_called::<S>(name);
            first_means(desc.generators@, called);
            assert forall|g: int| 0 <= g < desc.generators@.len() implies (
            #[trigger] desc.generators@[g]).name@ != name by {
                assert(!called(desc.generators@[g]));
            }
        },
        None => {
            let name = desc.camera.follow->0.entity@;
            let called = entity_called(name);
            first_means(desc.entities@, called);
            assert forall|j: int| 0 <= j < desc.entities@.len() implies ((
            #[trigger] desc.entities@[j]).name matches Some(n) ==> n@ != name) by {
                assert(!called(desc.entities@[j]));
            }
        },
    }
}

/// A plan is made exactly where a scene defines everything that it names, and a world is
/// changed exactly there; else the error says what is lacking and the world is as it was.
pub proof fn a_scene_that_lacks_something_changes_nothing<S, G>(
    before: SceneWorld<S, G>,
    desc: SceneDesc<S>,
    resolved: Seq<Resolved>,
    ids: Seq<u64>,
    plan: Result<ScenePlan, SceneError>,
    after: SceneWorld<S, G>,
    r: Result<SceneStats, SceneError>,
)
    requires
        plans(desc, resolved, plan),
        loads(before, desc, resolved, ids, after, r),
    ensures
        plan is Ok <==> defines_what_it_names(desc),
        plan matches Err(e) ==> lacks(desc, e),
        r is Ok <==> defines_what_it_names(desc),
        r matches Err(e) ==> lacks(desc, e) && after == before,
{
    it_holds_together_where_all_is_defined(desc);
    if plan is Err {
        refused_is_lacking(desc, plan->Err_0);
    }
    if r is Err {
        refused_is_lacking(desc, r->Err_0);
    }
}

/// A world that a scene was loaded into has each of its entities under its own name, as
/// the file has it; the file's camera, following the entity that goes by the name; the
/// file's light; and the entity to look at. The scene before is gone, and whatever else
/// was there is as it was.
pub proof fn a_world_has_the_scene_that_was_loaded<S, G>(
    before: SceneWorld<S, G>,
    desc: SceneDesc<S>,
    resolved: Seq<Resolved>,
    ids: Seq<u64>,
    after: SceneWorld<S, G>,
    r: Result<SceneStats, SceneError>,
)
    requires
        loads(before, desc, resolved, ids, after, r),
        r is Ok,
        ids.len() == desc.entities@.len() + 1,
        all_fresh(before.things@, ids),
        desc.generators@.len() <= usize::MAX,
    ensures
        ({
            let n = desc.entities@.len() as int;
            &&& forall|i: int|
                0 <= i < n ==> {
                    &&& after.things@.contains_key(#[trigger] ids[i])
                    &&& after.things@[ids[i]] matches Thing::Placed(p) && stands_as_said(
                        desc.entities@[i],
                        desc.generators@,
                        resolved,
                        p,
                    )
                }
            &&& after.things@.contains_key(ids[n])
            &&& after.things@[ids[n]] matches Thing::Camera(c) && {
                &&& c.eye == desc.camera.eye
                &&& c.target == desc.camera.target
                &&& c.fov_y_degrees == desc.camera.fov_y_degrees
                &&& c.z_near == desc.camera.z_near
                &&& c.z_far == desc.camera.z_far
                &&& match desc.camera.follow {
                    Some(follow) => {
                        &&& c.follow is Some
                        &&& c.follow->0.offset == follow.offset
                        &&& c.follow->0.stiffness == follow.stiffness
                        &&& after.focus == Some(c.follow->0.target)
                        &&& exists|k: int|
                            0 <= k < n && ids[k] == c.follow->0.target && (
                            #[trigger] desc.entities@[k]).name is Some && (
                            desc.entities@[k].name->0)@ == follow.entity@ && forall|j: int|
                                0 <= j < k ==> ((#[trigger] desc.entities@[j]).name matches Some(m)
                                    ==> m@ != follow.entity@)
                    },
                    None => {
                        &&& c.follow is None
                        &&& match after.focus {
                            Some(id) => exists|k: int|
                                0 <= k < n && ids[k] == id && (
                                #[trigger] desc.entities@[k]).spin is Some && forall|j: int|
                                    0 <= j < k ==> (#[trigger] desc.entities@[j]).spin is None,
                            None => forall|j: int|
                                0 <= j < n ==> (#[trigger] desc.entities@[j]).spin is None,
                        }
                    },
                }
            }
            &&& after.lighting == Some(desc.lighting)
            &&& r->Ok_0.generators == desc.generators@.len()
            &&& r->Ok_0.entities == n
            &&& r->Ok_0.meshes == resolved.map_values(|b: Resolved| b.mesh).to_set().len()
            &&& after.loaded matches Some(l) && l.desc == desc && l.spawned@ == ids.take(n)
                && l.camera == ids[n]
            &&& forall|id: u64|
                !ids.contains(id) ==> (#[trigger] after.things@.contains_key(id) <==> {
                    &&& before.things@.contains_key(id)
                    &&& before.loaded matches Some(l) ==> !l.spawned@.contains(id) && l.camera != id
                })
            &&& forall|id: u64|
                !ids.contains(id) && #[trigger] after.things@.contains_key(id)
                    ==> after.things@[id] == before.things@[id]
        }),
{
    let n = desc.entities@.len() as int;
    assert forall|i: int| 0 <= i < n implies {
        &&& after.things@.contains_key(#[trigger] ids[i])
        &&& after.things@[ids[i]] matches Thing::Placed(p) && stands_as_said(
            desc.entities@[i],
            desc.generators@,
            resolved,
            p,
        )
    } by {
        placed_stands(desc, resolved, i);
        what_is_loaded_is_there(before.things@, before.loaded, desc, resolved, ids, i);
    }
    looks_where_said(desc);
    meshes_are_counted_once(resolved);
    assert forall|id: u64| !ids.contains(id) implies (#[trigger] after.things@.contains_key(id) <==> {
        &&& before.things@.contains_key(id)
        &&& before.loaded matches Some(l) ==> !l.spawned@.contains(id) && l.camera != id
    }) && (after.things@.contains_key(id) ==> after.things@[id] == before.things@[id]) by {
        loading_twice_replaces(before.things@, before.loaded, desc, resolved, ids, id);
        if before.loaded is Some {
            of_a_scene(before.loaded->0, id);
        }
    }
    if desc.camera.follow is Some {
        let k = followed(desc)->0;
        assert(desc.entities@[k].name is Some);
    }
}

proof fn of_a_scene<S>(loaded: LoadedScene<S>, id: u64)
    ensures
        ids_of(loaded).contains(id) <==> loaded.spawned@.contains(id) || loaded.camera
            == id,
{
    let ids = ids_of(loaded);
    let n = loaded.spawned@.len() as int;
    if ids.contains(id) {
        let k = ids.index_of(id);
        if k < n {
            assert(loaded.spawned@[k] == id);
        }
    }
    if loaded.spawned@.contains(id) {
        let k = loaded.spawned@.index_of(id);
        assert(ids[k] == id);
    }
    assert(ids[n] == loaded.camera);
}

/// What is saved is the scene that was loaded, entity by entity: one that has moved is
/// written where it stands, turned and scaled as it is, and any other as it was read; the
/// light is the one there is.
pub proof fn what_is_saved_is_what_is_there<S>(
    loaded: Option<SceneDesc<S>>,
    live: Seq<Option<LiveTransform>>,
    lighting: Option<LightingDesc>,
    r: Result<SceneDesc<S>, SceneError>,
)
    requires
        saves(loaded, live, lighting, r),
    ensures
        r is Ok <==> loaded is Some,
        r matches Err(e) ==> e is NoSceneLoaded,
        r matches Ok(saved) ==> {
            let desc = loaded->0;
            &&& saved.generators == desc.generators
            &&& saved.camera == desc.camera
            &&& lighting is Some ==> saved.lighting == lighting->0
            &&& lighting is None ==> saved.lighting == desc.lighting
            &&& saved.entities@.len() == desc.entities@.len()
            &&& forall|i: int|
                0 <= i < desc.entities@.len() ==> {
                    let now = #[trigger] saved.entities@[i];
                    let was = desc.entities@[i];
                    &&& now.name == was.name
                    &&& now.generator == was.generator
                    &&& now.material == was.material
                    &&& now.spin == was.spin
                    &&& now.interpolated == was.interpolated
                    &&& if i < live.len() && live[i] is Some && live[i]->0.moved {
                        let pose = live[i]->0.pose;
                        &&& now.transform.translation == pose.translation
                        &&& now.transform.scale == pose.scale
                        &&& match now.transform.rotation {
                            RotationDesc::Identity => {
                                &&& rank(pose.rotation.x) == 0
                                &&& rank(pose.rotation.y) == 0
                                &&& rank(pose.rotation.z) == 0
                                &&& pose.rotation.w == F32(ONE_BITS)
                            },
                            RotationDesc::Quat(q) => q == pose.rotation && !(q.x == F32(0) && q.y
                                == F32(0) && q.z == F32(0) && q.w == F32(ONE_BITS)),
                            RotationDesc::Euler(_) => false,
                        }
                    } else {
                        now.transform == was.transform
                    }
                }
        },
{
}

/// Whether a placement is called `name`.
pub open spec fn goes_by(e: EntityDesc, name: Seq<char>) -> bool {
    e.name is Some && e.name->0@ == name
}

/// A loaded scene knows its entities by the names of their placements: the first placement
/// that is called so, where it has an entity, and otherwise nothing.
pub proof fn an_entity_goes_by_its_placements_name<S>(
    loaded: LoadedScene<S>,
    name: Seq<char>,
    i: int,
)
    ensures
        0 <= i < loaded.desc.entities@.len() && i < loaded.spawned@.len() && goes_by(
            loaded.desc.entities@[i],
            name,
        ) && (forall|j: int|
            0 <= j < i ==> !goes_by(#[trigger] loaded.desc.entities@[j], name)) ==> entity_of(
            loaded,
            name,
        ) == Some(loaded.spawned@[i]),
        (forall|j: int|
            0 <= j < loaded.desc.entities@.len() && j < loaded.spawned@.len() ==> !goes_by(
                #[trigger] loaded.desc.entities@[j],
                name,
            )) ==> entity_of(loaded, name) is None,
{
    let with = placements_with_entity(loaded);
    let p = entity_called(name);
    first_means(with, p);
    match first_where(with, p) {
        Some(k) => {
            assert(p(with[k]));
            assert(goes_by(loaded.desc.entities@[k], name));
            if 0 <= i < with.len() && goes_by(loaded.desc.entities@[i], name) && i < k {
                assert(!p(with[i]));
            }
        },
        None => {
            if 0 <= i < with.len() {
                assert(!p(with[i]));
            }
        },
    }
}

/// A generator is built at the device's tier, at so much of it, or at what was fixed.
pub proof fn a_policy_says_how_fine<M: Fn(F32, F32) -> F32>(
    policy: QualityPolicy,
    tier: F32,
    times: M,
    detail: F32,
)
    requires
        is_detail(policy, tier, times, detail),
    ensures
        policy is Inherit ==> detail == tier,
        policy is Scaled ==> times.ensures((tier, policy->Scaled_0), detail),
        policy is Fixed ==> detail == policy->Fixed_0,
{
}

/// A terrain that is turned or scaled is found, the first of them; where none is found,
/// every terrain stands level and has the size it was made with.
pub proof fn a_tilted_terrain_is_found<L: Fn(RotationDesc) -> bool>(
    placements: Seq<Placement>,
    level: L,
    r: Option<usize>,
    j: int,
)
    requires
        finds_the_tilted(placements, level, r),
        0 <= j < placements.len(),
        placements[j].terrain,
    ensures
        ({
            let p = placements[j];
            let one = F32(0x3f80_0000);
            let scale = p.transform.scale;
            let plain = same_value(scale.x, one) && same_value(scale.y, one) && same_value(
                scale.z,
                one,
            );
            &&& r is None || j < r->0 ==> plain && level.ensures((p.transform.rotation,), true)
            &&& r is Some && j == r->0 ==> !plain || level.ensures((p.transform.rotation,), false)
        }),
        r is Some ==> r->0 < placements.len() && placements[r->0 as int].terrain,
{
}

/// What stands somewhere is written down as it stands, and no turn by its name.
pub proof fn what_stands_is_written_as_it_stands(t: Transform)
    ensures
        ({
            let d = described(t);
            let none = same_value(t.rotation.x, F32(0)) && same_value(t.rotation.y, F32(0))
                && same_value(t.rotation.z, F32(0)) && same_value(t.rotation.w, F32(0x3f80_0000));
            &&& d.translation == t.translation
            &&& d.scale == t.scale
            &&& none ==> d.rotation == RotationDesc::Identity
            &&& !none ==> d.rotation == RotationDesc::Quat(t.rotation)
        }),
{
}

} // verus!
