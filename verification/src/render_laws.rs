//! What a frame is for: everything that is drawn has been brought, compiled and made
//! first, nothing is brought in vain, and every run is drawn as what it is.

use vstd::prelude::*;
use crate::float::{F32, below, magnitude};
use crate::material::MaterialVariant;
use crate::render::{
    DrawStats, FramePlan, FrameStep, InstanceRun, Missing, Opening, PHASE_MIN_RADIUS_BITS,
    RenderTarget, RendererView, SceneCommand, ScenePass, SeenDraw, Size, TargetOpening, bake_steps,
    begins, begins_target, brought_rightly, compile_step, compile_steps, compiled_or_listed,
    compiles_pipeline, depth_steps, drawable, draws_seen, drops_target,
    every_run_is_drawn_as_its_own, fetching_is_enough, frames, frames_target, goes_fullscreen,
    instance_steps, keeps_target, misses, missing, nowhere, opening, opening_draws_no_run,
    pass_steps, prepared, preparing, scene_of, takes_batch, takes_quads, takes_scale, target_steps,
    to_compile, upload_steps, uploads_texture, with_all_holds,
};
use crate::texture::{TextureHandle, target_handle};
use crate::ui::{BatchView, UiQuad, UiRun, follow_on, runs_partition_the_batch, texture_at};

verus! {

/// Whether some item asks for `key`, which is not there.
pub open spec fn is_missed(wanted: Seq<Option<u64>>, resident: Set<u64>, key: u64) -> bool {
    !resident.contains(key) && exists|i: int|
        0 <= i < wanted.len() && #[trigger] wanted[i] == Some(key)
}

/// Whether `absent` has the places of the items that ask for something which is neither
/// there nor to be had, in order and each once.
pub open spec fn lists_the_absent(
    wanted: Seq<Option<u64>>,
    resident: Set<u64>,
    library: Set<u64>,
    absent: Seq<usize>,
) -> bool {
    &&& forall|i: int, j: int| 0 <= i < j < absent.len() ==> absent[i] < absent[j]
    &&& forall|k: int| 0 <= k < absent.len() ==> (#[trigger] absent[k]) < wanted.len()
    &&& forall|i: usize|
        i < wanted.len() ==> (#[trigger] absent.contains(i) <==> wanted[i as int] is Some
            && !resident.contains(wanted[i as int]->0) && !library.contains(wanted[i as int]->0))
}

proof fn the_absent_so_far(
    wanted: Seq<Option<u64>>,
    resident: Set<u64>,
    library: Set<u64>,
    n: int,
)
    requires
        0 <= n <= wanted.len() <= usize::MAX,
    ensures
        ({
            let r = nowhere(wanted, resident, library, n);
            &&& forall|i: int, j: int| 0 <= i < j < r.len() ==> r[i] < r[j]
            &&& forall|k: int| 0 <= k < r.len() ==> (#[trigger] r[k]) < n
            &&& forall|i: usize|
                i < n ==> (#[trigger] r.contains(i) <==> wanted[i as int] is Some
                    && !resident.contains(wanted[i as int]->0) && !library.contains(
                    wanted[i as int]->0,
                ))
        }),
    decreases n,
{
    if n > 0 {
        the_absent_so_far(wanted, resident, library, n - 1);
        let before = nowhere(wanted, resident, library, n - 1);
        let r = nowhere(wanted, resident, library, n);
        let at = (n - 1) as usize;
        if r != before {
            assert(r == before.push(at));
            assert(r[before.len() as int] == at);
        }
        assert forall|i: usize| i < n implies (#[trigger] r.contains(i) <==> wanted[i as int] is Some
            && !resident.contains(wanted[i as int]->0) && !library.contains(
            wanted[i as int]->0,
        )) by {
            if i < n - 1 {
                assert(before.contains(i) == r.contains(i)) by {
                    if before.contains(i) {
                        assert(r[before.index_of(i)] == i);
                    }
                    if r.contains(i) {
                        let k = r.index_of(i);
                        assert(k < before.len());
                        assert(before[k] == i);
                    }
                }
            } else if r == before && r.contains(i) {
                assert(r[r.index_of(i)] < n - 1);
            }
        }
    }
}

proof fn what_is_fetched(
    wanted: Seq<Option<u64>>,
    resident: Set<u64>,
    library: Set<u64>,
    key: u64,
)
    ensures
        missing(wanted, resident, library).contains(key) <==> is_missed(wanted, resident, key)
            && library.contains(key),
{
    let r = missing(wanted, resident, library);
    fetching_is_enough(wanted, resident, library, wanted.len() as int);
    if r.contains(key) {
        assert(brought_rightly(wanted, resident, library, r[r.index_of(key)]));
    }
}

/// What is to be brought is what some item asks for, is not there and is to be had, each
/// once; and an item goes without only where what it asks for is not to be had.
pub proof fn what_is_missing_is_brought(
    wanted: Seq<Option<u64>>,
    resident: Set<u64>,
    library: Set<u64>,
    r: Missing,
)
    requires
        misses(wanted, resident, library, r),
        wanted.len() <= usize::MAX,
    ensures
        r.fetch@.no_duplicates(),
        forall|key: u64| #[trigger]
            r.fetch@.contains(key) <==> is_missed(wanted, resident, key) && library.contains(key),
        lists_the_absent(wanted, resident, library, r.absent@),
{
    fetching_is_enough(wanted, resident, library, wanted.len() as int);
    the_absent_so_far(wanted, resident, library, wanted.len() as int);
    assert forall|key: u64| #[trigger]
        r.fetch@.contains(key) <==> is_missed(wanted, resident, key) && library.contains(key) by {
        what_is_fetched(wanted, resident, library, key);
    }
}

/// Whether `r` draws the instances of `run` and no others, with its own pipeline and mesh
/// bound, and its own texture if that is on the GPU.
pub open spec fn drawn_as_it_is(run: InstanceRun, textures: Set<u64>, r: SeenDraw) -> bool {
    &&& r.first == run.first
    &&& r.end == run.first + run.count
    &&& r.bound.pipeline == Some(run.variant)
    &&& r.bound.mesh == Some(run.mesh)
    &&& run.texture is Some && textures.contains((run.texture->0).0) ==> r.bound.texture == Some(
        run.texture,
    )
    &&& run.texture is None || !textures.contains((run.texture->0).0) ==> r.bound.texture == Some(
        None::<TextureHandle>,
    )
}

/// The runs whose mesh is on the GPU.
pub open spec fn with_a_mesh(runs: Seq<InstanceRun>, meshes: Set<u64>) -> Seq<InstanceRun> {
    runs.filter(|run: InstanceRun| meshes.contains(run.mesh.0))
}

proof fn what_is_drawable(runs: Seq<InstanceRun>, meshes: Set<u64>, n: int)
    requires
        0 <= n <= runs.len(),
    ensures
        drawable(runs, meshes, n) == with_a_mesh(runs.take(n), meshes),
    decreases n,
{
    reveal(Seq::filter);
    if n > 0 {
        what_is_drawable(runs, meshes, n - 1);
        assert(runs.take(n).drop_last() =~= runs.take(n - 1));
        assert(runs.take(n).last() == runs[n - 1]);
    } else {
        assert(runs.take(0) =~= Seq::<InstanceRun>::empty());
    }
}

/// A scene begins with its frame block and the sky, and then every run whose mesh is there
/// is drawn, once, in order, as what it is. No other is.
pub proof fn a_scene_is_drawn_as_it_is(
    pass: ScenePass,
    runs: Seq<InstanceRun>,
    meshes: Set<u64>,
    textures: Set<u64>,
)
    requires
        scene_of(pass, runs, meshes, textures),
        forall|i: int| 0 <= i < runs.len() ==> (#[trigger] runs[i]).first + runs[i].count <= u32::MAX,
    ensures
        pass.commands@.len() >= 2,
        pass.commands@[0] == SceneCommand::Frame,
        pass.commands@[1] == SceneCommand::Sky,
        runs.len() > 0 ==> pass.commands@.len() > 2 && pass.commands@[2]
            == SceneCommand::Instances,
        draws_seen(pass.commands@).len() == with_a_mesh(runs, meshes).len(),
        pass.draws == with_a_mesh(runs, meshes).len(),
        forall|i: int|
            0 <= i < with_a_mesh(runs, meshes).len() ==> drawn_as_it_is(
                #[trigger] with_a_mesh(runs, meshes)[i],
                textures,
                draws_seen(pass.commands@)[i],
            ),
{
    let n = runs.len() as int;
    let shown = drawable(runs, meshes, n);
    what_is_drawable(runs, meshes, n);
    assert(runs.take(n) =~= runs);
    opening_draws_no_run(runs);
    every_run_is_drawn_as_its_own(shown, textures, opening(runs), shown.len() as int);
    assert forall|i: int| 0 <= i < shown.len() implies drawn_as_it_is(
        #[trigger] shown[i],
        textures,
        draws_seen(pass.commands@)[i],
    ) by {
        let has = |run: InstanceRun| meshes.contains(run.mesh.0);
        assert(shown == runs.filter(has));
        runs.lemma_filter_contains_rev(has, shown[i]);
        assert(runs.contains(shown[i]));
        let k = runs.index_of(shown[i]);
        assert(runs[k].first + runs[k].count <= u32::MAX);
    }
}

/// When in a frame a step comes.
pub open spec fn turn(step: FrameStep) -> int {
    match step {
        FrameStep::CreateDepth(_) => 0,
        FrameStep::CreateTarget { .. } => 1,
        FrameStep::UploadMesh(_) => 2,
        FrameStep::BakeTexture(_) => 3,
        FrameStep::WriteFrame => 4,
        FrameStep::GrowInstances(_) => 5,
        FrameStep::WriteInstances(_) => 6,
        FrameStep::CompilePipeline { .. } => 7,
        FrameStep::WriteTargetFrame(_) => 8,
        FrameStep::CompileBlit => 9,
        FrameStep::CreateOffscreen(_) => 10,
        FrameStep::DrawScene { .. } => 11,
        FrameStep::DrawTarget(_) => 12,
        FrameStep::Blit => 13,
        FrameStep::CompileUi => 14,
        FrameStep::DrawUi => 15,
        FrameStep::Submit => 16,
    }
}

/// Steps in their turn, none of them twice.
pub open spec fn in_turn(steps: Seq<FrameStep>) -> bool {
    forall|i: int, j: int|
        0 <= i < j < steps.len() ==> turn(#[trigger] steps[i]) <= turn(#[trigger] steps[j])
            && steps[i] != steps[j]
}

spec fn between(steps: Seq<FrameStep>, first: int, last: int) -> bool {
    forall|i: int| 0 <= i < steps.len() ==> first <= turn(#[trigger] steps[i]) <= last
}

proof fn one_behind_the_other(
    a: Seq<FrameStep>,
    b: Seq<FrameStep>,
    first: int,
    middle: int,
    last: int,
)
    requires
        in_turn(a),
        in_turn(b),
        between(a, first, middle),
        between(b, middle + 1, last),
        first <= middle < last,
    ensures
        in_turn(a + b),
        between(a + b, first, last),
{
    let s = a + b;
    assert forall|i: int| 0 <= i < s.len() implies first <= turn(#[trigger] s[i]) <= last by {
        if i < a.len() {
            assert(s[i] == a[i]);
        } else {
            assert(s[i] == b[i - a.len()]);
        }
    }
    assert forall|i: int, j: int| 0 <= i < j < s.len() implies turn(#[trigger] s[i]) <= turn(
        #[trigger] s[j],
    ) && s[i] != s[j] by {
        if j < a.len() {
            assert(s[i] == a[i] && s[j] == a[j]);
        } else if i < a.len() {
            assert(s[i] == a[i] && s[j] == b[j - a.len()]);
        } else {
            assert(s[i] == b[i - a.len()] && s[j] == b[j - a.len()]);
        }
    }
}

proof fn in_either(a: Seq<FrameStep>, b: Seq<FrameStep>, step: FrameStep)
    ensures
        (a + b).contains(step) == (a.contains(step) || b.contains(step)),
{
    let s = a + b;
    if a.contains(step) {
        assert(s[a.index_of(step)] == step);
    }
    if b.contains(step) {
        assert(s[a.len() + b.index_of(step)] == step);
    }
    if s.contains(step) {
        let i = s.index_of(step);
        if i < a.len() {
            assert(a[i] == step);
        } else {
            assert(b[i - a.len()] == step);
        }
    }
}

proof fn uploads(keys: Seq<u64>, step: FrameStep)
    requires
        keys.no_duplicates(),
    ensures
        in_turn(upload_steps(keys)),
        between(upload_steps(keys), 2, 2),
        upload_steps(keys).contains(step) <==> step is UploadMesh && keys.contains(
            step->UploadMesh_0,
        ),
{
    let s = upload_steps(keys);
    if s.contains(step) {
        assert(keys[s.index_of(step)] == step->UploadMesh_0);
    }
    if step is UploadMesh && keys.contains(step->UploadMesh_0) {
        assert(s[keys.index_of(step->UploadMesh_0)] == step);
    }
}

proof fn bakes(keys: Seq<u64>, step: FrameStep)
    requires
        keys.no_duplicates(),
    ensures
        in_turn(bake_steps(keys)),
        between(bake_steps(keys), 3, 3),
        bake_steps(keys).contains(step) <==> step is BakeTexture && keys.contains(
            step->BakeTexture_0,
        ),
{
    let s = bake_steps(keys);
    if s.contains(step) {
        assert(keys[s.index_of(step)] == step->BakeTexture_0);
    }
    if step is BakeTexture && keys.contains(step->BakeTexture_0) {
        assert(s[keys.index_of(step->BakeTexture_0)] == step);
    }
}

/// Whether some run is drawn with `variant`.
pub open spec fn is_used(runs: Seq<InstanceRun>, variant: MaterialVariant) -> bool {
    exists|i: int| 0 <= i < runs.len() && (#[trigger] runs[i]).variant == variant
}

proof fn the_listed_so_far(
    runs: Seq<InstanceRun>,
    pipelines: Set<u32>,
    n: int,
    variant: MaterialVariant,
)
    requires
        0 <= n <= runs.len(),
    ensures
        to_compile(runs, pipelines, n).no_duplicates(),
        to_compile(runs, pipelines, n).contains(variant) <==> !pipelines.contains(variant.0)
            && is_used(runs.take(n), variant),
    decreases n,
{
    if n > 0 {
        the_listed_so_far(runs, pipelines, n - 1, variant);
        let before = to_compile(runs, pipelines, n - 1);
        let now = to_compile(runs, pipelines, n);
        let v = runs[n - 1].variant;
        let then = runs.take(n - 1);
        let all = runs.take(n);
        assert(all[n - 1].variant == v);
        assert(is_used(all, variant) == (is_used(then, variant) || v == variant)) by {
            if is_used(then, variant) {
                let i = choose|i: int|
                    0 <= i < then.len() && (#[trigger] then[i]).variant == variant;
                assert(all[i].variant == variant);
            }
            if is_used(all, variant) && v != variant {
                let i = choose|i: int|
                    0 <= i < all.len() && (#[trigger] all[i]).variant == variant;
                assert(then[i].variant == variant);
            }
        }
        if now != before {
            assert(now == before.push(v));
            assert(now[before.len() as int] == v);
            if before.contains(variant) {
                assert(now[before.index_of(variant)] == variant);
            }
            if now.contains(variant) && variant != v {
                assert(before[now.index_of(variant)] == variant);
            }
        }
    }
}

proof fn compiles(runs: Seq<InstanceRun>, pipelines: Set<u32>, step: FrameStep)
    ensures
        ({
            let s = compile_steps(to_compile(runs, pipelines, runs.len() as int));
            &&& in_turn(s)
            &&& between(s, 7, 7)
            &&& s.contains(step) <==> (step is CompilePipeline && !pipelines.contains(
                step->variant.0,
            ) && is_used(runs, step->variant) && step->inert == MaterialVariant(
                step->variant.0 & !MaterialVariant::IMPLEMENTED,
            ))
        }),
{
    let n = runs.len() as int;
    let list = to_compile(runs, pipelines, n);
    let s = compile_steps(list);
    assert(runs.take(n) =~= runs);
    the_listed_so_far(runs, pipelines, n, step->variant);
    if s.contains(step) {
        let k = s.index_of(step);
        assert(s[k] == compile_step(list[k]));
        assert(list.contains(list[k]));
    }
    if step is CompilePipeline && list.contains(step->variant) {
        let k = list.index_of(step->variant);
        assert(s[k] == compile_step(list[k]));
    }
}

/// A frame begins with the depth buffer, where it has not the frame's size, and then the
/// meshes that are asked for, not there and to be had, each once. Then those are there,
/// and nothing else has changed.
pub proof fn a_frame_begins_with_what_it_needs(
    before: RendererView,
    screen: Size,
    drawn: Size,
    wanted: Seq<Option<u64>>,
    library: Set<u64>,
    after: RendererView,
    r: Opening,
)
    requires
        begins(before, screen, drawn, wanted, library, after, r),
        wanted.len() <= u32::MAX,
    ensures
        r.screen == screen,
        r.drawn == drawn,
        r.items == wanted.len(),
        in_turn(r.steps@),
        forall|step: FrameStep| #[trigger]
            r.steps@.contains(step) <==> match step {
                FrameStep::CreateDepth(size) => size == drawn && before.depth != Some(drawn),
                FrameStep::UploadMesh(key) => is_missed(wanted, before.meshes, key)
                    && library.contains(key),
                _ => false,
            },
        lists_the_absent(wanted, before.meshes, library, r.absent@),
        after.depth == Some(drawn),
        forall|key: u64| #[trigger]
            after.meshes.contains(key) <==> before.meshes.contains(key) || (is_missed(
                wanted,
                before.meshes,
                key,
            ) && library.contains(key)),
        after == (RendererView { depth: after.depth, meshes: after.meshes, ..before }),
{
    let keys = missing(wanted, before.meshes, library);
    fetching_is_enough(wanted, before.meshes, library, wanted.len() as int);
    the_absent_so_far(wanted, before.meshes, library, wanted.len() as int);
    let depth = depth_steps(before.depth, drawn);
    uploads(keys, FrameStep::Submit);
    one_behind_the_other(depth, upload_steps(keys), 0, 1, 2);
    assert forall|step: FrameStep| #[trigger]
        r.steps@.contains(step) <==> match step {
            FrameStep::CreateDepth(size) => size == drawn && before.depth != Some(drawn),
            FrameStep::UploadMesh(key) => is_missed(wanted, before.meshes, key)
                && library.contains(key),
            _ => false,
        } by {
        uploads(keys, step);
        in_either(depth, upload_steps(keys), step);
        if step is UploadMesh {
            what_is_fetched(wanted, before.meshes, library, step->UploadMesh_0);
        }
        if before.depth != Some(drawn) {
            assert(depth[0] == FrameStep::CreateDepth(drawn));
        }
    }
    assert forall|key: u64| #[trigger]
        after.meshes.contains(key) <==> before.meshes.contains(key) || (is_missed(
            wanted,
            before.meshes,
            key,
        ) && library.contains(key)) by {
        what_is_fetched(wanted, before.meshes, library, key);
        with_all_holds(before.meshes, keys, key);
    }
}

/// A frame for a scene target begins with the target, where there is none of its size, and
/// then the meshes. Then the target is there and can be drawn from, and nothing of the
/// screen's has changed.
pub proof fn a_targets_frame_begins_with_what_it_needs(
    before: RendererView,
    target: RenderTarget,
    size: Size,
    wanted: Seq<Option<u64>>,
    library: Set<u64>,
    after: RendererView,
    r: TargetOpening,
)
    requires
        begins_target(before, target, size, wanted, library, after, r),
        wanted.len() <= u32::MAX,
    ensures
        r.target == target,
        r.items == wanted.len(),
        in_turn(r.steps@),
        forall|step: FrameStep| #[trigger]
            r.steps@.contains(step) <==> match step {
                FrameStep::CreateTarget { target: t, size: s } => t == target && s == size && !(
                before.targets.contains_key(target.0) && before.targets[target.0] == size),
                FrameStep::UploadMesh(key) => is_missed(wanted, before.meshes, key)
                    && library.contains(key),
                _ => false,
            },
        lists_the_absent(wanted, before.meshes, library, r.absent@),
        after.targets.contains_key(target.0),
        after.targets[target.0] == size,
        forall|other: u32|
            other != target.0 ==> (#[trigger] after.targets.contains_key(other)
                == before.targets.contains_key(other)) && after.targets[other]
                == before.targets[other],
        forall|key: u64| #[trigger]
            after.textures.contains(key) <==> before.textures.contains(key) || key
                == target_handle(target.0).0,
        forall|key: u64| #[trigger]
            after.meshes.contains(key) <==> before.meshes.contains(key) || (is_missed(
                wanted,
                before.meshes,
                key,
            ) && library.contains(key)),
        after == (RendererView {
            targets: after.targets,
            textures: after.textures,
            meshes: after.meshes,
            ..before
        }),
{
    let keys = missing(wanted, before.meshes, library);
    fetching_is_enough(wanted, before.meshes, library, wanted.len() as int);
    the_absent_so_far(wanted, before.meshes, library, wanted.len() as int);
    let made = target_steps(before.targets, target, size);
    uploads(keys, FrameStep::Submit);
    one_behind_the_other(made, upload_steps(keys), 0, 1, 2);
    assert forall|step: FrameStep| #[trigger]
        r.steps@.contains(step) <==> match step {
            FrameStep::CreateTarget { target: t, size: s } => t == target && s == size && !(
            before.targets.contains_key(target.0) && before.targets[target.0] == size),
            FrameStep::UploadMesh(key) => is_missed(wanted, before.meshes, key)
                && library.contains(key),
            _ => false,
        } by {
        uploads(keys, step);
        in_either(made, upload_steps(keys), step);
        if step is UploadMesh {
            what_is_fetched(wanted, before.meshes, library, step->UploadMesh_0);
        }
        if made.len() > 0 {
            assert(made[0] == (FrameStep::CreateTarget { target, size }));
        }
    }
    assert forall|key: u64| #[trigger]
        after.meshes.contains(key) <==> before.meshes.contains(key) || (is_missed(
            wanted,
            before.meshes,
            key,
        ) && library.contains(key)) by {
        what_is_fetched(wanted, before.meshes, library, key);
        with_all_holds(before.meshes, keys, key);
    }
}

/// Whether a frame is drawn into the internal target first: it is not as large as the
/// screen, a side of nothing being one pixel; or the phase circle is open.
pub open spec fn goes_through_a_target(opening: Opening, radius: F32) -> bool {
    ||| opening.drawn.width != opening.screen.width && !(opening.screen.width == 0
        && opening.drawn.width == 1)
    ||| opening.drawn.width == 0
    ||| opening.drawn.height != opening.screen.height && !(opening.screen.height == 0
        && opening.drawn.height == 1)
    ||| opening.drawn.height == 0
    ||| below(F32(PHASE_MIN_RADIUS_BITS), radius)
}

/// Whether `step` is one that a frame takes to have what it draws with: the textures of
/// what can be seen, the instances, with room for them, and the pipelines.
pub open spec fn readies(
    before: RendererView,
    wanted: Seq<Option<u64>>,
    library: Set<u64>,
    runs: Seq<InstanceRun>,
    capacity: u32,
    step: FrameStep,
) -> bool {
    match step {
        FrameStep::BakeTexture(key) => is_missed(wanted, before.textures, key)
            && library.contains(key),
        FrameStep::GrowInstances(n) => n == capacity && wanted.len() > before.instance_capacity,
        FrameStep::WriteInstances(n) => n == wanted.len() && n > 0,
        FrameStep::CompilePipeline { variant, inert } => is_used(runs, variant)
            && !before.pipelines.contains(variant.0) && inert == MaterialVariant(
            variant.0 & !MaterialVariant::IMPLEMENTED,
        ),
        _ => false,
    }
}

/// Whether what a frame draws with is there: the textures and pipelines that were, and
/// those it brought and compiled; and room for as many instances as it has.
pub open spec fn is_ready(
    before: RendererView,
    wanted: Seq<Option<u64>>,
    library: Set<u64>,
    runs: Seq<InstanceRun>,
    after: RendererView,
) -> bool {
    &&& forall|key: u64| #[trigger]
        after.textures.contains(key) <==> before.textures.contains(key) || (is_missed(
            wanted,
            before.textures,
            key,
        ) && library.contains(key))
    &&& forall|v: u32| #[trigger]
        after.pipelines.contains(v) <==> before.pipelines.contains(v) || is_used(
            runs,
            MaterialVariant(v),
        )
    &&& after.instance_capacity >= wanted.len()
    &&& after.instance_capacity >= before.instance_capacity
    &&& wanted.len() <= before.instance_capacity ==> after.instance_capacity
        == before.instance_capacity
}

/// The steps up to the passes, and what they leave.
proof fn preparing_readies(
    before: RendererView,
    frame: Seq<FrameStep>,
    wanted: Seq<Option<u64>>,
    library: Set<u64>,
    runs: Seq<InstanceRun>,
)
    requires
        wanted.len() <= u32::MAX,
        in_turn(frame),
        between(frame, 4, 4),
    ensures
        ({
            let s = preparing(before, frame, wanted, library, runs);
            let after = prepared(before, wanted, library, runs);
            &&& in_turn(s)
            &&& between(s, 3, 7)
            &&& forall|step: FrameStep| #[trigger]
                s.contains(step) <==> frame.contains(step) || readies(
                    before,
                    wanted,
                    library,
                    runs,
                    after.instance_capacity,
                    step,
                )
            &&& is_ready(before, wanted, library, runs, after)
        }),
{
    let keys = missing(wanted, before.textures, library);
    let s = preparing(before, frame, wanted, library, runs);
    let after = prepared(before, wanted, library, runs);
    let n = runs.len() as int;
    let visible = wanted.len() as u32;
    let baked = bake_steps(keys);
    let instances = instance_steps(before.instance_capacity, visible);
    let list = compile_steps(to_compile(runs, before.pipelines, n));
    fetching_is_enough(wanted, before.textures, library, wanted.len() as int);
    bakes(keys, FrameStep::Submit);
    compiles(runs, before.pipelines, FrameStep::Submit);
    one_behind_the_other(baked, frame, 3, 3, 4);
    one_behind_the_other(baked + frame, instances, 3, 4, 6);
    one_behind_the_other(baked + frame + instances, list, 3, 6, 7);
    assert forall|step: FrameStep| #[trigger]
        s.contains(step) <==> frame.contains(step) || readies(
            before,
            wanted,
            library,
            runs,
            after.instance_capacity,
            step,
        ) by {
        bakes(keys, step);
        compiles(runs, before.pipelines, step);
        in_either(baked, frame, step);
        in_either(baked + frame, instances, step);
        in_either(baked + frame + instances, list, step);
        if step is BakeTexture {
            what_is_fetched(wanted, before.textures, library, step->BakeTexture_0);
        }
        if visible > before.instance_capacity {
            assert(instances[0] == FrameStep::GrowInstances(after.instance_capacity));
            assert(instances[1] == FrameStep::WriteInstances(visible));
        } else if visible > 0 {
            assert(instances[0] == FrameStep::WriteInstances(visible));
        }
    }
    assert forall|key: u64| #[trigger]
        after.textures.contains(key) <==> before.textures.contains(key) || (is_missed(
            wanted,
            before.textures,
            key,
        ) && library.contains(key)) by {
        what_is_fetched(wanted, before.textures, library, key);
        with_all_holds(before.textures, keys, key);
    }
    assert forall|v: u32| #[trigger]
        after.pipelines.contains(v) <==> before.pipelines.contains(v) || is_used(
            runs,
            MaterialVariant(v),
        ) by {
        compiled_or_listed(before.pipelines, runs, n, MaterialVariant(v));
        the_listed_so_far(runs, before.pipelines, n, MaterialVariant(v));
        assert(runs.take(n) =~= runs);
    }
}

/// Whether `step` is one that puts a frame on the screen: through the internal target where
/// `through` holds, which is made to fit and copied then; and with the overlay over it
/// where there is one.
pub open spec fn shows(before: RendererView, drawn: Size, through: bool, step: FrameStep) -> bool {
    match step {
        FrameStep::CompileBlit => through && !before.blit,
        FrameStep::CreateOffscreen(size) => through && size == drawn && before.offscreen != Some(
            drawn,
        ),
        FrameStep::DrawScene { offscreen } => offscreen == through,
        FrameStep::Blit => through,
        FrameStep::CompileUi => before.ui_quads.len() > 0 && !before.ui,
        FrameStep::DrawUi => before.ui_quads.len() > 0,
        FrameStep::Submit => true,
        _ => false,
    }
}

#[verifier::rlimit(60)]
proof fn the_passes_show(before: RendererView, drawn: Size, through: bool)
    ensures
        ({
            let s = pass_steps(
                before.blit,
                before.offscreen,
                before.ui,
                drawn,
                through,
                before.ui_quads.len() > 0,
            );
            &&& in_turn(s)
            &&& between(s, 9, 16)
            &&& forall|step: FrameStep| #[trigger]
                s.contains(step) <==> shows(before, drawn, through, step)
        }),
{
    let overlay = before.ui_quads.len() > 0;
    let none = Seq::<FrameStep>::empty();
    let a = if through && !before.blit {
        seq![FrameStep::CompileBlit]
    } else {
        none
    };
    let b = if through && before.offscreen != Some(drawn) {
        seq![FrameStep::CreateOffscreen(drawn)]
    } else {
        none
    };
    let c = seq![FrameStep::DrawScene { offscreen: through }];
    let d = if through {
        seq![FrameStep::Blit]
    } else {
        none
    };
    let e = if overlay && !before.ui {
        seq![FrameStep::CompileUi]
    } else {
        none
    };
    let f = if overlay {
        seq![FrameStep::DrawUi]
    } else {
        none
    };
    let g = seq![FrameStep::Submit];
    let s = a + b + c + d + e + f + g;
    one_behind_the_other(a, b, 9, 9, 10);
    one_behind_the_other(a + b, c, 9, 10, 11);
    one_behind_the_other(a + b + c, d, 9, 11, 13);
    one_behind_the_other(a + b + c + d, e, 9, 13, 14);
    one_behind_the_other(a + b + c + d + e, f, 9, 14, 15);
    one_behind_the_other(a + b + c + d + e + f, g, 9, 15, 16);
    assert forall|step: FrameStep| #[trigger]
        s.contains(step) <==> shows(before, drawn, through, step) by {
        in_either(a, b, step);
        in_either(a + b, c, step);
        in_either(a + b + c, d, step);
        in_either(a + b + c + d, e, step);
        in_either(a + b + c + d + e, f, step);
        in_either(a + b + c + d + e + f, g, step);
        assert(c[0] == (FrameStep::DrawScene { offscreen: through }));
        assert(g[0] == FrameStep::Submit);
        if through && !before.blit {
            assert(a[0] == FrameStep::CompileBlit);
        }
        if through && before.offscreen != Some(drawn) {
            assert(b[0] == FrameStep::CreateOffscreen(drawn));
        }
        if through {
            assert(d[0] == FrameStep::Blit);
        }
        if overlay && !before.ui {
            assert(e[0] == FrameStep::CompileUi);
        }
        if overlay {
            assert(f[0] == FrameStep::DrawUi);
        }
    }
}

/// What a frame came to adds up: what was there to draw is what was culled and what was
/// left, and every run whose mesh is there is a draw.
pub open spec fn adds_up(
    items: u32,
    visible: nat,
    runs: Seq<InstanceRun>,
    meshes: Set<u64>,
    stats: DrawStats,
) -> bool {
    &&& stats.items == items
    &&& stats.instances == visible
    &&& stats.culled + stats.instances == stats.items
    &&& stats.draws == with_a_mesh(runs, meshes).len()
}

/// The rest of a frame takes the steps it needs, each once and in its turn, and no other:
/// what it draws with is brought before it is drawn with, and the overlay is drawn over
/// the scene. What it leaves is what it brought, and the scene is drawn with that.
pub proof fn a_frame_is_shown_once_it_is_ready(
    before: RendererView,
    opening: Opening,
    wanted: Seq<Option<u64>>,
    library: Set<u64>,
    runs: Seq<InstanceRun>,
    after: RendererView,
    r: FramePlan,
)
    requires
        frames(before, opening, wanted, library, runs, after, r),
        wanted.len() <= opening.items,
        runs.len() <= u32::MAX,
    ensures
        in_turn(r.steps@),
        forall|step: FrameStep| #[trigger]
            r.steps@.contains(step) <==> step == FrameStep::WriteFrame || readies(
                before,
                wanted,
                library,
                runs,
                after.instance_capacity,
                step,
            ) || shows(
                before,
                opening.drawn,
                goes_through_a_target(opening, before.phase.radius),
                step,
            ),
        lists_the_absent(wanted, before.textures, library, r.absent@),
        is_ready(before, wanted, library, runs, after),
        scene_of(r.scene, runs, after.meshes, after.textures),
        adds_up(opening.items, wanted.len(), runs, before.meshes, r.stats),
        after.stats == r.stats,
        after.blit == (before.blit || goes_through_a_target(opening, before.phase.radius)),
        after.offscreen == if goes_through_a_target(opening, before.phase.radius) {
            Some(opening.drawn)
        } else {
            before.offscreen
        },
        after.ui == (before.ui || before.ui_quads.len() > 0),
        after == (RendererView {
            textures: after.textures,
            pipelines: after.pipelines,
            instance_capacity: after.instance_capacity,
            blit: after.blit,
            offscreen: after.offscreen,
            ui: after.ui,
            stats: after.stats,
            ..before
        }),
{
    let through = goes_through_a_target(opening, before.phase.radius);
    let frame = seq![FrameStep::WriteFrame];
    let n = runs.len() as int;
    assert(through == goes_fullscreen(
        opening.screen,
        opening.drawn,
        before.phase.radius,
    ));
    preparing_readies(before, frame, wanted, library, runs);
    the_passes_show(before, opening.drawn, through);
    the_absent_so_far(wanted, before.textures, library, wanted.len() as int);
    let front = preparing(before, frame, wanted, library, runs);
    let back = pass_steps(
        before.blit,
        before.offscreen,
        before.ui,
        opening.drawn,
        through,
        before.ui_quads.len() > 0,
    );
    assert(between(front, 3, 8));
    one_behind_the_other(front, back, 3, 8, 16);
    assert forall|step: FrameStep| #[trigger]
        r.steps@.contains(step) <==> step == FrameStep::WriteFrame || readies(
            before,
            wanted,
            library,
            runs,
            after.instance_capacity,
            step,
        ) || shows(before, opening.drawn, through, step) by {
        in_either(front, back, step);
        assert(frame[0] == FrameStep::WriteFrame);
        assert(frame.contains(step) == (step == FrameStep::WriteFrame));
    }
    what_is_drawable(runs, before.meshes, n);
    assert(runs.take(n) =~= runs);
    drawn_are_few(runs, before.meshes);
}

proof fn drawn_are_few(runs: Seq<InstanceRun>, meshes: Set<u64>)
    ensures
        with_a_mesh(runs, meshes).len() <= runs.len(),
{
    runs.lemma_filter_len(|run: InstanceRun| meshes.contains(run.mesh.0));
}

/// The rest of a frame for a scene target: what it draws with, its own frame block, the
/// scene, and no part of the screen or the overlay.
pub proof fn a_targets_frame_is_drawn_once_it_is_ready(
    before: RendererView,
    opening: TargetOpening,
    wanted: Seq<Option<u64>>,
    library: Set<u64>,
    runs: Seq<InstanceRun>,
    after: RendererView,
    r: FramePlan,
)
    requires
        frames_target(before, opening, wanted, library, runs, after, r),
        wanted.len() <= opening.items,
        runs.len() <= u32::MAX,
    ensures
        in_turn(r.steps@),
        forall|step: FrameStep| #[trigger]
            r.steps@.contains(step) <==> readies(
                before,
                wanted,
                library,
                runs,
                after.instance_capacity,
                step,
            ) || step == FrameStep::WriteTargetFrame(opening.target) || step
                == FrameStep::DrawTarget(opening.target) || step == FrameStep::Submit,
        lists_the_absent(wanted, before.textures, library, r.absent@),
        is_ready(before, wanted, library, runs, after),
        scene_of(r.scene, runs, after.meshes, after.textures),
        adds_up(opening.items, wanted.len(), runs, before.meshes, r.stats),
        after == (RendererView {
            textures: after.textures,
            pipelines: after.pipelines,
            instance_capacity: after.instance_capacity,
            ..before
        }),
{
    let frame = Seq::<FrameStep>::empty();
    let n = runs.len() as int;
    preparing_readies(before, frame, wanted, library, runs);
    the_absent_so_far(wanted, before.textures, library, wanted.len() as int);
    let front = preparing(before, frame, wanted, library, runs);
    let back = seq![
        FrameStep::WriteTargetFrame(opening.target),
        FrameStep::DrawTarget(opening.target),
        FrameStep::Submit,
    ];
    one_behind_the_other(front, back, 3, 7, 16);
    assert forall|step: FrameStep| #[trigger]
        r.steps@.contains(step) <==> readies(
            before,
            wanted,
            library,
            runs,
            after.instance_capacity,
            step,
        ) || step == FrameStep::WriteTargetFrame(opening.target) || step
            == FrameStep::DrawTarget(opening.target) || step == FrameStep::Submit by {
        in_either(front, back, step);
        assert(back[0] == FrameStep::WriteTargetFrame(opening.target));
        assert(back[1] == FrameStep::DrawTarget(opening.target));
        assert(back[2] == FrameStep::Submit);
    }
    what_is_drawable(runs, before.meshes, n);
    assert(runs.take(n) =~= runs);
    drawn_are_few(runs, before.meshes);
}

/// What is taken as an overlay is what is drawn of it: all the quads, in runs that follow
/// on from each other, with the atlas that came with them.
pub proof fn an_overlay_is_taken_whole(
    before: RendererView,
    quads: Seq<UiQuad>,
    atlas: Option<TextureHandle>,
    after: RendererView,
    batch: BatchView,
    batched: RendererView,
)
    requires
        takes_quads(before, quads, atlas, after),
        takes_batch(before, batch, batched),
        quads.len() <= u32::MAX,
        batch.wf(),
    ensures
        after.ui_quads == quads,
        after.ui_atlas == atlas,
        follow_on(after.ui_runs, quads.len() as int),
        forall|i: int| 0 <= i < after.ui_runs.len() ==> (#[trigger] after.ui_runs[i]).texture is None,
        after == (RendererView {
            ui_quads: quads,
            ui_runs: after.ui_runs,
            ui_atlas: atlas,
            ..before
        }),
        batched.ui_quads == batch.quads,
        batched.ui_atlas == batch.atlas,
        follow_on(batched.ui_runs, batch.quads.len() as int),
        forall|i: int, k: int|
            #![trigger batched.ui_runs[i], texture_at(batch.switches, k)]
            0 <= i < batched.ui_runs.len() && batched.ui_runs[i].first <= k
                < batched.ui_runs[i].first + batched.ui_runs[i].count ==> batched.ui_runs[i].texture
                == texture_at(batch.switches, k),
        batched == (RendererView {
            ui_quads: batch.quads,
            ui_runs: batched.ui_runs,
            ui_atlas: batch.atlas,
            ..before
        }),
{
    runs_partition_the_batch(batch);
    if quads.len() > 0 {
        assert(after.ui_runs.drop_last() =~= Seq::<UiRun>::empty());
        assert(follow_on(after.ui_runs.drop_last(), 0));
    }
}

/// The screen's scale is taken where it is one: above zero and finite. Nothing else
/// changes.
pub proof fn only_a_scale_is_taken(before: RendererView, scale: F32, after: RendererView)
    requires
        takes_scale(before, scale, after),
    ensures
        below(F32(0), scale) && magnitude(scale) < 0x7f80_0000 ==> after.scale_factor == scale,
        !below(F32(0), scale) || magnitude(scale) >= 0x7f80_0000 ==> after.scale_factor
            == before.scale_factor,
        after == (RendererView { scale_factor: after.scale_factor, ..before }),
{
}

/// An image and a pipeline are brought once: the first time, and not again.
pub proof fn what_is_there_is_not_brought_again(
    before: RendererView,
    handle: TextureHandle,
    uploaded: RendererView,
    fresh: bool,
    variant: MaterialVariant,
    compiled: RendererView,
    step: Option<FrameStep>,
)
    requires
        uploads_texture(before, handle, uploaded, fresh),
        compiles_pipeline(before, variant, compiled, step),
    ensures
        fresh <==> !before.textures.contains(handle.0),
        uploaded.textures.contains(handle.0),
        forall|key: u64|
            key != handle.0 ==> #[trigger] uploaded.textures.contains(key)
                == before.textures.contains(key),
        uploaded == (RendererView { textures: uploaded.textures, ..before }),
        step is Some <==> !before.pipelines.contains(variant.0),
        step is Some ==> step == Some(
            FrameStep::CompilePipeline {
                variant,
                inert: MaterialVariant(variant.0 & !MaterialVariant::IMPLEMENTED),
            },
        ),
        compiled.pipelines.contains(variant.0),
        forall|v: u32|
            v != variant.0 ==> #[trigger] compiled.pipelines.contains(v)
                == before.pipelines.contains(v),
        compiled == (RendererView { pipelines: compiled.pipelines, ..before }),
{
}

/// Whether two renderers have the same scene targets but for one.
pub open spec fn other_targets_stay(
    before: RendererView,
    after: RendererView,
    target: RenderTarget,
) -> bool {
    &&& forall|other: u32|
        other != target.0 ==> (#[trigger] after.targets.contains_key(other)
            == before.targets.contains_key(other)) && (before.targets.contains_key(other)
            ==> after.targets[other] == before.targets[other])
    &&& forall|key: u64|
        key != target_handle(target.0).0 ==> #[trigger] after.textures.contains(key)
            == before.textures.contains(key)
    &&& after == (RendererView { targets: after.targets, textures: after.textures, ..before })
}

/// A scene target that is kept is there at its size, no side of it nothing, and can be
/// drawn from; it is made where it was not there at that size. One that is dropped is
/// there no more and cannot be drawn from. The other targets stay.
pub proof fn a_target_is_there_until_it_is_dropped(
    before: RendererView,
    target: RenderTarget,
    size: Size,
    kept: RendererView,
    r: (TextureHandle, bool),
    dropped: RendererView,
    gone: Option<TextureHandle>,
)
    requires
        keeps_target(before, target, size, kept, r),
        drops_target(kept, target, dropped, gone),
    ensures
        r.0 == target_handle(target.0),
        kept.targets.contains_key(target.0),
        kept.targets[target.0].width == if size.width == 0 {
            1
        } else {
            size.width
        },
        kept.targets[target.0].height == if size.height == 0 {
            1
        } else {
            size.height
        },
        kept.textures.contains(r.0.0),
        r.1 <==> !(before.targets.contains_key(target.0) && before.targets[target.0]
            == kept.targets[target.0]),
        other_targets_stay(before, kept, target),
        gone == Some(r.0),
        !dropped.targets.contains_key(target.0),
        !dropped.textures.contains(r.0.0),
        other_targets_stay(kept, dropped, target),
{
}

/// Dropping a target that is not there is nothing.
pub proof fn what_is_not_there_is_not_dropped(
    before: RendererView,
    target: RenderTarget,
    after: RendererView,
    gone: Option<TextureHandle>,
)
    requires
        drops_target(before, target, after, gone),
        !before.targets.contains_key(target.0),
    ensures
        gone is None,
        after == before,
{
}

} // verus!
