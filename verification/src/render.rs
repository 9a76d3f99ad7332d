//! The renderer's decisions: what a frame needs that the GPU does not have yet,
//! what is bound for each draw, and in which order it all happens.
//!
//! A [`Renderer`] remembers what is on the GPU; each call says what to do next
//! and leaves the doing to the host. Culling, sorting and coalescing come before
//! it: a frame arrives as runs of instances.

use std::collections::{HashMap, HashSet};
use vstd::prelude::*;
use crate::float::{below, clamped, magnitude, F32, INFINITY_BITS, ONE_BITS, Vec2};
use crate::material::MaterialVariant;
use crate::registry::MeshHandle;
use crate::texture::{target_handle, TextureHandle};
use crate::ui::{BatchView, grow, grown, key_of, runs_of, UiBatch, UiQuad, UiRun};

verus! {

broadcast use vstd::std_specs::hash::group_hash_axioms;

/// How many instances there is room for before anything was drawn.
pub const INITIAL_INSTANCE_CAPACITY: u32 = 32;

/// An offscreen scene target, by number.
#[derive(Clone, Copy, Debug, PartialEq, Eq, PartialOrd, Ord, Structural, Hash)]
pub struct RenderTarget(pub u32);

impl RenderTarget {
    /// The handle that the target's colour is drawn from.
    pub fn handle(self) -> (r: TextureHandle)
        ensures
            r == target_handle(self.0),
    {
        TextureHandle::render_target(self.0)
    }
}

/// A stretch of instances that share everything a draw binds.
#[derive(Clone, Copy, Debug, PartialEq, Eq, Structural, Hash)]
pub struct InstanceRun {
    pub variant: MaterialVariant,
    pub mesh: MeshHandle,
    pub texture: Option<TextureHandle>,
    pub first: u32,
    pub count: u32,
}

/// What a frame came to.
#[derive(Clone, Copy, Debug, PartialEq, Eq, Structural, Hash)]
pub struct DrawStats {
    /// Things to draw, before culling.
    pub items: u32,
    pub culled: u32,
    /// Things that were left.
    pub instances: u32,
    pub draws: u32,
}

/// What a frame asks for that is not on the GPU.
#[derive(Debug)]
pub struct Missing {
    /// What to bring, each once, in the order it is asked for.
    pub fetch: Vec<u64>,
    /// The places of the items that ask for something nobody has.
    pub absent: Vec<usize>,
}

/// What the first `n` items make necessary to bring.
pub open spec fn to_fetch(
    wanted: Seq<Option<u64>>,
    resident: Set<u64>,
    library: Set<u64>,
    n: int,
) -> Seq<u64>
    decreases n,
{
    if n <= 0 {
        Seq::empty()
    } else {
        let before = to_fetch(wanted, resident, library, n - 1);
        match wanted[n - 1] {
            Some(key) if !resident.contains(key) && library.contains(key) && !before.contains(
                key,
            ) => before.push(key),
            _ => before,
        }
    }
}

/// The places among the first `n` items that ask for what nobody has.
pub open spec fn nowhere(
    wanted: Seq<Option<u64>>,
    resident: Set<u64>,
    library: Set<u64>,
    n: int,
) -> Seq<usize>
    decreases n,
{
    if n <= 0 {
        Seq::empty()
    } else {
        let before = nowhere(wanted, resident, library, n - 1);
        match wanted[n - 1] {
            Some(key) if !resident.contains(key) && !library.contains(key) => before.push(
                (n - 1) as usize,
            ),
            _ => before,
        }
    }
}

/// Whether `r` is what items that want these still need.
pub open spec fn misses(
    wanted: Seq<Option<u64>>,
    resident: Set<u64>,
    library: Set<u64>,
    r: Missing,
) -> bool {
    &&& r.fetch@ == to_fetch(wanted, resident, library, wanted.len() as int)
    &&& r.absent@ == nowhere(wanted, resident, library, wanted.len() as int)
}

fn among(list: &Vec<u64>, key: u64) -> (r: bool)
    ensures
        r == list@.contains(key),
{
    let mut i: usize = 0;
    while i < list.len()
        invariant
            i <= list.len(),
            forall|j: int| 0 <= j < i ==> list@[j] != key,
        decreases list.len() - i,
    {
        if list[i] == key {
            return true;
        }
        i = i + 1;
    }
    false
}

/// Find what items that want these meshes, or these textures, still need.
/// `resident` is on the GPU and `library` can be brought there.
pub fn find_missing(
    wanted: &Vec<Option<u64>>,
    resident: &HashSet<u64>,
    library: &HashSet<u64>,
) -> (r: Missing)
    ensures
        misses(wanted@, resident@, library@, r),
{
    let mut fetch: Vec<u64> = Vec::new();
    let mut absent: Vec<usize> = Vec::new();
    let mut i: usize = 0;
    while i < wanted.len()
        invariant
            i <= wanted.len(),
            fetch@ == to_fetch(wanted@, resident@, library@, i as int),
            absent@ == nowhere(wanted@, resident@, library@, i as int),
        decreases wanted.len() - i,
    {
        match wanted[i] {
            Some(key) => {
                if !resident.contains(&key) {
                    if library.contains(&key) {
                        if !among(&fetch, key) {
                            fetch.push(key);
                        }
                    } else {
                        absent.push(i);
                    }
                }
            },
            None => {},
        }
        i = i + 1;
    }
    Missing { fetch, absent }
}

/// Once what is missing has been brought, every item that the library can supply
/// has what it asks for; and nothing is brought twice, or in vain.
pub proof fn fetching_is_enough(
    wanted: Seq<Option<u64>>,
    resident: Set<u64>,
    library: Set<u64>,
    n: int,
)
    requires
        0 <= n <= wanted.len(),
    ensures
        to_fetch(wanted, resident, library, n).no_duplicates(),
        forall|i: int|
            0 <= i < to_fetch(wanted, resident, library, n).len() ==> brought_rightly(
                wanted,
                resident,
                library,
                #[trigger] to_fetch(wanted, resident, library, n)[i],
            ),
        forall|i: int|
            0 <= i < n && (#[trigger] wanted[i]) is Some ==> resident.contains(wanted[i]->0)
                || to_fetch(wanted, resident, library, n).contains(wanted[i]->0)
                || !library.contains(wanted[i]->0),
    decreases n,
{
    if n > 0 {
        fetching_is_enough(wanted, resident, library, n - 1);
        let before = to_fetch(wanted, resident, library, n - 1);
        let fetch = to_fetch(wanted, resident, library, n);
        let last = wanted[n - 1];
        if fetch != before {
            let key = last->0;
            assert(fetch == before.push(key));
            assert(fetch[before.len() as int] == key);
            assert forall|i: int| 0 <= i < fetch.len() implies brought_rightly(
                wanted,
                resident,
                library,
                #[trigger] fetch[i],
            ) by {
                if i < before.len() {
                    assert(fetch[i] == before[i]);
                }
            }
        }
        assert forall|i: int| 0 <= i < n && (#[trigger] wanted[i]) is Some implies (
        resident.contains(wanted[i]->0) || fetch.contains(wanted[i]->0) || !library.contains(
            wanted[i]->0,
        )) by {
            if before.contains(wanted[i]->0) {
                let j = before.index_of(wanted[i]->0);
                assert(fetch[j] == wanted[i]->0);
            }
        }
    }
}

/// Whether `key` is asked for, not there, and to be had.
pub open spec fn brought_rightly(
    wanted: Seq<Option<u64>>,
    resident: Set<u64>,
    library: Set<u64>,
    key: u64,
) -> bool {
    !resident.contains(key) && library.contains(key) && exists|i: int|
        0 <= i < wanted.len() && #[trigger] wanted[i] == Some(key)
}

/// One thing that a scene's pass asks of the GPU.
#[derive(Clone, Copy, Debug, PartialEq, Eq, Structural, Hash)]
pub enum SceneCommand {
    /// Bind the frame's uniform.
    Frame,
    /// Draw the sky.
    Sky,
    /// Bind the instances.
    Instances,
    /// Draw with this variant's pipeline from here on.
    Pipeline(MaterialVariant),
    /// Bind a texture; `None` is the plain one.
    Texture(Option<TextureHandle>),
    /// Bind a mesh's vertices and indices.
    Mesh(MeshHandle),
    /// Draw the bound mesh for the instances `first..end`.
    Draw { first: u32, end: u32 },
}

/// The texture that a run is drawn with: its own where that is on the GPU.
pub open spec fn bound_texture(run: InstanceRun, textures: Set<u64>) -> Option<TextureHandle> {
    match run.texture {
        Some(h) if textures.contains(h.0) => Some(h),
        _ => None,
    }
}

/// The runs among the first `n` whose mesh is on the GPU. The others are skipped.
pub open spec fn drawable(runs: Seq<InstanceRun>, meshes: Set<u64>, n: int) -> Seq<InstanceRun>
    decreases n,
{
    if n <= 0 {
        Seq::empty()
    } else {
        let before = drawable(runs, meshes, n - 1);
        if meshes.contains(runs[n - 1].mesh.0) {
            before.push(runs[n - 1])
        } else {
            before
        }
    }
}

/// What drawing `run` takes behind `last`: only what differs is bound.
pub open spec fn commands_behind(
    last: Option<InstanceRun>,
    run: InstanceRun,
    textures: Set<u64>,
) -> Seq<SceneCommand> {
    let first = last is None;
    let before = last->0;
    (if first || before.variant != run.variant {
        seq![SceneCommand::Pipeline(run.variant)]
    } else {
        Seq::empty()
    }) + (if first || bound_texture(before, textures) != bound_texture(run, textures) {
        seq![SceneCommand::Texture(bound_texture(run, textures))]
    } else {
        Seq::empty()
    }) + (if first || before.mesh != run.mesh {
        seq![SceneCommand::Mesh(run.mesh)]
    } else {
        Seq::empty()
    }) + seq![SceneCommand::Draw { first: run.first, end: (run.first + run.count) as u32 }]
}

/// What drawing run `n - 1` of these takes, behind the run before it.
pub open spec fn run_commands(runs: Seq<InstanceRun>, textures: Set<u64>, n: int) -> Seq<
    SceneCommand,
> {
    commands_behind(
        if n == 1 {
            None
        } else {
            Some(runs[n - 2])
        },
        runs[n - 1],
        textures,
    )
}

/// What drawing the first `n` of these runs takes.
pub open spec fn draw_commands(runs: Seq<InstanceRun>, textures: Set<u64>, n: int) -> Seq<
    SceneCommand,
>
    decreases n,
{
    if n <= 0 {
        Seq::empty()
    } else {
        draw_commands(runs, textures, n - 1) + run_commands(runs, textures, n)
    }
}

/// What every scene begins with: its uniform, the sky, and the instances where
/// there are any.
pub open spec fn opening(runs: Seq<InstanceRun>) -> Seq<SceneCommand> {
    if runs.len() == 0 {
        seq![SceneCommand::Frame, SceneCommand::Sky]
    } else {
        seq![SceneCommand::Frame, SceneCommand::Sky, SceneCommand::Instances]
    }
}

/// A scene's commands, and how many draws are among them besides the sky.
#[derive(Debug)]
pub struct ScenePass {
    pub commands: Vec<SceneCommand>,
    pub draws: u32,
}

/// Whether `pass` draws these runs: the opening, and the runs whose mesh is there,
/// one draw each.
pub open spec fn scene_of(
    pass: ScenePass,
    runs: Seq<InstanceRun>,
    meshes: Set<u64>,
    textures: Set<u64>,
) -> bool {
    let shown = drawable(runs, meshes, runs.len() as int);
    &&& pass.commands@ == opening(runs) + draw_commands(shown, textures, shown.len() as int)
    &&& pass.draws == shown.len()
}

/// The texture to draw a run with.
fn texture_for(run: &InstanceRun, textures: &HashSet<u64>) -> (r: Option<TextureHandle>)
    ensures
        r == bound_texture(*run, textures@),
{
    match run.texture {
        Some(h) => if textures.contains(&h.0) {
            Some(h)
        } else {
            None
        },
        None => None,
    }
}

/// Append what drawing `run` behind `last` takes.
fn push_run(
    commands: &mut Vec<SceneCommand>,
    last: Option<InstanceRun>,
    run: InstanceRun,
    textures: &HashSet<u64>,
)
    requires
        run.first + run.count <= u32::MAX,
    ensures
        final(commands)@ == old(commands)@ + commands_behind(last, run, textures@),
{
    let ghost before = commands@;
    let texture: Option<TextureHandle> = texture_for(&run, textures);
    let (pipeline, bind, mesh): (bool, bool, bool) = match last {
        None => (true, true, true),
        Some(l) => (
            l.variant != run.variant,
            texture_for(&l, textures) != texture,
            l.mesh != run.mesh,
        ),
    };
    if pipeline {
        commands.push(SceneCommand::Pipeline(run.variant));
    }
    if bind {
        commands.push(SceneCommand::Texture(texture));
    }
    if mesh {
        commands.push(SceneCommand::Mesh(run.mesh));
    }
    commands.push(SceneCommand::Draw { first: run.first, end: run.first + run.count });
    proof {
        assert(commands@ =~= before + commands_behind(last, run, textures@));
    }
}

/// Plan the drawing of a scene. `meshes` and `textures` are what is on the GPU.
pub fn encode_scene(
    runs: &Vec<InstanceRun>,
    meshes: &HashSet<u64>,
    textures: &HashSet<u64>,
) -> (r: ScenePass)
    requires
        runs_fit(runs@),
    ensures
        scene_of(r, runs@, meshes@, textures@),
{
    let mut commands: Vec<SceneCommand> = Vec::new();
    commands.push(SceneCommand::Frame);
    commands.push(SceneCommand::Sky);
    if runs.len() > 0 {
        commands.push(SceneCommand::Instances);
    }
    let mut draws: u32 = 0;
    let mut last: Option<InstanceRun> = None;
    let mut i: usize = 0;
    assert(commands@ =~= opening(runs@) + draw_commands(Seq::empty(), textures@, 0));
    while i < runs.len()
        invariant
            i <= runs.len() <= u32::MAX,
            draws <= i,
            draws == drawable(runs@, meshes@, i as int).len(),
            forall|j: int|
                0 <= j < runs@.len() ==> (#[trigger] runs@[j]).first + runs@[j].count <= u32::MAX,
            commands@ == opening(runs@) + draw_commands(
                drawable(runs@, meshes@, i as int),
                textures@,
                draws as int,
            ),
            last == if draws == 0 {
                None
            } else {
                Some(drawable(runs@, meshes@, i as int).last())
            },
        decreases runs.len() - i,
    {
        let run = runs[i];
        if meshes.contains(&run.mesh.0) {
            let ghost before = commands@;
            let ghost shown = drawable(runs@, meshes@, i as int);
            push_run(&mut commands, last, run, textures);
            proof {
                let now = shown.push(run);
                assert(drawable(runs@, meshes@, i + 1) == now);
                draw_commands_of_prefix(shown, run, textures@, draws as int);
                assert(run_commands(now, textures@, draws + 1) == commands_behind(
                    last,
                    run,
                    textures@,
                ));
                assert(before + run_commands(now, textures@, draws + 1) =~= opening(runs@) + (
                draw_commands(now, textures@, draws as int) + run_commands(
                    now,
                    textures@,
                    draws + 1,
                )));
            }
            draws = draws + 1;
            last = Some(run);
        }
        i = i + 1;
    }
    ScenePass { commands, draws }
}

/// A run more leaves the commands of the runs before it as they are.
proof fn draw_commands_of_prefix(
    runs: Seq<InstanceRun>,
    run: InstanceRun,
    textures: Set<u64>,
    n: int,
)
    requires
        0 <= n <= runs.len(),
    ensures
        draw_commands(runs.push(run), textures, n) == draw_commands(runs, textures, n),
    decreases n,
{
    if n > 0 {
        draw_commands_of_prefix(runs, run, textures, n - 1);
        assert(runs.push(run)[n - 1] == runs[n - 1]);
        if n > 1 {
            assert(runs.push(run)[n - 2] == runs[n - 2]);
        }
        assert(run_commands(runs.push(run), textures, n) =~= run_commands(runs, textures, n));
    }
}

/// What is bound at some point of a pass.
pub struct Bound {
    pub pipeline: Option<MaterialVariant>,
    pub texture: Option<Option<TextureHandle>>,
    pub mesh: Option<MeshHandle>,
}

/// What is bound once `commands` are through.
pub open spec fn bound_after(commands: Seq<SceneCommand>) -> Bound
    decreases commands.len(),
{
    if commands.len() == 0 {
        Bound { pipeline: None, texture: None, mesh: None }
    } else {
        let before = bound_after(commands.drop_last());
        match commands.last() {
            SceneCommand::Pipeline(v) => Bound { pipeline: Some(v), ..before },
            SceneCommand::Texture(t) => Bound { texture: Some(t), ..before },
            SceneCommand::Mesh(m) => Bound { mesh: Some(m), ..before },
            _ => before,
        }
    }
}

/// A draw, with what was bound when it was issued.
pub struct SeenDraw {
    pub bound: Bound,
    pub first: u32,
    pub end: u32,
}

/// The draws that `commands` issue.
pub open spec fn draws_seen(commands: Seq<SceneCommand>) -> Seq<SeenDraw>
    decreases commands.len(),
{
    if commands.len() == 0 {
        Seq::empty()
    } else {
        let before = draws_seen(commands.drop_last());
        match commands.last() {
            SceneCommand::Draw { first, end } => before.push(
                SeenDraw { bound: bound_after(commands.drop_last()), first, end },
            ),
            _ => before,
        }
    }
}

/// What drawing a run should look like: everything of its own bound.
pub open spec fn own_draw(run: InstanceRun, textures: Set<u64>) -> SeenDraw {
    SeenDraw {
        bound: Bound {
            pipeline: Some(run.variant),
            texture: Some(bound_texture(run, textures)),
            mesh: Some(run.mesh),
        },
        first: run.first,
        end: (run.first + run.count) as u32,
    }
}

proof fn one_more(commands: Seq<SceneCommand>, c: SceneCommand)
    ensures
        bound_after(commands.push(c)) == (match c {
            SceneCommand::Pipeline(v) => Bound { pipeline: Some(v), ..bound_after(commands) },
            SceneCommand::Texture(t) => Bound { texture: Some(t), ..bound_after(commands) },
            SceneCommand::Mesh(m) => Bound { mesh: Some(m), ..bound_after(commands) },
            _ => bound_after(commands),
        }),
        draws_seen(commands.push(c)) == (match c {
            SceneCommand::Draw { first, end } => draws_seen(commands).push(
                SeenDraw { bound: bound_after(commands), first, end },
            ),
            _ => draws_seen(commands),
        }),
{
    assert(commands.push(c).drop_last() =~= commands);
}

/// Commands that may be none or one, behind others.
proof fn maybe_one(commands: Seq<SceneCommand>, c: SceneCommand, needed: bool)
    ensures
        ({
            let more = commands + (if needed {
                seq![c]
            } else {
                Seq::empty()
            });
            more == (if needed {
                commands.push(c)
            } else {
                commands
            })
        }),
{
    assert(commands + seq![c] =~= commands.push(c));
    assert(commands + Seq::<SceneCommand>::empty() =~= commands);
}

/// Drawing one run behind another draws it with its own bound.
#[verifier::spinoff_prover]
proof fn one_run(
    before: Seq<SceneCommand>,
    last: Option<InstanceRun>,
    run: InstanceRun,
    textures: Set<u64>,
)
    requires
        last matches Some(l) ==> bound_after(before) == own_draw(l, textures).bound,
    ensures
        ({
            let all = before + commands_behind(last, run, textures);
            &&& bound_after(all) == own_draw(run, textures).bound
            &&& draws_seen(all) == draws_seen(before).push(own_draw(run, textures))
        }),
{
    let t = bound_texture(run, textures);
    let pipeline = last is None || last->0.variant != run.variant;
    let bind = last is None || bound_texture(last->0, textures) != t;
    let mesh = last is None || last->0.mesh != run.mesh;
    let draw = SceneCommand::Draw { first: run.first, end: (run.first + run.count) as u32 };
    let none = Seq::<SceneCommand>::empty();
    let p = if pipeline {
        seq![SceneCommand::Pipeline(run.variant)]
    } else {
        none
    };
    let q = if bind {
        seq![SceneCommand::Texture(t)]
    } else {
        none
    };
    let r = if mesh {
        seq![SceneCommand::Mesh(run.mesh)]
    } else {
        none
    };
    maybe_one(before, SceneCommand::Pipeline(run.variant), pipeline);
    maybe_one(before + p, SceneCommand::Texture(t), bind);
    maybe_one(before + p + q, SceneCommand::Mesh(run.mesh), mesh);
    maybe_one(before + p + q + r, draw, true);
    one_more(before, SceneCommand::Pipeline(run.variant));
    one_more(before + p, SceneCommand::Texture(t));
    one_more(before + p + q, SceneCommand::Mesh(run.mesh));
    one_more(before + p + q + r, draw);
    assert(before + commands_behind(last, run, textures) =~= before + p + q + r + seq![draw]);
}

/// Leaving out what is bound already changes nothing: every run is drawn once,
/// in order, with its own pipeline, texture and mesh bound.
#[verifier::spinoff_prover]
pub proof fn every_run_is_drawn_as_its_own(
    runs: Seq<InstanceRun>,
    textures: Set<u64>,
    start: Seq<SceneCommand>,
    n: int,
)
    requires
        0 <= n <= runs.len(),
        draws_seen(start).len() == 0,
    ensures
        draws_seen(start + draw_commands(runs, textures, n)) == Seq::new(
            n as nat,
            |i: int| own_draw(runs[i], textures),
        ),
        n > 0 ==> bound_after(start + draw_commands(runs, textures, n)) == own_draw(
            runs[n - 1],
            textures,
        ).bound,
    decreases n,
{
    let want = Seq::new(n as nat, |i: int| own_draw(runs[i], textures));
    if n == 0 {
        assert(start + draw_commands(runs, textures, n) =~= start);
        assert(draws_seen(start) =~= want);
    } else {
        every_run_is_drawn_as_its_own(runs, textures, start, n - 1);
        let before = start + draw_commands(runs, textures, n - 1);
        let last = if n == 1 {
            None
        } else {
            Some(runs[n - 2])
        };
        one_run(before, last, runs[n - 1], textures);
        assert(start + draw_commands(runs, textures, n) =~= before + commands_behind(
            last,
            runs[n - 1],
            textures,
        ));
        assert(draws_seen(before).push(own_draw(runs[n - 1], textures)) =~= want);
    }
}

/// The scene's opening draws nothing but the sky.
pub proof fn opening_draws_no_run(runs: Seq<InstanceRun>)
    ensures
        draws_seen(opening(runs)).len() == 0,
{
    let e = Seq::<SceneCommand>::empty();
    one_more(e, SceneCommand::Frame);
    one_more(e.push(SceneCommand::Frame), SceneCommand::Sky);
    one_more(e.push(SceneCommand::Frame).push(SceneCommand::Sky), SceneCommand::Instances);
    if runs.len() == 0 {
        assert(opening(runs) =~= e.push(SceneCommand::Frame).push(SceneCommand::Sky));
    } else {
        assert(opening(runs) =~= e.push(SceneCommand::Frame).push(SceneCommand::Sky).push(
            SceneCommand::Instances,
        ));
    }
}

/// A size in pixels.
#[derive(Clone, Copy, Debug, PartialEq, Eq, Structural, Hash)]
pub struct Size {
    pub width: u32,
    pub height: u32,
}

/// A size with neither side zero.
pub open spec fn at_least_one(size: Size) -> Size {
    Size {
        width: if size.width == 0 {
            1
        } else {
            size.width
        },
        height: if size.height == 0 {
            1
        } else {
            size.height
        },
    }
}

impl Size {
    /// This size, with neither side zero.
    pub fn positive(self) -> (r: Size)
        ensures
            r == at_least_one(self),
    {
        Size {
            width: if self.width == 0 {
                1
            } else {
                self.width
            },
            height: if self.height == 0 {
                1
            } else {
                self.height
            },
        }
    }
}

/// One thing to do for a frame.
#[derive(Clone, Copy, Debug, PartialEq, Eq, Structural, Hash)]
pub enum FrameStep {
    /// Make a depth buffer of this size, in place of any other.
    CreateDepth(Size),
    /// Make a scene target of this size, in place of any other with its number. What
    /// was bound for its handle is to be forgotten.
    CreateTarget { target: RenderTarget, size: Size },
    /// Bring a mesh to the GPU.
    UploadMesh(u64),
    /// Bake a texture.
    BakeTexture(u64),
    /// Write the screen's frame block.
    WriteFrame,
    /// Write a scene target's own frame block, with the phase circle at rest.
    WriteTargetFrame(RenderTarget),
    /// Make an instance buffer of this capacity, in place of the one there.
    GrowInstances(u32),
    /// Write this many instances.
    WriteInstances(u32),
    /// Compile a variant's pipeline. The flags in `inert` are declared and draw
    /// nothing, which is worth saying.
    CompilePipeline { variant: MaterialVariant, inert: MaterialVariant },
    /// Compile the fullscreen pass.
    CompileBlit,
    /// Make the internal target of this size, in place of any other.
    CreateOffscreen(Size),
    /// Draw the scene, into the internal target or straight to the screen.
    DrawScene { offscreen: bool },
    /// Draw the internal target to the screen.
    Blit,
    /// Compile the overlay's pass.
    CompileUi,
    /// Draw the overlay.
    DrawUi,
    /// Draw the scene into a scene target.
    DrawTarget(RenderTarget),
    /// Hand everything to the GPU.
    Submit,
}

/// The radius above which the phase circle is open, in bits: a thousandth, as the shaders
/// have it.
pub const PHASE_MIN_RADIUS_BITS: u32 = 0x3a83_126f;

/// The phase circle on the screen.
#[derive(Clone, Copy, Debug, PartialEq, Eq, Structural)]
pub struct PhaseFx {
    /// Where it is, from minus one to one either way, up being more.
    pub center: Vec2,
    /// How large, in halves of the screen's height; none is the circle at rest.
    pub radius: F32,
    /// How much of its edge shows, from zero to one.
    pub strength: F32,
}

/// A phase circle as a frame can have it: no radius below zero, and none that is no
/// number; and a strength from zero to one.
pub open spec fn phase_circle(center: Vec2, radius: F32, strength: F32) -> PhaseFx {
    PhaseFx {
        center,
        radius: if below(F32(0), radius) {
            radius
        } else {
            F32(0)
        },
        strength: clamped(strength, F32(0), F32(ONE_BITS)),
    }
}

/// The time that a frame is drawn at.
#[derive(Clone, Copy, Debug, PartialEq, Eq, Structural)]
pub struct RenderClock {
    /// The host's seconds.
    pub seconds: F32,
    /// How far between two ticks.
    pub alpha: F32,
}

/// What the renderer has put on the GPU, and what it was handed for the next frame.
pub struct Renderer {
    pub instance_capacity: u32,
    pub depth: Option<Size>,
    pub offscreen: Option<Size>,
    /// Whether the fullscreen pass is compiled.
    pub blit: bool,
    /// Whether the overlay's pass is compiled.
    pub ui: bool,
    /// The variants whose pipelines are compiled.
    pub pipelines: HashSet<u32>,
    /// The meshes that are on the GPU.
    pub meshes: HashSet<u64>,
    /// The textures that are on the GPU, the scene targets' among them.
    pub textures: HashSet<u64>,
    /// The offscreen scene targets and their sizes.
    pub targets: HashMap<u32, Size>,
    pub ui_quads: Vec<UiQuad>,
    pub ui_runs: Vec<UiRun>,
    pub ui_atlas: Option<TextureHandle>,
    /// Physical pixels to a logical one.
    pub scale_factor: F32,
    pub phase: PhaseFx,
    pub time: RenderClock,
    /// What the last frame for the screen came to.
    pub stats: DrawStats,
}

/// What a renderer is.
#[verifier::ext_equal]
pub struct RendererView {
    pub instance_capacity: u32,
    pub depth: Option<Size>,
    pub offscreen: Option<Size>,
    pub blit: bool,
    pub ui: bool,
    pub pipelines: Set<u32>,
    pub meshes: Set<u64>,
    pub textures: Set<u64>,
    pub targets: Map<u32, Size>,
    pub ui_quads: Seq<UiQuad>,
    pub ui_runs: Seq<UiRun>,
    pub ui_atlas: Option<TextureHandle>,
    pub scale_factor: F32,
    pub phase: PhaseFx,
    pub time: RenderClock,
    pub stats: DrawStats,
}

impl View for Renderer {
    type V = RendererView;

    open spec fn view(&self) -> RendererView {
        RendererView {
            instance_capacity: self.instance_capacity,
            depth: self.depth,
            offscreen: self.offscreen,
            blit: self.blit,
            ui: self.ui,
            pipelines: self.pipelines@,
            meshes: self.meshes@,
            textures: self.textures@,
            targets: self.targets@,
            ui_quads: self.ui_quads@,
            ui_runs: self.ui_runs@,
            ui_atlas: self.ui_atlas,
            scale_factor: self.scale_factor,
            phase: self.phase,
            time: self.time,
            stats: self.stats,
        }
    }
}

/// The variants to compile for the first `n` runs, each once, in the order they
/// are drawn.
pub open spec fn to_compile(runs: Seq<InstanceRun>, pipelines: Set<u32>, n: int) -> Seq<
    MaterialVariant,
>
    decreases n,
{
    if n <= 0 {
        Seq::empty()
    } else {
        let before = to_compile(runs, pipelines, n - 1);
        let variant = runs[n - 1].variant;
        if pipelines.contains(variant.0) || before.contains(variant) {
            before
        } else {
            before.push(variant)
        }
    }
}

/// The step that compiles a variant.
pub open spec fn compile_step(variant: MaterialVariant) -> FrameStep {
    FrameStep::CompilePipeline {
        variant,
        inert: MaterialVariant(variant.0 & !MaterialVariant::IMPLEMENTED),
    }
}

/// The steps that compile these variants, one each.
pub open spec fn compile_steps(variants: Seq<MaterialVariant>) -> Seq<FrameStep> {
    variants.map_values(|v: MaterialVariant| compile_step(v))
}

/// `pipelines`, and those of the variants of the first `n` runs.
pub open spec fn compiled(pipelines: Set<u32>, runs: Seq<InstanceRun>, n: int) -> Set<u32>
    decreases n,
{
    if n <= 0 {
        pipelines
    } else {
        compiled(pipelines, runs, n - 1).insert(runs[n - 1].variant.0)
    }
}

/// The steps that bring these meshes.
pub open spec fn upload_steps(keys: Seq<u64>) -> Seq<FrameStep> {
    keys.map_values(|key: u64| FrameStep::UploadMesh(key))
}

/// The steps that bake these textures.
pub open spec fn bake_steps(keys: Seq<u64>) -> Seq<FrameStep> {
    keys.map_values(|key: u64| FrameStep::BakeTexture(key))
}

/// `resident`, and these.
pub open spec fn with_all(resident: Set<u64>, keys: Seq<u64>) -> Set<u64>
    decreases keys.len(),
{
    if keys.len() == 0 {
        resident
    } else {
        with_all(resident, keys.drop_last()).insert(keys.last())
    }
}

/// What items that want these still need.
pub open spec fn missing(
    wanted: Seq<Option<u64>>,
    resident: Set<u64>,
    library: Set<u64>,
) -> Seq<u64> {
    to_fetch(wanted, resident, library, wanted.len() as int)
}

/// The step that sees to the depth buffer, where it takes one.
pub open spec fn depth_steps(depth: Option<Size>, size: Size) -> Seq<FrameStep> {
    if depth == Some(size) {
        Seq::empty()
    } else {
        seq![FrameStep::CreateDepth(size)]
    }
}

/// The step that sees to a scene target, where it takes one.
pub open spec fn target_steps(
    targets: Map<u32, Size>,
    target: RenderTarget,
    size: Size,
) -> Seq<FrameStep> {
    if targets.contains_key(target.0) && targets[target.0] == size {
        Seq::empty()
    } else {
        seq![FrameStep::CreateTarget { target, size }]
    }
}

/// The steps that write the instances.
pub open spec fn instance_steps(capacity: u32, visible: u32) -> Seq<FrameStep> {
    (if visible > capacity {
        seq![FrameStep::GrowInstances(grown(capacity, visible))]
    } else {
        Seq::empty()
    }) + (if visible > 0 {
        seq![FrameStep::WriteInstances(visible)]
    } else {
        Seq::empty()
    })
}

/// The steps after the pipelines: the internal target, the scene, the screen and
/// the overlay.
pub open spec fn pass_steps(
    blit: bool,
    offscreen: Option<Size>,
    ui: bool,
    size: Size,
    fullscreen: bool,
    overlay: bool,
) -> Seq<FrameStep> {
    (if fullscreen && !blit {
        seq![FrameStep::CompileBlit]
    } else {
        Seq::empty()
    }) + (if fullscreen && offscreen != Some(size) {
        seq![FrameStep::CreateOffscreen(size)]
    } else {
        Seq::empty()
    }) + seq![FrameStep::DrawScene { offscreen: fullscreen }] + (if fullscreen {
        seq![FrameStep::Blit]
    } else {
        Seq::empty()
    }) + (if overlay && !ui {
        seq![FrameStep::CompileUi]
    } else {
        Seq::empty()
    }) + (if overlay {
        seq![FrameStep::DrawUi]
    } else {
        Seq::empty()
    }) + seq![FrameStep::Submit]
}

/// Whether a frame goes through the internal target: where it is drawn at another
/// size than the screen's, or the phase circle is open.
pub open spec fn goes_fullscreen(screen: Size, drawn: Size, radius: F32) -> bool {
    drawn != at_least_one(screen) || below(F32(PHASE_MIN_RADIUS_BITS), radius)
}

/// The first half of a frame for the screen: what is done before anything is
/// culled.
#[derive(Debug)]
pub struct Opening {
    pub screen: Size,
    /// The size that the scene is drawn at.
    pub drawn: Size,
    /// How many things there are to draw.
    pub items: u32,
    pub steps: Vec<FrameStep>,
    /// The places of the things whose mesh nobody has.
    pub absent: Vec<usize>,
}

/// The first half of a frame for a scene target.
#[derive(Debug)]
pub struct TargetOpening {
    pub target: RenderTarget,
    pub items: u32,
    pub steps: Vec<FrameStep>,
    pub absent: Vec<usize>,
}

/// The second half of a frame: what is done once it is known what can be seen.
#[derive(Debug)]
pub struct FramePlan {
    pub steps: Vec<FrameStep>,
    /// The places of the things that can be seen whose texture nobody has.
    pub absent: Vec<usize>,
    /// How the scene is drawn.
    pub scene: ScenePass,
    /// What the frame came to.
    pub stats: DrawStats,
}

/// A frame begun: the depth buffer is seen to, and every mesh that is asked for is
/// there, whether or not it turns out to be seen.
pub open spec fn opened(
    before: RendererView,
    drawn: Size,
    wanted: Seq<Option<u64>>,
    library: Set<u64>,
) -> RendererView {
    RendererView {
        depth: Some(drawn),
        meshes: with_all(before.meshes, missing(wanted, before.meshes, library)),
        ..before
    }
}

/// A scene target's frame begun.
pub open spec fn target_opened(
    before: RendererView,
    target: RenderTarget,
    size: Size,
    wanted: Seq<Option<u64>>,
    library: Set<u64>,
) -> RendererView {
    RendererView {
        targets: before.targets.insert(target.0, size),
        textures: before.textures.insert(target_handle(target.0).0),
        meshes: with_all(before.meshes, missing(wanted, before.meshes, library)),
        ..before
    }
}

/// A step that there may be.
pub open spec fn step_of(step: Option<FrameStep>) -> Seq<FrameStep> {
    match step {
        Some(s) => seq![s],
        None => Seq::empty(),
    }
}

/// The steps of a frame's second half up to the pipelines: the textures of what
/// can be seen, the frame block where the screen's is written, the instances and the
/// pipelines.
pub open spec fn preparing(
    before: RendererView,
    frame: Seq<FrameStep>,
    wanted: Seq<Option<u64>>,
    library: Set<u64>,
    runs: Seq<InstanceRun>,
) -> Seq<FrameStep> {
    bake_steps(missing(wanted, before.textures, library)) + frame + instance_steps(
        before.instance_capacity,
        wanted.len() as u32,
    ) + compile_steps(to_compile(runs, before.pipelines, runs.len() as int))
}

/// What a frame's second half leaves on the GPU, the passes apart.
pub open spec fn prepared(
    before: RendererView,
    wanted: Seq<Option<u64>>,
    library: Set<u64>,
    runs: Seq<InstanceRun>,
) -> RendererView {
    RendererView {
        textures: with_all(before.textures, missing(wanted, before.textures, library)),
        instance_capacity: grown(before.instance_capacity, wanted.len() as u32),
        pipelines: compiled(before.pipelines, runs, runs.len() as int),
        ..before
    }
}

/// What a frame came to, of `items` things and `visible` that can be seen: what is
/// not left was culled, and every run whose mesh is there is one draw.
pub open spec fn tally(
    items: u32,
    visible: int,
    runs: Seq<InstanceRun>,
    meshes: Set<u64>,
) -> DrawStats {
    DrawStats {
        items,
        culled: (items - visible) as u32,
        instances: visible as u32,
        draws: drawable(runs, meshes, runs.len() as int).len() as u32,
    }
}

/// What the second half of a frame for the screen leaves.
pub open spec fn framed(
    before: RendererView,
    opening: Opening,
    fullscreen: bool,
    wanted: Seq<Option<u64>>,
    library: Set<u64>,
    runs: Seq<InstanceRun>,
) -> RendererView {
    RendererView {
        blit: before.blit || fullscreen,
        offscreen: if fullscreen {
            Some(opening.drawn)
        } else {
            before.offscreen
        },
        ui: before.ui || before.ui_quads.len() > 0,
        stats: tally(opening.items, wanted.len() as int, runs, before.meshes),
        ..prepared(before, wanted, library, runs)
    }
}

/// Runs whose instances can be counted in 32 bits.
pub open spec fn runs_fit(runs: Seq<InstanceRun>) -> bool {
    &&& runs.len() <= u32::MAX
    &&& forall|i: int|
        0 <= i < runs.len() ==> (#[trigger] runs[i]).first + runs[i].count <= u32::MAX
}

/// Whether `after` is the renderer that has taken quads of one texture as its overlay.
pub open spec fn takes_quads(
    before: RendererView,
    quads: Seq<UiQuad>,
    atlas: Option<TextureHandle>,
    after: RendererView,
) -> bool {
    after == (RendererView {
        ui_quads: quads,
        ui_runs: if quads.len() == 0 {
            Seq::<UiRun>::empty()
        } else {
            seq![UiRun { first: 0, count: quads.len() as u32, texture: None }]
        },
        ui_atlas: atlas,
        ..before
    })
}

/// Whether `after` is the renderer that has taken a batch as its overlay.
pub open spec fn takes_batch(
    before: RendererView,
    batch: BatchView,
    after: RendererView,
) -> bool {
    after == (RendererView {
        ui_quads: batch.quads,
        ui_runs: runs_of(batch.switches, batch.quads.len() as int),
        ui_atlas: batch.atlas,
        ..before
    })
}

/// Whether `after` is the renderer that has taken a scale of the screen, if it is one.
pub open spec fn takes_scale(before: RendererView, scale: F32, after: RendererView) -> bool {
    after == (RendererView {
        scale_factor: if magnitude(scale) < INFINITY_BITS && below(F32(0), scale) {
            scale
        } else {
            before.scale_factor
        },
        ..before
    })
}

/// Whether `after` is the renderer with an image on the GPU, and `r` whether that has to
/// be brought.
pub open spec fn uploads_texture(
    before: RendererView,
    handle: TextureHandle,
    after: RendererView,
    r: bool,
) -> bool {
    &&& r == !before.textures.contains(handle.0)
    &&& after == (RendererView { textures: before.textures.insert(handle.0), ..before })
}

/// Whether `after` is the renderer with a variant's pipeline compiled, and `r` what to do
/// for that.
pub open spec fn compiles_pipeline(
    before: RendererView,
    variant: MaterialVariant,
    after: RendererView,
    r: Option<FrameStep>,
) -> bool {
    &&& after == (RendererView { pipelines: before.pipelines.insert(variant.0), ..before })
    &&& r == if before.pipelines.contains(variant.0) {
        None
    } else {
        Some(compile_step(variant))
    }
}

/// Whether `after` is the renderer with a scene target of this size, and `r` its handle
/// and whether it has to be made.
pub open spec fn keeps_target(
    before: RendererView,
    target: RenderTarget,
    size: Size,
    after: RendererView,
    r: (TextureHandle, bool),
) -> bool {
    &&& r.0 == target_handle(target.0)
    &&& r.1 == !(before.targets.contains_key(target.0) && before.targets[target.0]
        == at_least_one(size))
    &&& after == (RendererView {
        targets: before.targets.insert(target.0, at_least_one(size)),
        textures: before.textures.insert(target_handle(target.0).0),
        ..before
    })
}

/// Whether `after` is the renderer without a scene target, and `r` the texture to let go
/// of.
pub open spec fn drops_target(
    before: RendererView,
    target: RenderTarget,
    after: RendererView,
    r: Option<TextureHandle>,
) -> bool {
    &&& r == if before.targets.contains_key(target.0) {
        Some(target_handle(target.0))
    } else {
        None
    }
    &&& after == if before.targets.contains_key(target.0) {
        RendererView {
            targets: before.targets.remove(target.0),
            textures: before.textures.remove(target_handle(target.0).0),
            ..before
        }
    } else {
        before
    }
}

/// Whether `r` begins a frame drawn at `drawn` for a screen of `screen` pixels, and `after`
/// is the renderer then.
pub open spec fn begins(
    before: RendererView,
    screen: Size,
    drawn: Size,
    wanted: Seq<Option<u64>>,
    library: Set<u64>,
    after: RendererView,
    r: Opening,
) -> bool {
    &&& r.screen == screen
    &&& r.drawn == drawn
    &&& r.items == wanted.len()
    &&& r.steps@ == depth_steps(before.depth, drawn) + upload_steps(
        missing(wanted, before.meshes, library),
    )
    &&& r.absent@ == nowhere(wanted, before.meshes, library, wanted.len() as int)
    &&& after == opened(before, drawn, wanted, library)
}

/// Whether `r` begins a frame drawn into `target`, at `size`, and `after` is the renderer
/// then.
pub open spec fn begins_target(
    before: RendererView,
    target: RenderTarget,
    size: Size,
    wanted: Seq<Option<u64>>,
    library: Set<u64>,
    after: RendererView,
    r: TargetOpening,
) -> bool {
    &&& r.target == target
    &&& r.items == wanted.len()
    &&& r.steps@ == target_steps(before.targets, target, size) + upload_steps(
        missing(wanted, before.meshes, library),
    )
    &&& r.absent@ == nowhere(wanted, before.meshes, library, wanted.len() as int)
    &&& after == target_opened(before, target, size, wanted, library)
}

/// Whether `r` is the rest of a frame for the screen, and `after` the renderer then.
pub open spec fn frames(
    before: RendererView,
    opening: Opening,
    wanted: Seq<Option<u64>>,
    library: Set<u64>,
    runs: Seq<InstanceRun>,
    after: RendererView,
    r: FramePlan,
) -> bool {
    let fullscreen = goes_fullscreen(opening.screen, opening.drawn, before.phase.radius);
    &&& r.steps@ == preparing(before, seq![FrameStep::WriteFrame], wanted, library, runs)
        + pass_steps(
        before.blit,
        before.offscreen,
        before.ui,
        opening.drawn,
        fullscreen,
        before.ui_quads.len() > 0,
    )
    &&& r.absent@ == nowhere(wanted, before.textures, library, wanted.len() as int)
    &&& scene_of(r.scene, runs, after.meshes, after.textures)
    &&& r.stats == after.stats
    &&& after == framed(before, opening, fullscreen, wanted, library, runs)
}

/// Whether `r` is the rest of a frame for a scene target, and `after` the renderer then.
pub open spec fn frames_target(
    before: RendererView,
    opening: TargetOpening,
    wanted: Seq<Option<u64>>,
    library: Set<u64>,
    runs: Seq<InstanceRun>,
    after: RendererView,
    r: FramePlan,
) -> bool {
    &&& r.steps@ == preparing(before, Seq::<FrameStep>::empty(), wanted, library, runs) + seq![
        FrameStep::WriteTargetFrame(opening.target),
        FrameStep::DrawTarget(opening.target),
        FrameStep::Submit,
    ]
    &&& r.absent@ == nowhere(wanted, before.textures, library, wanted.len() as int)
    &&& scene_of(r.scene, runs, after.meshes, after.textures)
    &&& r.stats == tally(opening.items, wanted.len() as int, runs, after.meshes)
    &&& after == prepared(before, wanted, library, runs)
}

/// Add keys to a set.
fn add_all(resident: &mut HashSet<u64>, keys: &Vec<u64>)
    ensures
        final(resident)@ == with_all(old(resident)@, keys@),
{
    let ghost before = resident@;
    let mut i: usize = 0;
    assert(keys@.take(0) =~= Seq::<u64>::empty());
    while i < keys.len()
        invariant
            i <= keys.len(),
            resident@ == with_all(before, keys@.take(i as int)),
        decreases keys.len() - i,
    {
        resident.insert(keys[i]);
        proof {
            assert(keys@.take(i + 1).drop_last() =~= keys@.take(i as int));
        }
        i = i + 1;
    }
    assert(keys@.take(i as int) =~= keys@);
}

impl Renderer {
    /// A renderer with nothing on the GPU.
    pub fn new() -> (r: Renderer)
        ensures
            r@ == (RendererView {
                instance_capacity: INITIAL_INSTANCE_CAPACITY,
                depth: None,
                offscreen: None,
                blit: false,
                ui: false,
                pipelines: Set::empty(),
                meshes: Set::empty(),
                textures: Set::empty(),
                targets: Map::empty(),
                ui_quads: Seq::empty(),
                ui_runs: Seq::empty(),
                ui_atlas: None,
                scale_factor: F32(ONE_BITS),
                phase: PhaseFx {
                    center: Vec2 { x: F32(0), y: F32(0) },
                    radius: F32(0),
                    strength: F32(0),
                },
                time: RenderClock { seconds: F32(0), alpha: F32(0) },
                stats: DrawStats { items: 0, culled: 0, instances: 0, draws: 0 },
            }),
    {
        Renderer {
            instance_capacity: INITIAL_INSTANCE_CAPACITY,
            depth: None,
            offscreen: None,
            blit: false,
            ui: false,
            pipelines: HashSet::new(),
            meshes: HashSet::new(),
            textures: HashSet::new(),
            targets: HashMap::new(),
            ui_quads: Vec::new(),
            ui_runs: Vec::new(),
            ui_atlas: None,
            scale_factor: F32(ONE_BITS),
            phase: PhaseFx {
                center: Vec2 { x: F32(0), y: F32(0) },
                radius: F32(0),
                strength: F32(0),
            },
            time: RenderClock { seconds: F32(0), alpha: F32(0) },
            stats: DrawStats { items: 0, culled: 0, instances: 0, draws: 0 },
        }
    }

    /// How many pipelines are compiled.
    pub fn pipeline_count(&self) -> (r: usize)
        ensures
            r == self@.pipelines.len(),
    {
        self.pipelines.len()
    }

    /// The internal target's size, if there is one.
    pub fn scaled_target_size(&self) -> (r: Option<Size>)
        ensures
            r == self@.offscreen,
    {
        self.offscreen
    }

    /// How many quads the overlay has.
    pub fn ui_quad_count(&self) -> (r: usize)
        ensures
            r == self@.ui_quads.len(),
    {
        self.ui_quads.len()
    }

    /// Whether the overlay's pass is compiled.
    pub fn ui_ready(&self) -> (r: bool)
        ensures
            r == self@.ui,
    {
        self.ui
    }

    /// What the last frame for the screen came to.
    pub fn draw_stats(&self) -> (r: DrawStats)
        ensures
            r == self@.stats,
    {
        self.stats
    }

    /// Room for this many instances.
    pub fn instance_capacity(&self) -> (r: u32)
        ensures
            r == self@.instance_capacity,
    {
        self.instance_capacity
    }

    /// Take a batch as the overlay of the frames to come.
    pub fn set_ui_batch(&mut self, batch: &UiBatch)
        requires
            batch@.wf(),
        ensures
            takes_batch(old(self)@, batch@, final(self)@),
    {
        self.ui_quads = batch.quads().clone();
        assert(self.ui_quads@ =~= batch@.quads);
        self.ui_runs = batch.runs();
        self.ui_atlas = batch.atlas();
    }

    /// Take quads of one texture as the overlay of the frames to come.
    pub fn set_ui_quads(&mut self, quads: &Vec<UiQuad>, atlas: Option<TextureHandle>)
        requires
            quads@.len() <= u32::MAX,
        ensures
            takes_quads(old(self)@, quads@, atlas, final(self)@),
    {
        self.ui_quads = quads.clone();
        assert(self.ui_quads@ =~= quads@);
        let mut runs: Vec<UiRun> = Vec::new();
        if quads.len() > 0 {
            runs.push(UiRun { first: 0, count: quads.len() as u32, texture: None });
        }
        self.ui_runs = runs;
        self.ui_atlas = atlas;
    }

    /// Aim the phase circle of the frames to come.
    pub fn set_phase_fx(&mut self, center: Vec2, radius: F32, strength: F32)
        ensures
            final(self)@ == (RendererView {
                phase: phase_circle(center, radius, strength),
                ..old(self)@
            }),
    {
        let open: F32 = if F32(0).lt(radius) {
            radius
        } else {
            F32(0)
        };
        self.phase =
        PhaseFx { center, radius: open, strength: strength.clamp(F32(0), F32(ONE_BITS)) };
    }

    /// The phase circle as the next frame has it.
    pub fn phase_fx(&self) -> (r: PhaseFx)
        ensures
            r == self@.phase,
    {
        self.phase
    }

    /// Set the time that the frames to come are drawn at.
    pub fn set_render_clock(&mut self, seconds: F32, alpha: F32)
        ensures
            final(self)@ == (RendererView { time: RenderClock { seconds, alpha }, ..old(self)@ }),
    {
        self.time = RenderClock { seconds, alpha };
    }

    /// Take the scale of the screen, unless it is no scale at all.
    pub fn set_scale_factor(&mut self, scale_factor: F32)
        ensures
            takes_scale(old(self)@, scale_factor, final(self)@),
    {
        if scale_factor.is_finite() && F32(0).lt(scale_factor) {
            self.scale_factor = scale_factor;
        }
    }

    /// See that an image that a game drew is on the GPU: whether it has to be
    /// brought.
    pub fn upload_ui_atlas(&mut self, handle: TextureHandle) -> (r: bool)
        ensures
            uploads_texture(old(self)@, handle, final(self)@, r),
    {
        if self.textures.contains(&handle.0) {
            proof {
                assert(self.textures@.insert(handle.0) =~= self.textures@);
            }
            return false;
        }
        self.textures.insert(handle.0);
        true
    }

    /// See that a variant's pipeline is compiled: what to do for that, if
    /// anything.
    pub fn ensure_pipeline(&mut self, variant: MaterialVariant) -> (r: Option<FrameStep>)
        ensures
            compiles_pipeline(old(self)@, variant, final(self)@, r),
    {
        if self.pipelines.contains(&variant.0) {
            proof {
                assert(self.pipelines@.insert(variant.0) =~= self.pipelines@);
            }
            return None;
        }
        self.pipelines.insert(variant.0);
        Some(FrameStep::CompilePipeline { variant, inert: variant.unimplemented() })
    }

    /// See that a scene target is there, at this size. The second part of the
    /// result says whether it has to be made; what was bound for its handle is then
    /// to be forgotten.
    pub fn ensure_render_target(&mut self, target: RenderTarget, size: Size) -> (r: (
        TextureHandle,
        bool,
    ))
        ensures
            keeps_target(old(self)@, target, size, final(self)@, r),
    {
        let size = size.positive();
        let handle: TextureHandle = target.handle();
        let there: bool = match self.targets.get(&target.0) {
            Some(s) => *s == size,
            None => false,
        };
        self.textures.insert(handle.0);
        if there {
            proof {
                assert(self.targets@.insert(target.0, size) =~= self.targets@);
            }
            return (handle, false);
        }
        self.targets.insert(target.0, size);
        (handle, true)
    }

    /// The size of a scene target, if there is one.
    pub fn render_target_size(&self, target: RenderTarget) -> (r: Option<Size>)
        ensures
            r == if self@.targets.contains_key(target.0) {
                Some(self@.targets[target.0])
            } else {
                None
            },
    {
        match self.targets.get(&target.0) {
            Some(s) => Some(*s),
            None => None,
        }
    }

    /// Forget a scene target: the texture to let go of, if it was there.
    pub fn drop_render_target(&mut self, target: RenderTarget) -> (r: Option<TextureHandle>)
        ensures
            drops_target(old(self)@, target, final(self)@, r),
    {
        if self.targets.remove(&target.0).is_some() {
            let handle: TextureHandle = target.handle();
            self.textures.remove(&handle.0);
            Some(handle)
        } else {
            proof {
                assert(self.targets@ =~= old(self).targets@);
            }
            None
        }
    }
}

impl Renderer {
    /// Bring what these items' meshes need.
    fn upload_missing_meshes(
        &mut self,
        wanted: &Vec<Option<u64>>,
        library: &HashSet<u64>,
        steps: &mut Vec<FrameStep>,
    ) -> (absent: Vec<usize>)
        ensures
            final(steps)@ == old(steps)@ + upload_steps(
                missing(wanted@, old(self)@.meshes, library@),
            ),
            absent@ == nowhere(wanted@, old(self)@.meshes, library@, wanted@.len() as int),
            final(self)@ == (RendererView {
                meshes: with_all(
                    old(self)@.meshes,
                    missing(wanted@, old(self)@.meshes, library@),
                ),
                ..old(self)@
            }),
    {
        let ghost base = steps@;
        let need: Missing = find_missing(wanted, &self.meshes, library);
        add_all(&mut self.meshes, &need.fetch);
        let mut i: usize = 0;
        assert(base + upload_steps(need.fetch@.take(0)) =~= base);
        while i < need.fetch.len()
            invariant
                i <= need.fetch.len(),
                steps@ == base + upload_steps(need.fetch@.take(i as int)),
            decreases need.fetch.len() - i,
        {
            steps.push(FrameStep::UploadMesh(need.fetch[i]));
            i = i + 1;
            assert(steps@ =~= base + upload_steps(need.fetch@.take(i as int)));
        }
        assert(need.fetch@.take(i as int) =~= need.fetch@);
        need.absent
    }

    /// Bake what these items' textures need.
    fn bake_missing_textures(
        &mut self,
        wanted: &Vec<Option<u64>>,
        library: &HashSet<u64>,
        steps: &mut Vec<FrameStep>,
    ) -> (absent: Vec<usize>)
        ensures
            final(steps)@ == old(steps)@ + bake_steps(
                missing(wanted@, old(self)@.textures, library@),
            ),
            absent@ == nowhere(wanted@, old(self)@.textures, library@, wanted@.len() as int),
            final(self)@ == (RendererView {
                textures: with_all(
                    old(self)@.textures,
                    missing(wanted@, old(self)@.textures, library@),
                ),
                ..old(self)@
            }),
    {
        let ghost base = steps@;
        let need: Missing = find_missing(wanted, &self.textures, library);
        add_all(&mut self.textures, &need.fetch);
        let mut i: usize = 0;
        assert(base + bake_steps(need.fetch@.take(0)) =~= base);
        while i < need.fetch.len()
            invariant
                i <= need.fetch.len(),
                steps@ == base + bake_steps(need.fetch@.take(i as int)),
            decreases need.fetch.len() - i,
        {
            steps.push(FrameStep::BakeTexture(need.fetch[i]));
            i = i + 1;
            assert(steps@ =~= base + bake_steps(need.fetch@.take(i as int)));
        }
        assert(need.fetch@.take(i as int) =~= need.fetch@);
        need.absent
    }

    /// See that every run's pipeline is compiled.
    fn ensure_pipelines(&mut self, runs: &Vec<InstanceRun>, steps: &mut Vec<FrameStep>)
        ensures
            final(steps)@ == old(steps)@ + compile_steps(
                to_compile(runs@, old(self)@.pipelines, runs@.len() as int),
            ),
            final(self)@ == (RendererView {
                pipelines: compiled(old(self)@.pipelines, runs@, runs@.len() as int),
                ..old(self)@
            }),
    {
        let ghost start = self@;
        let ghost pipelines = self.pipelines@;
        let ghost base = steps@;
        let mut i: usize = 0;
        proof {
            assert(base + compile_steps(to_compile(runs@, pipelines, 0)) =~= base);
        }
        while i < runs.len()
            invariant
                i <= runs.len(),
                start == old(self)@,
                pipelines == start.pipelines,
                base == old(steps)@,
                steps@ == base + compile_steps(to_compile(runs@, pipelines, i as int)),
                self@ == (RendererView {
                    pipelines: compiled(pipelines, runs@, i as int),
                    ..start
                }),
            decreases runs.len() - i,
        {
            let variant = runs[i].variant;
            let ghost listed = to_compile(runs@, pipelines, i as int);
            proof {
                compiled_or_listed(pipelines, runs@, i as int, variant);
            }
            let step = self.ensure_pipeline(variant);
            match step {
                Some(s) => {
                    steps.push(s);
                },
                None => {},
            }
            proof {
                assert(compile_steps(listed.push(variant)) =~= compile_steps(listed).push(
                    compile_step(variant),
                ));
                assert(steps@ =~= base + compile_steps(to_compile(runs@, pipelines, i + 1)));
            }
            i = i + 1;
        }
    }

    /// The part of a frame's second half that every frame has, with the step that
    /// writes the frame block where it comes before the instances.
    fn prepare(
        &mut self,
        frame: Option<FrameStep>,
        wanted: &Vec<Option<u64>>,
        library: &HashSet<u64>,
        runs: &Vec<InstanceRun>,
        steps: &mut Vec<FrameStep>,
    ) -> (absent: Vec<usize>)
        requires
            wanted@.len() <= u32::MAX,
            old(steps)@.len() == 0,
        ensures
            final(steps)@ == preparing(old(self)@, step_of(frame), wanted@, library@, runs@),
            absent@ == nowhere(wanted@, old(self)@.textures, library@, wanted@.len() as int),
            final(self)@ == prepared(old(self)@, wanted@, library@, runs@),
    {
        let ghost start = self@;
        let visible: u32 = wanted.len() as u32;
        let absent: Vec<usize> = self.bake_missing_textures(wanted, library, steps);
        let ghost baked = steps@;
        match frame {
            Some(step) => {
                steps.push(step);
            },
            None => {},
        }
        if visible > self.instance_capacity {
            steps.push(FrameStep::GrowInstances(grow(self.instance_capacity, visible)));
        }
        if visible > 0 {
            steps.push(FrameStep::WriteInstances(visible));
        }
        proof {
            assert(baked =~= bake_steps(missing(wanted@, start.textures, library@)));
            assert(steps@ =~= baked + step_of(frame) + instance_steps(
                start.instance_capacity,
                visible,
            ));
        }
        self.instance_capacity = grow(self.instance_capacity, visible);
        self.ensure_pipelines(runs, steps);
        absent
    }

    /// Begin a frame drawn at `drawn` for a screen of `screen` pixels. `wanted` has
    /// the mesh of each thing to draw, before anything is culled: culling needs the
    /// bounds of what is there.
    pub fn begin_scaled(
        &mut self,
        screen: Size,
        drawn: Size,
        wanted: &Vec<Option<u64>>,
        library: &HashSet<u64>,
    ) -> (r: Opening)
        requires
            wanted@.len() <= u32::MAX,
        ensures
            begins(old(self)@, screen, drawn, wanted@, library@, final(self)@, r),
    {
        let mut steps: Vec<FrameStep> = Vec::new();
        if self.depth != Some(drawn) {
            steps.push(FrameStep::CreateDepth(drawn));
        }
        proof {
            assert(steps@ =~= depth_steps(old(self)@.depth, drawn));
        }
        self.depth = Some(drawn);
        let absent: Vec<usize> = self.upload_missing_meshes(wanted, library, &mut steps);
        Opening { screen, drawn, items: wanted.len() as u32, steps, absent }
    }

    /// Begin a frame drawn at the screen's own size.
    pub fn begin(
        &mut self,
        screen: Size,
        wanted: &Vec<Option<u64>>,
        library: &HashSet<u64>,
    ) -> (r: Opening)
        requires
            wanted@.len() <= u32::MAX,
        ensures
            begins(
                old(self)@,
                screen,
                at_least_one(screen),
                wanted@,
                library@,
                final(self)@,
                r,
            ),
    {
        self.begin_scaled(screen, screen.positive(), wanted, library)
    }

    /// Plan the rest of a frame. `wanted` has the texture of each thing that can be
    /// seen, and `runs` has them in the order they are drawn.
    pub fn render_scaled(
        &mut self,
        opening: &Opening,
        wanted: &Vec<Option<u64>>,
        library: &HashSet<u64>,
        runs: &Vec<InstanceRun>,
    ) -> (r: FramePlan)
        requires
            wanted@.len() <= opening.items,
            runs_fit(runs@),
        ensures
            frames(old(self)@, *opening, wanted@, library@, runs@, final(self)@, r),
    {
        let fullscreen: bool = opening.drawn != opening.screen.positive() || F32(
            PHASE_MIN_RADIUS_BITS,
        ).lt(self.phase.radius);
        let overlay: bool = self.ui_quads.len() > 0;
        let visible: u32 = wanted.len() as u32;
        let mut steps: Vec<FrameStep> = Vec::new();
        let absent: Vec<usize> = self.prepare(
            Some(FrameStep::WriteFrame),
            wanted,
            library,
            runs,
            &mut steps,
        );
        let mut passes: Vec<FrameStep> = plan_passes(
            self.blit,
            self.offscreen,
            self.ui,
            opening.drawn,
            fullscreen,
            overlay,
        );
        steps.append(&mut passes);
        if fullscreen {
            self.blit = true;
            self.offscreen = Some(opening.drawn);
        }
        if overlay {
            self.ui = true;
        }
        let scene: ScenePass = encode_scene(runs, &self.meshes, &self.textures);
        let stats = DrawStats {
            items: opening.items,
            culled: opening.items - visible,
            instances: visible,
            draws: scene.draws,
        };
        self.stats = stats;
        FramePlan { steps, absent, scene, stats }
    }

    /// Plan the rest of a frame drawn at the screen's own size.
    pub fn render(
        &mut self,
        opening: &Opening,
        wanted: &Vec<Option<u64>>,
        library: &HashSet<u64>,
        runs: &Vec<InstanceRun>,
    ) -> (r: FramePlan)
        requires
            opening.drawn == at_least_one(opening.screen),
            wanted@.len() <= opening.items,
            runs_fit(runs@),
        ensures
            frames(old(self)@, *opening, wanted@, library@, runs@, final(self)@, r),
    {
        self.render_scaled(opening, wanted, library, runs)
    }

    /// Begin a frame drawn into a scene target.
    pub fn begin_target(
        &mut self,
        target: RenderTarget,
        size: Size,
        wanted: &Vec<Option<u64>>,
        library: &HashSet<u64>,
    ) -> (r: TargetOpening)
        requires
            wanted@.len() <= u32::MAX,
        ensures
            begins_target(
                old(self)@,
                target,
                at_least_one(size),
                wanted@,
                library@,
                final(self)@,
                r,
            ),
    {
        let (_, create): (TextureHandle, bool) = self.ensure_render_target(target, size);
        let mut steps: Vec<FrameStep> = Vec::new();
        if create {
            steps.push(FrameStep::CreateTarget { target, size: size.positive() });
        }
        proof {
            assert(steps@ =~= target_steps(old(self)@.targets, target, at_least_one(size)));
        }
        let absent: Vec<usize> = self.upload_missing_meshes(wanted, library, &mut steps);
        TargetOpening { target, items: wanted.len() as u32, steps, absent }
    }

    /// Plan the rest of a frame drawn into a scene target. The screen's own buffers
    /// and the overlay have no part in it. What it came to is its own: what the last
    /// frame for the screen came to stands.
    pub fn render_to_texture(
        &mut self,
        opening: &TargetOpening,
        wanted: &Vec<Option<u64>>,
        library: &HashSet<u64>,
        runs: &Vec<InstanceRun>,
    ) -> (r: FramePlan)
        requires
            wanted@.len() <= opening.items,
            runs_fit(runs@),
        ensures
            frames_target(old(self)@, *opening, wanted@, library@, runs@, final(self)@, r),
    {
        let visible: u32 = wanted.len() as u32;
        let mut steps: Vec<FrameStep> = Vec::new();
        let absent: Vec<usize> = self.prepare(None, wanted, library, runs, &mut steps);
        let ghost front = steps@;
        steps.push(FrameStep::WriteTargetFrame(opening.target));
        steps.push(FrameStep::DrawTarget(opening.target));
        steps.push(FrameStep::Submit);
        proof {
            assert(steps@ =~= front + seq![
                FrameStep::WriteTargetFrame(opening.target),
                FrameStep::DrawTarget(opening.target),
                FrameStep::Submit,
            ]);
        }
        let scene: ScenePass = encode_scene(runs, &self.meshes, &self.textures);
        let stats = DrawStats {
            items: opening.items,
            culled: opening.items - visible,
            instances: visible,
            draws: scene.draws,
        };
        FramePlan { steps, absent, scene, stats }
    }
}

fn plan_passes(
    blit: bool,
    offscreen: Option<Size>,
    ui: bool,
    size: Size,
    fullscreen: bool,
    overlay: bool,
) -> (r: Vec<FrameStep>)
    ensures
        r@ == pass_steps(blit, offscreen, ui, size, fullscreen, overlay),
{
    let mut steps: Vec<FrameStep> = Vec::new();
    if fullscreen {
        if !blit {
            steps.push(FrameStep::CompileBlit);
        }
        if offscreen != Some(size) {
            steps.push(FrameStep::CreateOffscreen(size));
        }
    }
    steps.push(FrameStep::DrawScene { offscreen: fullscreen });
    if fullscreen {
        steps.push(FrameStep::Blit);
    }
    if overlay {
        if !ui {
            steps.push(FrameStep::CompileUi);
        }
        steps.push(FrameStep::DrawUi);
    }
    steps.push(FrameStep::Submit);
    proof {
        assert(steps@ =~= pass_steps(blit, offscreen, ui, size, fullscreen, overlay));
    }
    steps
}

/// What is compiled is what was, or is listed to be.
pub proof fn compiled_or_listed(
    pipelines: Set<u32>,
    runs: Seq<InstanceRun>,
    n: int,
    variant: MaterialVariant,
)
    requires
        0 <= n <= runs.len(),
    ensures
        compiled(pipelines, runs, n).contains(variant.0) == (pipelines.contains(variant.0)
            || to_compile(runs, pipelines, n).contains(variant)),
    decreases n,
{
    if n > 0 {
        compiled_or_listed(pipelines, runs, n - 1, variant);
        let before = to_compile(runs, pipelines, n - 1);
        let now = to_compile(runs, pipelines, n);
        let v = runs[n - 1].variant;
        assert(v.0 == variant.0 ==> v == variant);
        if now != before {
            assert(now == before.push(v));
            assert(now[before.len() as int] == v);
            if before.contains(variant) {
                let k = before.index_of(variant);
                assert(now[k] == variant);
            }
            if now.contains(variant) && variant != v {
                let k = now.index_of(variant);
                assert(before[k] == variant);
            }
        }
    }
}

/// What was brought is there, and so is what was there.
pub proof fn with_all_holds(resident: Set<u64>, keys: Seq<u64>, key: u64)
    ensures
        with_all(resident, keys).contains(key) == (resident.contains(key) || keys.contains(key)),
    decreases keys.len(),
{
    if keys.len() > 0 {
        let front = keys.drop_last();
        with_all_holds(resident, front, key);
        assert(keys[keys.len() - 1] == keys.last());
        if front.contains(key) {
            assert(keys[front.index_of(key)] == key);
        }
        if keys.contains(key) && key != keys.last() {
            assert(front[keys.index_of(key)] == key);
        }
    }
}

/// Once a frame has begun, the mesh of everything to draw is there, if the library
/// has it: what is culled is judged by bounds that are known.
pub proof fn meshes_are_there_before_culling(
    before: RendererView,
    drawn: Size,
    wanted: Seq<Option<u64>>,
    library: Set<u64>,
    i: int,
)
    requires
        0 <= i < wanted.len(),
        wanted[i] is Some,
        library.contains(wanted[i]->0),
    ensures
        opened(before, drawn, wanted, library).meshes.contains(wanted[i]->0),
{
    let key = wanted[i]->0;
    fetching_is_enough(wanted, before.meshes, library, wanted.len() as int);
    with_all_holds(before.meshes, missing(wanted, before.meshes, library), key);
}

/// A texture is baked for what can be seen and for nothing else.
pub proof fn only_what_is_seen_is_baked(
    before: RendererView,
    wanted: Seq<Option<u64>>,
    library: Set<u64>,
    runs: Seq<InstanceRun>,
    key: u64,
)
    requires
        prepared(before, wanted, library, runs).textures.contains(key),
    ensures
        before.textures.contains(key) || exists|i: int|
            0 <= i < wanted.len() && #[trigger] wanted[i] == Some(key),
{
    let need = missing(wanted, before.textures, library);
    fetching_is_enough(wanted, before.textures, library, wanted.len() as int);
    with_all_holds(before.textures, need, key);
    if need.contains(key) {
        let k = need.index_of(key);
        assert(brought_rightly(wanted, before.textures, library, need[k]));
    }
}

/// What is dropped is no more on the GPU, so that whatever names it is drawn white.
pub proof fn a_dropped_target_is_gone(before: RendererView, target: RenderTarget, run: UiRun)
    requires
        run.texture == Some(target_handle(target.0)),
    ensures
        key_of(
            run,
            before.ui_atlas,
            before.textures.remove(target_handle(target.0).0),
        ) is None,
{
}

/// A phase circle is one that a frame can have whatever was asked for, and one that is
/// such is left alone. A strength that is no number stays that.
pub proof fn a_phase_circle_stays(center: Vec2, radius: F32, strength: F32)
    ensures
        ({
            let c = phase_circle(center, radius, strength);
            &&& !crate::float::is_nan(c.radius) && !below(c.radius, F32(0))
            &&& !below(c.strength, F32(0)) && !below(F32(ONE_BITS), c.strength)
            &&& phase_circle(c.center, c.radius, c.strength) == c
            &&& c.center == center
            &&& below(F32(0), radius) ==> c.radius == radius
            &&& !below(F32(0), radius) ==> c.radius == F32(0)
            &&& !below(strength, F32(0)) && !below(F32(ONE_BITS), strength) ==> c.strength
                == strength
            &&& below(strength, F32(0)) ==> c.strength == F32(0)
            &&& below(F32(ONE_BITS), strength) ==> c.strength == F32(ONE_BITS)
        }),
{
}

/// A frame at the screen's own size, with the phase circle at rest, is drawn
/// straight to the screen: there is no internal target and nothing to copy.
pub proof fn native_frames_go_straight_to_the_screen(
    screen: Size,
    radius: F32,
    blit: bool,
    offscreen: Option<Size>,
    ui: bool,
    overlay: bool,
)
    requires
        !below(F32(PHASE_MIN_RADIUS_BITS), radius),
    ensures
        ({
            let drawn = at_least_one(screen);
            let steps = pass_steps(
                blit,
                offscreen,
                ui,
                drawn,
                goes_fullscreen(screen, drawn, radius),
                overlay,
            );
            &&& steps[0] == FrameStep::DrawScene { offscreen: false }
            &&& forall|i: int|
                0 <= i < steps.len() ==> (#[trigger] steps[i]) !is Blit && steps[i] !is CompileBlit
                    && steps[i] !is CreateOffscreen
        }),
{
}

/// A frame is one submission, and the overlay is the last thing in it: whatever
/// is done to the scene on its way to the screen is done before. An empty overlay
/// takes nothing at all.
pub proof fn the_overlay_comes_last(
    blit: bool,
    offscreen: Option<Size>,
    ui: bool,
    size: Size,
    fullscreen: bool,
    overlay: bool,
)
    ensures
        ({
            let steps = pass_steps(blit, offscreen, ui, size, fullscreen, overlay);
            let last = steps.len() - 1;
            &&& steps[last] == FrameStep::Submit
            &&& forall|i: int| 0 <= i < last ==> (#[trigger] steps[i]) !is Submit
            &&& overlay ==> steps[last - 1] == FrameStep::DrawUi
            &&& !overlay ==> forall|i: int|
                0 <= i < steps.len() ==> (#[trigger] steps[i]) !is DrawUi && steps[i] !is CompileUi
        }),
{
}

/// A second frame like the first compiles and makes nothing: it writes, draws
/// and submits.
pub proof fn a_settled_frame_makes_nothing(
    pipelines: Set<u32>,
    runs: Seq<InstanceRun>,
    capacity: u32,
    size: Size,
    visible: u32,
    fullscreen: bool,
    overlay: bool,
    n: int,
)
    requires
        0 <= n <= runs.len(),
        forall|i: int| 0 <= i < runs.len() ==> pipelines.contains((#[trigger] runs[i]).variant.0),
        visible <= capacity,
    ensures
        to_compile(runs, pipelines, n) == Seq::<MaterialVariant>::empty(),
        depth_steps(Some(size), size) == Seq::<FrameStep>::empty(),
        instance_steps(capacity, visible) == if visible > 0 {
            seq![FrameStep::WriteInstances(visible)]
        } else {
            Seq::<FrameStep>::empty()
        },
        pass_steps(true, Some(size), true, size, fullscreen, overlay) == seq![
            FrameStep::DrawScene { offscreen: fullscreen },
        ] + (if fullscreen {
            seq![FrameStep::Blit]
        } else {
            Seq::empty()
        }) + (if overlay {
            seq![FrameStep::DrawUi]
        } else {
            Seq::empty()
        }) + seq![FrameStep::Submit],
    decreases n,
{
    if n > 0 {
        a_settled_frame_makes_nothing(
            pipelines,
            runs,
            capacity,
            size,
            visible,
            fullscreen,
            overlay,
            n - 1,
        );
        assert(pipelines.contains(runs[n - 1].variant.0));
    }
    assert(pass_steps(true, Some(size), true, size, fullscreen, overlay) =~= seq![
        FrameStep::DrawScene { offscreen: fullscreen },
    ] + (if fullscreen {
        seq![FrameStep::Blit]
    } else {
        Seq::empty()
    }) + (if overlay {
        seq![FrameStep::DrawUi]
    } else {
        Seq::empty()
    }) + seq![FrameStep::Submit]);
}

} // verus!
