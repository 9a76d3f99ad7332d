use std::collections::HashSet;

use runt_core::float::{F32, Vec2, Vec4};
use runt_core::material::MaterialVariant;
use runt_core::registry::MeshHandle;
use runt_core::render::{
    encode_scene, find_missing, FrameStep, InstanceRun, PhaseFx, RenderTarget, Renderer, SceneCommand, Size,
    INITIAL_INSTANCE_CAPACITY, PHASE_MIN_RADIUS_BITS,
};
use runt_core::texture::TextureHandle;
use runt_core::ui::{UiBatch, UiQuad, UiRun};

fn f(v: f32) -> F32 {
    F32(v.to_bits())
}

fn v2(x: f32, y: f32) -> Vec2 {
    Vec2 { x: f(x), y: f(y) }
}

fn size(width: u32, height: u32) -> Size {
    Size { width, height }
}

fn set(keys: &[u64]) -> HashSet<u64> {
    keys.iter().copied().collect()
}

fn run(variant: u32, mesh: u64, texture: Option<u64>, first: u32, count: u32) -> InstanceRun {
    InstanceRun { variant: MaterialVariant(variant), mesh: MeshHandle(mesh), texture: texture.map(TextureHandle), first, count }
}

#[test]
fn what_is_missing_is_brought_once() {
    let wanted = vec![Some(1), Some(2), None, Some(2), Some(3), Some(4)];
    let missing = find_missing(&wanted, &set(&[1]), &set(&[1, 2, 3]));
    assert_eq!(missing.fetch, [2, 3]);
    assert_eq!(missing.absent, [5]);
}

#[test]
fn a_scene_binds_only_what_changes() {
    let runs = vec![run(1, 10, Some(7), 0, 2), run(1, 10, Some(8), 2, 1), run(1, 11, None, 3, 1), run(2, 99, None, 4, 4)];
    let pass = encode_scene(&runs, &set(&[10, 11]), &set(&[7]));
    assert_eq!(
        pass.commands,
        vec![
            SceneCommand::Frame,
            SceneCommand::Sky,
            SceneCommand::Instances,
            SceneCommand::Pipeline(MaterialVariant(1)),
            SceneCommand::Texture(Some(TextureHandle(7))),
            SceneCommand::Mesh(MeshHandle(10)),
            SceneCommand::Draw { first: 0, end: 2 },
            SceneCommand::Texture(None),
            SceneCommand::Draw { first: 2, end: 3 },
            SceneCommand::Mesh(MeshHandle(11)),
            SceneCommand::Draw { first: 3, end: 4 },
        ]
    );
    assert_eq!(pass.draws, 3);
    assert_eq!(encode_scene(&vec![], &set(&[]), &set(&[])).commands, vec![SceneCommand::Frame, SceneCommand::Sky]);
}

/// A frame of so many things, of which so many can be seen, none with a texture.
fn frame(
    renderer: &mut Renderer,
    screen: Size,
    drawn: Size,
    radius: f32,
    items: usize,
    visible: usize,
    runs: &Vec<InstanceRun>,
) -> Vec<FrameStep> {
    let library = set(&[1]);
    let opening = renderer.begin_scaled(screen, drawn, &vec![Some(1); items], &library);
    renderer.set_phase_fx(v2(0.0, 0.0), f(radius), f(1.0));
    let plan = renderer.render_scaled(&opening, &vec![None; visible], &library, runs);
    [opening.steps, plan.steps].concat()
}

#[test]
fn a_first_frame_makes_what_it_needs_and_a_second_makes_nothing() {
    let mut renderer = Renderer::new();
    assert_eq!(renderer.instance_capacity(), INITIAL_INSTANCE_CAPACITY);
    let runs = vec![run(4, 1, None, 0, 20), run(1, 1, None, 20, 20), run(4, 2, None, 40, 0)];
    let screen = size(100, 50);
    let steps = frame(&mut renderer, screen, screen, 0.0, 50, 40, &runs);
    assert_eq!(
        steps,
        vec![
            FrameStep::CreateDepth(screen),
            FrameStep::UploadMesh(1),
            FrameStep::WriteFrame,
            FrameStep::GrowInstances(64),
            FrameStep::WriteInstances(40),
            FrameStep::CompilePipeline {
                variant: MaterialVariant(4),
                inert: MaterialVariant(MaterialVariant::RAMP),
            },
            FrameStep::CompilePipeline { variant: MaterialVariant(1), inert: MaterialVariant(0) },
            FrameStep::DrawScene { offscreen: false },
            FrameStep::Submit,
        ]
    );
    assert_eq!(renderer.pipeline_count(), 2);
    let stats = renderer.draw_stats();
    assert_eq!((stats.items, stats.culled, stats.instances, stats.draws), (50, 10, 40, 2));

    let again = frame(&mut renderer, screen, screen, 0.0, 50, 40, &runs);
    assert_eq!(
        again,
        vec![
            FrameStep::WriteFrame,
            FrameStep::WriteInstances(40),
            FrameStep::DrawScene { offscreen: false },
            FrameStep::Submit,
        ]
    );
}

#[test]
fn meshes_come_before_culling_and_textures_after() {
    let mut renderer = Renderer::new();
    let library = set(&[1, 2, 7, 8]);
    let screen = size(4, 4);
    let opening = renderer.begin(screen, &vec![Some(1), Some(2), Some(3)], &library);
    assert_eq!(opening.steps, vec![FrameStep::CreateDepth(screen), FrameStep::UploadMesh(1), FrameStep::UploadMesh(2)]);
    assert_eq!(opening.absent, [2]);
    // The second thing is culled, so that its texture is not baked.
    let wanted = vec![Some(7), Some(9)];
    let runs = vec![run(1, 1, Some(7), 0, 1), run(1, 3, Some(9), 1, 1)];
    let plan = renderer.render(&opening, &wanted, &library, &runs);
    assert_eq!(plan.steps[..3], [FrameStep::BakeTexture(7), FrameStep::WriteFrame, FrameStep::WriteInstances(2)]);
    assert_eq!(plan.absent, [1]);
    assert_eq!(plan.scene.draws, 1);
    assert!(plan.scene.commands.contains(&SceneCommand::Texture(Some(TextureHandle(7)))));
    assert_eq!((plan.stats.items, plan.stats.culled, plan.stats.draws), (3, 1, 1));
    assert!(renderer.meshes.contains(&2) && !renderer.textures.contains(&8));
}

#[test]
fn a_scaled_frame_and_an_open_circle_go_through_the_internal_target() {
    let mut renderer = Renderer::new();
    let small = size(50, 25);
    let steps = frame(&mut renderer, size(100, 50), small, 0.0, 0, 0, &vec![]);
    assert_eq!(
        steps,
        vec![
            FrameStep::CreateDepth(small),
            FrameStep::WriteFrame,
            FrameStep::CompileBlit,
            FrameStep::CreateOffscreen(small),
            FrameStep::DrawScene { offscreen: true },
            FrameStep::Blit,
            FrameStep::Submit,
        ]
    );
    assert_eq!(renderer.scaled_target_size(), Some(small));
    let circle = frame(&mut renderer, small, small, 3.0, 0, 0, &vec![]);
    assert!(circle.contains(&FrameStep::Blit));
    let plain = frame(&mut renderer, small, small, 0.0, 0, 0, &vec![]);
    assert_eq!(plain, vec![FrameStep::WriteFrame, FrameStep::DrawScene { offscreen: false }, FrameStep::Submit]);
}

#[test]
fn a_scene_target_is_made_once_and_leaves_the_screen_alone() {
    let mut renderer = Renderer::new();
    let target = RenderTarget(3);
    let (handle, made) = renderer.ensure_render_target(target, size(0, 8));
    assert_eq!((handle, made), (target.handle(), true));
    assert_eq!(renderer.render_target_size(target), Some(size(1, 8)));
    assert!(!renderer.ensure_render_target(target, size(1, 8)).1);
    let before = renderer.draw_stats();
    let library = set(&[1]);
    let opening = renderer.begin_target(target, size(2, 2), &vec![Some(1), Some(1)], &library);
    assert_eq!(
        opening.steps,
        vec![FrameStep::CreateTarget { target, size: size(2, 2) }, FrameStep::UploadMesh(1)]
    );
    let plan = renderer.render_to_texture(&opening, &vec![None], &library, &vec![run(1, 1, None, 0, 1)]);
    assert_eq!(
        plan.steps,
        vec![
            FrameStep::WriteInstances(1),
            FrameStep::CompilePipeline { variant: MaterialVariant(1), inert: MaterialVariant(0) },
            FrameStep::WriteTargetFrame(target),
            FrameStep::DrawTarget(target),
            FrameStep::Submit,
        ]
    );
    let stats = plan.stats;
    assert_eq!((stats.items, stats.culled, stats.instances, stats.draws), (2, 1, 1, 1));
    assert_eq!(renderer.draw_stats(), before);
    assert!(renderer.textures.contains(&handle.0));
    assert_eq!(renderer.drop_render_target(target), Some(target.handle()));
    assert!(!renderer.textures.contains(&handle.0));
    assert_eq!(renderer.drop_render_target(target), None);
    assert_eq!(renderer.render_target_size(target), None);
}

#[test]
fn an_overlay_is_drawn_last_and_only_where_there_is_one() {
    let mut renderer = Renderer::new();
    let mut batch = UiBatch::new();
    batch.solid(Vec4::zero(), Vec4::one(), |a: F32, _: F32| a);
    renderer.set_ui_batch(&batch);
    assert_eq!(renderer.ui_quad_count(), 1);
    assert!(!renderer.ui_ready());
    let screen = size(4, 4);
    let steps = frame(&mut renderer, screen, screen, 0.0, 0, 0, &vec![]);
    assert_eq!(
        steps[2..],
        [
            FrameStep::DrawScene { offscreen: false },
            FrameStep::CompileUi,
            FrameStep::DrawUi,
            FrameStep::Submit,
        ]
    );
    assert!(renderer.ui_ready());
    renderer.set_ui_quads(&batch.quads, Some(TextureHandle(2)));
    assert_eq!(renderer.ui_runs, vec![UiRun { first: 0, count: 1, texture: None }]);
    assert_eq!(renderer.ui_atlas, Some(TextureHandle(2)));
    renderer.set_ui_quads(&vec![], None);
    assert!(renderer.ui_runs.is_empty());
}

#[test]
fn a_scale_that_is_none_is_not_taken() {
    let mut renderer = Renderer::new();
    renderer.set_scale_factor(f(2.0));
    for bad in [0.0, -1.0, f32::NAN, f32::INFINITY] {
        renderer.set_scale_factor(f(bad));
        assert_eq!(renderer.scale_factor, f(2.0), "{bad}");
    }
}

#[test]
fn a_native_frame_goes_straight_to_the_screen() {
    let mut renderer = Renderer::new();
    let library = set(&[]);
    let opening = renderer.begin(size(0, 8), &vec![], &library);
    assert_eq!(opening.steps, vec![FrameStep::CreateDepth(size(1, 8))]);
    let plan = renderer.render(&opening, &vec![], &library, &vec![]);
    assert_eq!(
        plan.steps,
        vec![FrameStep::WriteFrame, FrameStep::DrawScene { offscreen: false }, FrameStep::Submit]
    );
    assert_eq!(renderer.scaled_target_size(), None);
}

#[test]
fn the_overlay_is_drawn_over_the_copy() {
    let mut renderer = Renderer::new();
    renderer.set_ui_quads(&vec![UiQuad::solid(Vec4::zero(), Vec4::one(), |a: F32, _: F32| a)], None);
    let steps = frame(&mut renderer, size(8, 8), size(4, 4), 0.0, 0, 0, &vec![]);
    assert_eq!(steps[steps.len() - 4..], [FrameStep::Blit, FrameStep::CompileUi, FrameStep::DrawUi, FrameStep::Submit]);
}

#[test]
fn an_image_is_brought_once() {
    let mut renderer = Renderer::new();
    assert!(renderer.upload_ui_atlas(TextureHandle(4)));
    assert!(!renderer.upload_ui_atlas(TextureHandle(4)));
}

#[test]
fn a_phase_circle_is_one_that_a_frame_can_have() {
    let mut renderer = Renderer::new();
    let at_rest = PhaseFx { center: v2(0.0, 0.0), radius: f(0.0), strength: f(0.0) };
    assert_eq!(renderer.phase_fx(), at_rest);
    renderer.set_phase_fx(v2(0.5, -0.5), f(0.25), f(0.75));
    assert_eq!(renderer.phase_fx(), PhaseFx { center: v2(0.5, -0.5), radius: f(0.25), strength: f(0.75) });
    renderer.set_phase_fx(v2(3.0, 0.0), f(-1.0), f(2.0));
    assert_eq!(renderer.phase_fx(), PhaseFx { center: v2(3.0, 0.0), radius: f(0.0), strength: f(1.0) });
    renderer.set_phase_fx(v2(0.0, 0.0), f(f32::NAN), f(-1.0));
    assert_eq!(renderer.phase_fx(), at_rest);
    assert_eq!(PHASE_MIN_RADIUS_BITS, 0.001f32.to_bits());
    renderer.set_render_clock(f(12.5), f(0.5));
    assert_eq!((renderer.time.seconds, renderer.time.alpha), (f(12.5), f(0.5)));
}

#[test]
fn a_circle_no_larger_than_the_least_is_not_open() {
    let library = set(&[]);
    for (radius, open) in [(0.0, false), (0.001, false), (0.0011, true), (f32::INFINITY, true)] {
        let mut renderer = Renderer::new();
        renderer.set_phase_fx(v2(0.0, 0.0), f(radius), f(1.0));
        let opening = renderer.begin(size(8, 8), &vec![], &library);
        let plan = renderer.render(&opening, &vec![], &library, &vec![]);
        assert_eq!(plan.steps.contains(&FrameStep::Blit), open, "{radius}");
    }
}
