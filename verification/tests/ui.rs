use std::collections::HashSet;

use runt_core::float::{F32, Vec4};
use runt_core::gpu::quad_layout;
use runt_core::texture::TextureHandle;
use runt_core::ui::{
    buffer_size, grow, UiAtlasImage, UiAtlases, UiBatch, UiCommand, UiPass, UiQuad, UiRun, INITIAL_QUAD_CAPACITY,
    QUAD_STRIDE, SOLID_BITS, UNIFORM_SIZE,
};

fn f(v: f32) -> F32 {
    F32(v.to_bits())
}

fn v4(a: [f32; 4]) -> Vec4 {
    Vec4 { x: f(a[0]), y: f(a[1]), z: f(a[2]), w: f(a[3]) }
}

fn times(a: F32, b: F32) -> F32 {
    f(f32::from_bits(a.0) * f32::from_bits(b.0))
}

fn floats(v: Vec4) -> [f32; 4] {
    [f32::from_bits(v.x.0), f32::from_bits(v.y.0), f32::from_bits(v.z.0), f32::from_bits(v.w.0)]
}

#[test]
fn straight_alpha_converts_to_premultiplied() {
    let rgba = |color| floats(UiQuad::rgba(v4(color), times));
    assert_eq!(rgba([1.0, 0.5, 0.0, 1.0]), [1.0, 0.5, 0.0, 1.0]);
    assert_eq!(rgba([1.0, 0.5, 0.0, 0.5]), [0.5, 0.25, 0.0, 0.5]);
    // Fully transparent is the zero vector whatever colour it claims — the
    // property that makes "nothing" and "invisible black" composite alike.
    assert_eq!(rgba([1.0, 1.0, 1.0, 0.0]), [0.0, 0.0, 0.0, 0.0]);
    let mut batch = UiBatch::new();
    batch.solid(v4([0.0; 4]), v4([1.0, 0.5, 0.0, 0.5]), times);
    batch.textured(v4([0.0; 4]), v4([0.0; 4]), v4([0.0, 1.0, 1.0, 0.25]), times);
    assert_eq!(floats(batch.quads[0].color), [0.5, 0.25, 0.0, 0.5]);
    assert_eq!(floats(batch.quads[1].color), [0.0, 0.25, 0.25, 0.25]);
}

#[test]
fn a_bracket_round_no_quad_is_folded() {
    let mut batch = UiBatch::new();
    batch.solid(v4([0.0, 0.0, 1.0, 1.0]), v4([1.0; 4]), times);
    batch.set_texture(Some(TextureHandle(9)));
    batch.set_texture(None);
    batch.solid(v4([0.0, 0.0, 1.0, 1.0]), v4([1.0; 4]), times);
    assert_eq!(batch.runs(), vec![UiRun { first: 0, count: 2, texture: None }]);
    // Round something, it stays.
    batch.set_texture(Some(TextureHandle(9)));
    batch.solid(v4([0.0, 0.0, 1.0, 1.0]), v4([1.0; 4]), times);
    batch.set_texture(Some(TextureHandle(8)));
    batch.set_texture(Some(TextureHandle(9)));
    assert_eq!(batch.texture(), Some(TextureHandle(9)));
    batch.set_texture(None);
    batch.solid(v4([0.0, 0.0, 1.0, 1.0]), v4([1.0; 4]), times);
    let textures: Vec<Option<TextureHandle>> = batch.runs().iter().map(|r| r.texture).collect();
    assert_eq!(textures, [None, Some(TextureHandle(9)), None]);
}

#[test]
fn a_texture_that_is_gone_is_white_and_one_that_is_replaced_is_bound_anew() {
    let mut pass = UiPass::new();
    let here: HashSet<u64> = [5u64].into_iter().collect();
    let runs = vec![UiRun { first: 0, count: 1, texture: Some(TextureHandle(5)) }];
    assert!(pass.encode(1, &runs, None, &here).steps[0].bind);
    assert!(!pass.encode(1, &runs, None, &here).steps[0].bind);
    let gone = pass.encode(1, &runs, None, &HashSet::new());
    assert_eq!(gone.commands[0], UiCommand::Bind(None));
    assert!(gone.steps[0].warn);
    assert!(pass.encode(1, &runs, None, &here).steps[0].bind);
    pass.forget(TextureHandle(5));
    assert!(pass.encode(1, &runs, None, &here).steps[0].bind);
}

#[test]
fn a_solid_quad_carries_the_sentinel_and_a_textured_one_does_not() {
    let solid = UiQuad::solid(v4([0.0, 0.0, 8.0, 8.0]), v4([1.0; 4]), times);
    assert_eq!(solid.uv, v4([-1.0; 4]));
    assert_eq!(SOLID_BITS, (-1.0f32).to_bits());
    assert!(floats(solid.uv).iter().all(|u| *u < 0.0), "the shader tests uv.x < 0");

    let glyph = UiQuad::textured(v4([0.0, 0.0, 8.0, 8.0]), v4([0.0, 0.0, 0.25, 0.25]), v4([1.0; 4]), times);
    assert!(floats(glyph.uv)[0] >= 0.0);
}

#[test]
fn the_batch_is_painters_order_and_clears_without_losing_its_atlas() {
    let mut batch = UiBatch::new();
    batch.atlas = Some(TextureHandle(7));
    batch.solid(v4([0.0, 0.0, 1.0, 1.0]), v4([1.0, 0.0, 0.0, 1.0]), times);
    batch.solid(v4([0.0, 0.0, 1.0, 1.0]), v4([0.0, 1.0, 0.0, 1.0]), times);
    assert_eq!(batch.len(), 2);
    // Index order *is* draw order: the green quad is on top.
    assert_eq!(batch.quads[1].color, v4([0.0, 1.0, 0.0, 1.0]));

    batch.clear();
    assert!(batch.is_empty());
    assert_eq!(batch.atlas, Some(TextureHandle(7)), "the atlas is set once");
}

#[test]
fn a_batch_that_never_switches_texture_is_one_run() {
    let mut batch = UiBatch::new();
    assert_eq!(batch.runs().len(), 0, "an empty batch draws nothing");

    batch.solid(v4([0.0, 0.0, 1.0, 1.0]), v4([1.0; 4]), times);
    batch.textured(v4([0.0, 0.0, 1.0, 1.0]), v4([0.0, 0.0, 1.0, 1.0]), v4([1.0; 4]), times);
    let runs: Vec<UiRun> = batch.runs();
    assert_eq!(runs, vec![UiRun { first: 0, count: 2, texture: None }], "one texture is one draw");
}

#[test]
fn texture_runs_partition_the_batch_in_painters_order() {
    let viewport = TextureHandle::render_target(0);
    let mut batch = UiBatch::new();
    batch.atlas = Some(TextureHandle(7));

    // A panel, a viewport quad, a caption over it: the demo-card layout,
    // which is the whole reason runs exist.
    batch.solid(v4([0.0, 0.0, 100.0, 60.0]), v4([0.0, 0.0, 0.0, 1.0]), times);
    batch.set_texture(Some(viewport));
    batch.textured(v4([4.0, 4.0, 92.0, 40.0]), v4([0.0, 0.0, 1.0, 1.0]), v4([1.0; 4]), times);
    batch.set_texture(None);
    batch.textured(v4([8.0, 48.0, 8.0, 8.0]), v4([0.0, 0.0, 0.1, 0.1]), v4([1.0; 4]), times);
    batch.textured(v4([16.0, 48.0, 8.0, 8.0]), v4([0.1, 0.0, 0.2, 0.1]), v4([1.0; 4]), times);

    let run = |first, count, texture| UiRun { first, count, texture };
    let runs: Vec<UiRun> = batch.runs();
    let want = vec![run(0, 1, None), run(1, 1, Some(viewport)), run(2, 2, None)];
    assert_eq!(runs, want);
    // A partition: consecutive, gapless, covering every quad exactly once.
    let covered: u32 = runs.iter().map(|r| r.count).sum();
    assert_eq!(covered, batch.len() as u32);
    let ends = |run: &UiRun| run.first + run.count;
    assert!(runs.windows(2).all(|w| ends(&w[0]) == w[1].first), "the runs leave a gap or overlap: {runs:?}");

    batch.clear();
    assert_eq!(batch.runs().len(), 0, "the runs go with their quads");
    assert_eq!(batch.texture(), None, "…and so does the current texture");
}

#[test]
fn switching_to_the_same_texture_costs_no_run() {
    let handle = TextureHandle::render_target(3);
    let mut batch = UiBatch::new();
    // Bracketing every widget with a `set_texture` is a legitimate way to
    // write a layout, and it must not turn one draw into five.
    batch.set_texture(Some(handle));
    batch.set_texture(Some(handle));
    batch.solid(v4([0.0, 0.0, 1.0, 1.0]), v4([1.0; 4]), times);
    batch.set_texture(Some(handle));
    batch.solid(v4([0.0, 0.0, 1.0, 1.0]), v4([1.0; 4]), times);
    assert_eq!(batch.runs().len(), 1);

    // Switches with nothing between them collapse to the last one — the
    // earlier value never applied to a quad.
    batch.set_texture(None);
    batch.set_texture(Some(TextureHandle(9)));
    batch.solid(v4([0.0, 0.0, 1.0, 1.0]), v4([1.0; 4]), times);
    let runs: Vec<UiRun> = batch.runs();
    assert_eq!(runs.len(), 2, "{runs:?}");
    assert_eq!(runs[1].texture, Some(TextureHandle(9)));
    assert_eq!(runs[1].first, 2);
}

#[test]
fn the_quad_is_the_size_the_layout_claims() {
    assert_eq!(std::mem::size_of::<UiQuad>(), 48);
    assert_eq!(quad_layout().stride, 48);
    assert_eq!(QUAD_STRIDE, 48);
    assert_eq!(UNIFORM_SIZE, 16);
}

#[test]
fn an_atlas_is_bound_once_and_complained_about_once() {
    let mut atlases = UiAtlases::new();
    let here: HashSet<u64> = [5u64].into_iter().collect();
    let bound = atlases.ensure_atlas(Some(TextureHandle(5)), &here);
    assert_eq!((bound.key, bound.bind, bound.warn), (Some(TextureHandle(5)), true, false));
    let again = atlases.ensure_atlas(Some(TextureHandle(5)), &here);
    assert_eq!((again.key, again.bind, again.warn), (Some(TextureHandle(5)), false, false));
    let missing = atlases.ensure_atlas(Some(TextureHandle(6)), &here);
    assert_eq!((missing.key, missing.bind, missing.warn), (None, false, true));
    let quiet = atlases.ensure_atlas(Some(TextureHandle(6)), &here);
    assert_eq!((quiet.key, quiet.bind, quiet.warn), (None, false, false));
    let none = atlases.ensure_atlas(None, &here);
    assert_eq!((none.key, none.bind, none.warn), (None, false, false));
}

#[test]
fn every_run_is_drawn_with_the_texture_it_asks_for() {
    let mut pass = UiPass::new();
    assert_eq!(pass.capacity(), INITIAL_QUAD_CAPACITY);
    let here: HashSet<u64> = [7u64, 9].into_iter().collect();
    let runs = vec![
        UiRun { first: 0, count: 1, texture: None },
        UiRun { first: 1, count: 2, texture: Some(TextureHandle(9)) },
        UiRun { first: 3, count: 4, texture: Some(TextureHandle(9)) },
        UiRun { first: 7, count: 1, texture: Some(TextureHandle(8)) },
    ];
    let plan = pass.encode(100, &runs, Some(TextureHandle(7)), &here);
    assert_eq!(plan.grow, Some(128));
    assert_eq!(pass.capacity(), 128);
    assert_eq!(
        plan.commands,
        vec![
            UiCommand::Bind(Some(TextureHandle(7))),
            UiCommand::Draw { first: 0, end: 1 },
            UiCommand::Bind(Some(TextureHandle(9))),
            UiCommand::Draw { first: 1, end: 3 },
            UiCommand::Draw { first: 3, end: 7 },
            UiCommand::Bind(None),
            UiCommand::Draw { first: 7, end: 8 },
        ]
    );
    assert!(plan.steps[3].warn);
    assert_eq!(pass.encode(128, &runs, None, &here).grow, None);
}

#[test]
fn buffers_double_or_fit() {
    assert_eq!(grow(64, 10), 64);
    assert_eq!(grow(64, 65), 128);
    assert_eq!(grow(64, 1000), 1000);
    assert_eq!(grow(0xffff_0000, 0xffff_0001), u32::MAX);
    assert_eq!(buffer_size(48, 0), 48);
    assert_eq!(buffer_size(48, 3), 144);
}

#[test]
fn an_atlas_image_has_four_bytes_to_a_pixel() {
    let image = |width, height, bytes: usize| UiAtlasImage { handle: TextureHandle(1), width, height, rgba: vec![0; bytes] };
    assert!(image(2, 3, 24).is_valid());
    assert!(!image(2, 3, 23).is_valid());
    assert!(!image(0, 3, 0).is_valid());
    assert!(!image(u32::MAX, u32::MAX, 4).is_valid());
}
