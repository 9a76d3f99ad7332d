use runt_core::float::{F32, Vec2, Vec3};
use runt_core::gpu::{
    bindings, instance_layout, interleave, pipeline, quad_layout, render_state, texture, vertex_layout, Binding, BlendState,
    CompareFunction, Group, MeshData, PipelineKind, TextureFormat, TextureRole, VertexLayout, FRAME_UNIFORM_SIZE,
};
use runt_core::material::MaterialVariant;
use runt_core::shadow::{ShadowQuality, ShadowSettings};

fn f(v: f32) -> F32 {
    F32(v.to_bits())
}

fn v3(x: f32, y: f32, z: f32) -> Vec3 {
    Vec3 { x: f(x), y: f(y), z: f(z) }
}

/// Where each attribute starts and ends.
fn extents(layout: &VertexLayout) -> Vec<(u64, u64)> {
    layout.attributes.iter().map(|a| (a.offset, a.offset + a.format.size())).collect()
}

#[test]
fn layouts_are_packed() {
    for layout in [vertex_layout(), instance_layout(), quad_layout()] {
        let mut at = 0;
        for (start, end) in extents(&layout) {
            assert_eq!(start, at);
            at = end;
        }
        assert_eq!(at, layout.stride);
    }
    assert_eq!(vertex_layout().stride, 44);
    assert_eq!(instance_layout().stride, 96);
    assert!(instance_layout().per_instance && !vertex_layout().per_instance);
}

#[test]
fn a_mesh_is_interleaved_vertex_by_vertex() {
    let mesh = MeshData {
        positions: vec![v3(1.0, 2.0, 3.0), v3(4.0, 5.0, 6.0)],
        normals: vec![v3(0.0, 1.0, 0.0), v3(1.0, 0.0, 0.0)],
        uvs: vec![Vec2 { x: f(0.0), y: f(0.5) }, Vec2 { x: f(1.0), y: f(0.25) }],
        colors: vec![v3(0.1, 0.2, 0.3), v3(0.4, 0.5, 0.6)],
        indices: vec![0, 1, 0],
    };
    let vertices = interleave(&mesh);
    assert_eq!(vertices.len(), 2);
    assert_eq!(vertices[1].pos, v3(4.0, 5.0, 6.0));
    assert_eq!(vertices[1].normal, v3(1.0, 0.0, 0.0));
    assert_eq!(vertices[1].uv, Vec2 { x: f(1.0), y: f(0.25) });
    assert_eq!(vertices[1].color, v3(0.4, 0.5, 0.6));
}

#[test]
fn what_is_blended_does_not_write_depth() {
    let opaque = render_state(MaterialVariant(MaterialVariant::VERTEX_COLOR));
    assert_eq!(opaque.blend, BlendState::replace());
    assert!(opaque.depth_write && opaque.cull_back);
    assert_eq!(opaque.depth_compare, CompareFunction::Less);
    assert_eq!(opaque.label, "forward opaque");

    let glass = render_state(MaterialVariant(MaterialVariant::TRANSPARENT | MaterialVariant::TWO_SIDED));
    assert_eq!(glass.blend, BlendState::alpha_blending());
    assert!(!glass.depth_write && !glass.cull_back);
    assert_eq!(glass.label, "forward transparent");

    let glow = render_state(MaterialVariant(
        MaterialVariant::TRANSPARENT | MaterialVariant::ADDITIVE | MaterialVariant::DEPTH_GREATER,
    ));
    assert_eq!(glow.blend, BlendState::additive());
    assert_eq!(glow.depth_compare, CompareFunction::Greater);
    assert_eq!(glow.label, "forward additive");
}

#[test]
fn every_pipeline_binds_what_its_shader_reads() {
    let forward = pipeline(PipelineKind::Forward(MaterialVariant(0)));
    assert_eq!(forward.groups, vec![Some(Group::Frame), None, Some(Group::Material)]);
    assert_eq!(forward.buffers.len(), 2);
    assert_eq!((forward.vertex_entry, forward.fragment_entry), ("vs_main", "fs_main"));
    assert_eq!(forward.depth, Some((true, CompareFunction::Less)));

    let sky = pipeline(PipelineKind::Sky);
    assert_eq!(sky.groups, vec![Some(Group::Frame)]);
    assert_eq!(sky.depth, Some((false, CompareFunction::Always)));
    assert!(sky.buffers.is_empty());

    let fullscreen = pipeline(PipelineKind::Fullscreen);
    assert_eq!(fullscreen.groups, vec![Some(Group::Frame), Some(Group::Source)]);
    assert_eq!(fullscreen.depth, None);

    let ui = pipeline(PipelineKind::Ui);
    assert_eq!(ui.blend, BlendState::premultiplied());
    assert_eq!(ui.groups, vec![Some(Group::UiFrame), Some(Group::Atlas)]);
    assert_eq!(ui.buffers.len(), 1);
    assert_eq!(ui.depth, None);
}

#[test]
fn groups_hold_what_they_say() {
    assert_eq!(bindings(Group::Frame), vec![Binding::Uniform { size: FRAME_UNIFORM_SIZE, fragment: true }]);
    assert_eq!(bindings(Group::UiFrame), vec![Binding::Uniform { size: 16, fragment: false }]);
    assert_eq!(bindings(Group::Source), vec![Binding::Texture, Binding::Sampler]);
    assert_eq!(bindings(Group::Atlas), bindings(Group::Source));
}

#[test]
fn textures_are_made_for_what_they_are_used_as() {
    let depth = texture(TextureRole::Depth, 640, 480);
    assert_eq!((depth.label, depth.width, depth.height), ("depth", 640, 480));
    assert_eq!(depth.format, TextureFormat::Depth);
    let target = texture(TextureRole::SceneTarget, 64, 32);
    assert!(target.attachment && target.binding && target.copy_src && !target.copy_dst);
    let white = texture(TextureRole::White, 9, 9);
    assert_eq!((white.width, white.height, white.format), (1, 1, TextureFormat::Rgba8));
}

#[test]
fn shadows_are_off_until_someone_says_otherwise() {
    assert_eq!(ShadowQuality::default(), ShadowQuality::Off);
    assert_eq!(ShadowQuality::Off.resolution(), None);
    assert_eq!(ShadowQuality::Low.resolution(), Some(512));
    assert_eq!(ShadowQuality::High.resolution(), Some(2048));
    let settings = ShadowSettings::default();
    assert_eq!([settings.extent, settings.bias, settings.slope_bias], [f(20.0), f(0.0015), f(0.004)]);
}
