//! What the GPU is told is what is meant: a flag has its effect, a buffer is read where it
//! was written, and a texture may be used as what it is for.

use vstd::prelude::*;
use crate::gpu::{
    Binding, BlendFactor, BlendState, CompareFunction, FRAME_UNIFORM_SIZE, Group, MeshData,
    PipelineDesc, PipelineKind, PipelineState, TextureDesc, TextureFormat, TextureRole, Vertex,
    VertexFormat, VertexLayout, bindings_of, describes, groups_for, instance_formats, interleaved,
    offset_of, packed, quad_formats, state_of, texture_describes, vertex_formats,
};
use crate::look_laws::bits_are_flags;
use crate::material::MaterialVariant;
use crate::ui::UNIFORM_SIZE;

verus! {

/// Whether a colour blends as said: new times `src` plus old times `dst`, for its colour
/// and for its alpha.
pub open spec fn blends(
    blend: BlendState,
    src: BlendFactor,
    dst: BlendFactor,
    alpha_src: BlendFactor,
    alpha_dst: BlendFactor,
) -> bool {
    blend.color.src == src && blend.color.dst == dst && blend.alpha.src == alpha_src
        && blend.alpha.dst == alpha_dst
}

/// A variant draws as its flags say: it adds, blends by its alpha or replaces; what blends
/// writes no depth; one that is to show behind is compared the other way; and only one
/// with two sides shows its back.
pub proof fn a_variant_draws_as_its_flags_say(variant: MaterialVariant, state: PipelineState)
    requires
        state_of(variant, state),
    ensures
        variant.0 & MaterialVariant::ADDITIVE != 0 ==> blends(
            state.blend,
            BlendFactor::SrcAlpha,
            BlendFactor::One,
            BlendFactor::Zero,
            BlendFactor::One,
        ) && state.label@ == "forward additive"@,
        variant.0 & MaterialVariant::ADDITIVE == 0 && variant.0 & MaterialVariant::TRANSPARENT != 0
            ==> blends(
            state.blend,
            BlendFactor::SrcAlpha,
            BlendFactor::OneMinusSrcAlpha,
            BlendFactor::One,
            BlendFactor::OneMinusSrcAlpha,
        ) && state.label@ == "forward transparent"@,
        variant.0 & MaterialVariant::ADDITIVE == 0 && variant.0 & MaterialVariant::TRANSPARENT == 0
            ==> blends(
            state.blend,
            BlendFactor::One,
            BlendFactor::Zero,
            BlendFactor::One,
            BlendFactor::Zero,
        ) && state.label@ == "forward opaque"@,
        state.depth_write <==> variant.0 & MaterialVariant::ADDITIVE == 0 && variant.0
            & MaterialVariant::TRANSPARENT == 0,
        variant.0 & MaterialVariant::DEPTH_GREATER != 0 ==> state.depth_compare
            == CompareFunction::Greater,
        variant.0 & MaterialVariant::DEPTH_GREATER == 0 ==> state.depth_compare
            == CompareFunction::Less,
        state.cull_back <==> variant.0 & MaterialVariant::TWO_SIDED == 0,
{
    bits_are_flags(variant.0);
}

/// A variant's pipeline has the variant's state, and shades with the forward stages.
pub proof fn a_variants_pipeline_has_its_state(
    variant: MaterialVariant,
    state: PipelineState,
    desc: PipelineDesc,
)
    requires
        state_of(variant, state),
        describes(PipelineKind::Forward(variant), desc),
    ensures
        desc.blend == state.blend,
        desc.depth == Some((state.depth_write, state.depth_compare)),
        desc.cull_back == state.cull_back,
        desc.label@ == state.label@,
        desc.vertex_entry@ == "vs_main"@,
        desc.fragment_entry@ == "fs_main"@,
{
}

/// The pipelines that are no material's: the sky is behind everything and writes no depth,
/// the fullscreen pass replaces the screen, and the overlay is drawn over it by an alpha
/// that is multiplied in.
pub proof fn the_other_pipelines_are_as_they_should(
    sky: PipelineDesc,
    blit: PipelineDesc,
    ui: PipelineDesc,
)
    requires
        describes(PipelineKind::Sky, sky),
        describes(PipelineKind::Fullscreen, blit),
        describes(PipelineKind::Ui, ui),
    ensures
        sky.depth == Some((false, CompareFunction::Always)),
        blit.depth is None,
        ui.depth is None,
        blends(
            sky.blend,
            BlendFactor::One,
            BlendFactor::Zero,
            BlendFactor::One,
            BlendFactor::Zero,
        ),
        blit.blend == sky.blend,
        blends(
            ui.blend,
            BlendFactor::One,
            BlendFactor::OneMinusSrcAlpha,
            BlendFactor::One,
            BlendFactor::OneMinusSrcAlpha,
        ),
        !sky.cull_back && !blit.cull_back && !ui.cull_back,
        sky.buffers@.len() == 0 && blit.buffers@.len() == 0 && ui.buffers@.len() == 1,
        sky.vertex_entry@ == "vs_sky"@ && sky.fragment_entry@ == "fs_sky"@,
        blit.vertex_entry@ == "vs_blit"@ && blit.fragment_entry@ == "fs_blit"@,
        ui.vertex_entry@ == "vs_ui"@ && ui.fragment_entry@ == "fs_ui"@,
{
}

/// What is bound where: the frame is first wherever it is bound, the material third, and
/// what a pass reads second.
pub proof fn an_index_means_one_thing(kind: PipelineKind)
    ensures
        ({
            let groups = groups_for(kind);
            &&& kind is Ui ==> groups.len() == 2 && groups[0] == Some(Group::UiFrame) && groups[1]
                == Some(Group::Atlas)
            &&& !(kind is Ui) ==> groups.len() > 0 && groups[0] == Some(Group::Frame)
            &&& kind is Forward ==> groups.len() == 3 && groups[1] is None && groups[2] == Some(
                Group::Material,
            )
            &&& kind is Fullscreen ==> groups.len() == 2 && groups[1] == Some(Group::Source)
            &&& kind is Sky ==> groups.len() == 1
        }),
{
}

/// The frame's uniform is two matrices and nine vectors of four floats, for both stages;
/// the overlay's is one vector, for the vertex stage; and what is sampled has a texture
/// and then its sampler.
pub proof fn a_group_has_its_bindings()
    ensures
        bindings_of(Group::Frame) == seq![
            Binding::Uniform { size: (2 * 16 * 4 + 9 * 4 * 4) as u64, fragment: true },
        ],
        bindings_of(Group::UiFrame) == seq![
            Binding::Uniform { size: (4 * 4) as u64, fragment: false },
        ],
        bindings_of(Group::Source) == seq![Binding::Texture, Binding::Sampler],
        bindings_of(Group::Atlas) == bindings_of(Group::Source),
        bindings_of(Group::Material).len() == 0,
{
    assert(FRAME_UNIFORM_SIZE == 2 * 16 * 4 + 9 * 4 * 4);
    assert(UNIFORM_SIZE == 4 * 4);
}

/// Whether attribute `i` of a layout is at `offset`, of this format, for this location.
pub open spec fn has_attribute(
    layout: VertexLayout,
    i: int,
    location: int,
    offset: int,
    format: VertexFormat,
) -> bool {
    &&& 0 <= i < layout.attributes@.len()
    &&& layout.attributes@[i].location == location
    &&& layout.attributes@[i].offset == offset
    &&& layout.attributes@[i].format == format
}

/// A mesh is read as it lies: position, normal, texture coordinates and colour, for the
/// first four locations, vertex by vertex; and the instances behind them, the four columns
/// of a matrix, a colour and parameters. The overlay's quads are a rectangle, texture
/// coordinates and a colour each.
pub proof fn buffers_are_read_as_they_lie(
    variant: MaterialVariant,
    desc: PipelineDesc,
    ui: PipelineDesc,
    k: int,
)
    requires
        describes(PipelineKind::Forward(variant), desc),
        describes(PipelineKind::Ui, ui),
    ensures
        desc.buffers@.len() == 2,
        ({
            let mesh = desc.buffers@[0];
            &&& !mesh.per_instance && mesh.stride == 44 && mesh.attributes@.len() == 4
            &&& has_attribute(mesh, 0, 0, 0, VertexFormat::Float32x3)
            &&& has_attribute(mesh, 1, 1, 12, VertexFormat::Float32x3)
            &&& has_attribute(mesh, 2, 2, 24, VertexFormat::Float32x2)
            &&& has_attribute(mesh, 3, 3, 32, VertexFormat::Float32x3)
        }),
        ({
            let instances = desc.buffers@[1];
            &&& instances.per_instance && instances.stride == 96 && instances.attributes@.len() == 6
            &&& 0 <= k < 6 ==> has_attribute(
                instances,
                k,
                4 + k,
                16 * k,
                VertexFormat::Float32x4,
            )
        }),
        ({
            let quads = ui.buffers@[0];
            &&& quads.per_instance && quads.stride == 48 && quads.attributes@.len() == 3
            &&& 0 <= k < 3 ==> has_attribute(quads, k, k, 16 * k, VertexFormat::Float32x4)
        }),
{
    reveal_with_fuel(offset_of, 7);
    let mesh = desc.buffers@[0];
    assert(packed(mesh, vertex_formats(), 0, false));
    assert(mesh.attributes@[0].location == 0);
    assert(mesh.attributes@[1].location == 1);
    assert(mesh.attributes@[2].location == 2);
    assert(mesh.attributes@[3].location == 3);
    let instances = desc.buffers@[1];
    assert(packed(instances, instance_formats(), 4, true));
    let quads = ui.buffers@[0];
    assert(packed(quads, quad_formats(), 0, true));
    if 0 <= k < 6 {
        assert(instances.attributes@[k].location == 4 + k);
    }
    if 0 <= k < 3 {
        assert(quads.attributes@[k].location == k);
    }
}

/// Every vertex has its own attributes, each from its own list.
pub proof fn a_vertex_has_its_own_attributes(mesh: MeshData, r: Seq<Vertex>, i: int)
    requires
        interleaved(mesh, r),
        0 <= i < mesh.positions@.len(),
    ensures
        r.len() == mesh.positions@.len(),
        r[i].pos == mesh.positions@[i],
        r[i].normal == mesh.normals@[i],
        r[i].uv == mesh.uvs@[i],
        r[i].color == mesh.colors@[i],
{
}

/// A texture may be used as what it is for: all but the white one are drawn into, those
/// that are read later can be bound, and only a depth texture has depth. All have the size
/// that is asked for but the white one, which is a texel.
pub proof fn a_texture_may_be_used_as_what_it_is_for(
    role: TextureRole,
    width: u32,
    height: u32,
    desc: TextureDesc,
)
    requires
        texture_describes(role, width, height, desc),
    ensures
        desc.attachment <==> role != TextureRole::White,
        desc.binding <==> role == TextureRole::RenderScale || role == TextureRole::SceneTarget
            || role == TextureRole::White,
        desc.copy_src <==> role == TextureRole::SceneTarget,
        desc.copy_dst <==> role == TextureRole::White,
        desc.format == TextureFormat::Depth <==> role == TextureRole::Depth || role
            == TextureRole::SceneTargetDepth,
        desc.format == TextureFormat::Rgba8 <==> role == TextureRole::White,
        role != TextureRole::White ==> desc.width == width && desc.height == height,
        role == TextureRole::White ==> desc.width == 1 && desc.height == 1,
{
}

} // verus!
