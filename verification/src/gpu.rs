//! What the GPU is told, as plain data: the layouts of the buffers, the state of
//! the pipelines, the bindings they read and the textures they draw into.

use vstd::prelude::*;
use crate::float::{Vec2, Vec3};
use crate::material::{has_bit, includes, meets, MaterialVariant};
use crate::ui::UNIFORM_SIZE;

verus! {

/// The shape of one vertex attribute.
#[derive(Clone, Copy, Debug, PartialEq, Eq, Structural, Hash)]
pub enum VertexFormat {
    Float32x2,
    Float32x3,
    Float32x4,
}

/// How many bytes an attribute takes.
pub open spec fn format_size(format: VertexFormat) -> int {
    match format {
        VertexFormat::Float32x2 => 8,
        VertexFormat::Float32x3 => 12,
        VertexFormat::Float32x4 => 16,
    }
}

impl VertexFormat {
    /// How many bytes it takes.
    pub fn size(self) -> (r: u64)
        ensures
            r == format_size(self),
    {
        match self {
            VertexFormat::Float32x2 => 8,
            VertexFormat::Float32x3 => 12,
            VertexFormat::Float32x4 => 16,
        }
    }
}

/// One attribute of a vertex buffer.
#[derive(Clone, Copy, Debug, PartialEq, Eq, Structural, Hash)]
pub struct VertexAttribute {
    pub location: u32,
    pub offset: u64,
    pub format: VertexFormat,
}

/// The layout of a vertex buffer.
#[derive(Debug)]
pub struct VertexLayout {
    pub stride: u64,
    /// Whether it steps once per instance rather than once per vertex.
    pub per_instance: bool,
    pub attributes: Vec<VertexAttribute>,
}

/// Where attribute `n` starts: behind all before it.
pub open spec fn offset_of(formats: Seq<VertexFormat>, n: int) -> int
    decreases n,
{
    if n <= 0 {
        0
    } else {
        offset_of(formats, n - 1) + format_size(formats[n - 1])
    }
}

/// A layout whose attributes lie behind each other without a gap, and fill it.
pub open spec fn packed(
    layout: VertexLayout,
    formats: Seq<VertexFormat>,
    location: int,
    per_instance: bool,
) -> bool {
    &&& layout.per_instance == per_instance
    &&& layout.stride == offset_of(formats, formats.len() as int)
    &&& layout.attributes@.len() == formats.len()
    &&& forall|i: int|
        0 <= i < formats.len() ==> {
            &&& (#[trigger] layout.attributes@[i]).location == location + i
            &&& layout.attributes@[i].offset == offset_of(formats, i)
            &&& layout.attributes@[i].format == formats[i]
        }
}

proof fn offset_bound(formats: Seq<VertexFormat>, n: int)
    requires
        n >= 0,
    ensures
        0 <= offset_of(formats, n) <= 16 * n,
    decreases n,
{
    if n > 0 {
        offset_bound(formats, n - 1);
    }
}

fn pack(formats: Vec<VertexFormat>, location: u32, per_instance: bool) -> (r: VertexLayout)
    requires
        formats@.len() <= 64,
        location <= 64,
    ensures
        packed(r, formats@, location as int, per_instance),
{
    let mut attributes: Vec<VertexAttribute> = Vec::new();
    let mut stride: u64 = 0;
    let mut i: usize = 0;
    while i < formats.len()
        invariant
            i <= formats.len() <= 64,
            location <= 64,
            stride == offset_of(formats@, i as int),
            attributes.len() == i,
            forall|j: int|
                0 <= j < i ==> {
                    &&& (#[trigger] attributes@[j]).location == location + j
                    &&& attributes@[j].offset == offset_of(formats@, j)
                    &&& attributes@[j].format == formats@[j]
                },
        decreases formats.len() - i,
    {
        proof {
            offset_bound(formats@, i as int);
        }
        let format = formats[i];
        attributes.push(VertexAttribute { location: location + i as u32, offset: stride, format });
        stride = stride + format.size();
        i = i + 1;
    }
    VertexLayout { stride, per_instance, attributes }
}

/// Attributes of a packed layout do not overlap, and none sticks out of it.
pub proof fn packed_attributes_are_apart(
    layout: VertexLayout,
    formats: Seq<VertexFormat>,
    location: int,
    per_instance: bool,
    i: int,
    j: int,
)
    requires
        packed(layout, formats, location, per_instance),
        0 <= i < j < formats.len(),
    ensures
        layout.attributes@[i].offset + format_size(layout.attributes@[i].format)
            <= layout.attributes@[j].offset,
        layout.attributes@[j].offset + format_size(layout.attributes@[j].format) <= layout.stride,
        layout.attributes@[i].location != layout.attributes@[j].location,
{
    offsets_climb(formats, i + 1, j);
    offsets_climb(formats, j + 1, formats.len() as int);
}

proof fn offsets_climb(formats: Seq<VertexFormat>, a: int, b: int)
    requires
        0 <= a <= b,
    ensures
        offset_of(formats, a) <= offset_of(formats, b),
    decreases b - a,
{
    if a < b {
        offsets_climb(formats, a, b - 1);
    }
}

/// The attributes of a mesh's vertex: position, normal, texture coordinates and
/// colour.
pub open spec fn vertex_formats() -> Seq<VertexFormat> {
    seq![
        VertexFormat::Float32x3,
        VertexFormat::Float32x3,
        VertexFormat::Float32x2,
        VertexFormat::Float32x3,
    ]
}

/// The attributes of an instance: the four columns of its matrix, its colour and
/// its parameters.
pub open spec fn instance_formats() -> Seq<VertexFormat> {
    Seq::new(6, |i: int| VertexFormat::Float32x4)
}

/// The attributes of an overlay quad: rectangle, texture coordinates and colour.
pub open spec fn quad_formats() -> Seq<VertexFormat> {
    Seq::new(3, |i: int| VertexFormat::Float32x4)
}

/// The layout of a mesh's vertices.
pub fn vertex_layout() -> (r: VertexLayout)
    ensures
        packed(r, vertex_formats(), 0, false),
        r.stride == 44,
{
    let formats = vec![
        VertexFormat::Float32x3,
        VertexFormat::Float32x3,
        VertexFormat::Float32x2,
        VertexFormat::Float32x3,
    ];
    proof {
        assert(formats@ =~= vertex_formats());
        reveal_with_fuel(offset_of, 5);
    }
    pack(formats, 0, false)
}

/// The layout of the instances, behind the vertices' locations.
pub fn instance_layout() -> (r: VertexLayout)
    ensures
        packed(r, instance_formats(), 4, true),
        r.stride == 96,
{
    let f = VertexFormat::Float32x4;
    let formats = vec![f, f, f, f, f, f];
    proof {
        assert(formats@ =~= instance_formats());
        reveal_with_fuel(offset_of, 7);
    }
    pack(formats, 4, true)
}

/// The layout of the overlay's quads.
pub fn quad_layout() -> (r: VertexLayout)
    ensures
        packed(r, quad_formats(), 0, true),
        r.stride == 48,
{
    let f = VertexFormat::Float32x4;
    let formats = vec![f, f, f];
    proof {
        assert(formats@ =~= quad_formats());
        reveal_with_fuel(offset_of, 4);
    }
    pack(formats, 0, true)
}

/// A mesh as the generators make it: a list for each attribute.
#[derive(Debug)]
pub struct MeshData {
    pub positions: Vec<Vec3>,
    pub normals: Vec<Vec3>,
    pub uvs: Vec<Vec2>,
    pub colors: Vec<Vec3>,
    pub indices: Vec<u32>,
}

/// A vertex as the GPU reads it.
#[derive(Clone, Copy, Debug, PartialEq, Eq, Structural, Hash)]
pub struct Vertex {
    pub pos: Vec3,
    pub normal: Vec3,
    pub uv: Vec2,
    pub color: Vec3,
}

/// Whether `r` has a mesh's attributes side by side, vertex by vertex.
pub open spec fn interleaved(mesh: MeshData, r: Seq<Vertex>) -> bool {
    &&& r.len() == mesh.positions@.len()
    &&& forall|i: int|
        0 <= i < r.len() ==> #[trigger] r[i] == (Vertex {
            pos: mesh.positions@[i],
            normal: mesh.normals@[i],
            uv: mesh.uvs@[i],
            color: mesh.colors@[i],
        })
}

/// Put a mesh's attributes side by side, vertex by vertex.
pub fn interleave(mesh: &MeshData) -> (r: Vec<Vertex>)
    requires
        mesh.normals@.len() >= mesh.positions@.len(),
        mesh.uvs@.len() >= mesh.positions@.len(),
        mesh.colors@.len() >= mesh.positions@.len(),
    ensures
        interleaved(*mesh, r@),
{
    let mut vertices: Vec<Vertex> = Vec::new();
    let mut i: usize = 0;
    while i < mesh.positions.len()
        invariant
            i <= mesh.positions.len(),
            mesh.normals@.len() >= mesh.positions@.len(),
            mesh.uvs@.len() >= mesh.positions@.len(),
            mesh.colors@.len() >= mesh.positions@.len(),
            vertices.len() == i,
            forall|j: int|
                0 <= j < i ==> #[trigger] vertices@[j] == (Vertex {
                    pos: mesh.positions@[j],
                    normal: mesh.normals@[j],
                    uv: mesh.uvs@[j],
                    color: mesh.colors@[j],
                }),
        decreases mesh.positions.len() - i,
    {
        vertices.push(
            Vertex {
                pos: mesh.positions[i],
                normal: mesh.normals[i],
                uv: mesh.uvs[i],
                color: mesh.colors[i],
            },
        );
        i = i + 1;
    }
    vertices
}

/// What a colour is multiplied by before it is added.
#[derive(Clone, Copy, Debug, PartialEq, Eq, Structural, Hash)]
pub enum BlendFactor {
    Zero,
    One,
    SrcAlpha,
    OneMinusSrcAlpha,
}

/// New times `src`, plus old times `dst`.
#[derive(Clone, Copy, Debug, PartialEq, Eq, Structural, Hash)]
pub struct BlendComponent {
    pub src: BlendFactor,
    pub dst: BlendFactor,
}

/// How a draw's colour and alpha meet what is there.
#[derive(Clone, Copy, Debug, PartialEq, Eq, Structural, Hash)]
pub struct BlendState {
    pub color: BlendComponent,
    pub alpha: BlendComponent,
}

/// The new in place of the old.
pub open spec fn replacing() -> BlendState {
    let c = BlendComponent { src: BlendFactor::One, dst: BlendFactor::Zero };
    BlendState { color: c, alpha: c }
}

/// The new over the old, by its alpha.
pub open spec fn alpha_blending() -> BlendState {
    BlendState {
        color: BlendComponent { src: BlendFactor::SrcAlpha, dst: BlendFactor::OneMinusSrcAlpha },
        alpha: BlendComponent { src: BlendFactor::One, dst: BlendFactor::OneMinusSrcAlpha },
    }
}

/// The new, by its alpha, added to the old; the old's alpha stays.
pub open spec fn adding() -> BlendState {
    BlendState {
        color: BlendComponent { src: BlendFactor::SrcAlpha, dst: BlendFactor::One },
        alpha: BlendComponent { src: BlendFactor::Zero, dst: BlendFactor::One },
    }
}

/// The new over the old, its alpha multiplied in already.
pub open spec fn premultiplied() -> BlendState {
    let c = BlendComponent { src: BlendFactor::One, dst: BlendFactor::OneMinusSrcAlpha };
    BlendState { color: c, alpha: c }
}

impl BlendState {
    pub fn replace() -> (r: BlendState)
        ensures
            r == replacing(),
    {
        let c = BlendComponent { src: BlendFactor::One, dst: BlendFactor::Zero };
        BlendState { color: c, alpha: c }
    }

    pub fn alpha_blending() -> (r: BlendState)
        ensures
            r == alpha_blending(),
    {
        BlendState {
            color: BlendComponent { src: BlendFactor::SrcAlpha, dst: BlendFactor::OneMinusSrcAlpha },
            alpha: BlendComponent { src: BlendFactor::One, dst: BlendFactor::OneMinusSrcAlpha },
        }
    }

    pub fn additive() -> (r: BlendState)
        ensures
            r == adding(),
    {
        BlendState {
            color: BlendComponent { src: BlendFactor::SrcAlpha, dst: BlendFactor::One },
            alpha: BlendComponent { src: BlendFactor::Zero, dst: BlendFactor::One },
        }
    }

    pub fn premultiplied() -> (r: BlendState)
        ensures
            r == premultiplied(),
    {
        let c = BlendComponent { src: BlendFactor::One, dst: BlendFactor::OneMinusSrcAlpha };
        BlendState { color: c, alpha: c }
    }
}

/// How a fragment's depth is held against what is there.
#[derive(Clone, Copy, Debug, PartialEq, Eq, Structural, Hash)]
pub enum CompareFunction {
    Less,
    Greater,
    Always,
}

/// The fixed-function state that a material variant draws with.
#[derive(Debug)]
pub struct PipelineState {
    pub blend: BlendState,
    pub depth_write: bool,
    pub depth_compare: CompareFunction,
    pub cull_back: bool,
    pub label: &'static str,
}

/// Whether flag `i` is among the variant's.
pub open spec fn flagged(variant: MaterialVariant, i: u32) -> bool {
    has_bit(variant.0, i)
}

/// How a variant blends: adding wins over blending by alpha.
pub open spec fn blend_for(variant: MaterialVariant) -> BlendState {
    if flagged(variant, 6) {
        adding()
    } else if flagged(variant, 5) {
        alpha_blending()
    } else {
        replacing()
    }
}

/// What a variant's pipeline is called.
pub open spec fn label_for(variant: MaterialVariant) -> Seq<char> {
    if flagged(variant, 6) {
        "forward additive"@
    } else if flagged(variant, 5) {
        "forward transparent"@
    } else {
        "forward opaque"@
    }
}

/// Whether a variant writes depth: what is blended does not.
pub open spec fn writes_depth(variant: MaterialVariant) -> bool {
    !flagged(variant, 6) && !flagged(variant, 5)
}

/// How a variant's depth is compared: an inverted test passes behind.
pub open spec fn compare_for(variant: MaterialVariant) -> CompareFunction {
    if flagged(variant, 7) {
        CompareFunction::Greater
    } else {
        CompareFunction::Less
    }
}

/// The state of a variant. A two-sided draw culls nothing.
pub open spec fn state_of(variant: MaterialVariant, state: PipelineState) -> bool {
    &&& state.blend == blend_for(variant)
    &&& state.label@ == label_for(variant)
    &&& state.depth_write == writes_depth(variant)
    &&& state.depth_compare == compare_for(variant)
    &&& state.cull_back == !flagged(variant, 13)
}

/// A mask of one bit is included exactly where that bit is set.
proof fn one_bit_mask(bits: u32, mask: u32, i: u32)
    requires
        i < 32,
        mask == 1u32 << i,
    ensures
        includes(bits, mask) <==> has_bit(bits, i),
{
    assert((mask >> i) & 1 == 1) by (bit_vector)
        requires
            i < 32,
            mask == 1u32 << i,
    ;
    assert(has_bit(mask, i));
    if has_bit(bits, i) {
        assert forall|j: u32| j < 32 && #[trigger] has_bit(mask, j) implies has_bit(bits, j) by {
            assert(j == i) by (bit_vector)
                requires
                    i < 32,
                    j < 32,
                    mask == 1u32 << i,
                    (mask >> j) & 1 == 1,
            ;
        }
    }
}

/// The state to draw a variant with.
pub fn render_state(variant: MaterialVariant) -> (r: PipelineState)
    ensures
        state_of(variant, r),
{
    proof {
        assert(1u32 << 5 == 0x20 && 1u32 << 6 == 0x40 && 1u32 << 7 == 0x80 && 1u32 << 13
            == 0x2000) by (bit_vector);
        one_bit_mask(variant.0, MaterialVariant::TRANSPARENT, 5);
        one_bit_mask(variant.0, MaterialVariant::ADDITIVE, 6);
        one_bit_mask(variant.0, MaterialVariant::DEPTH_GREATER, 7);
        one_bit_mask(variant.0, MaterialVariant::TWO_SIDED, 13);
        blended_bits(variant.0);
    }
    let (blend, label) = if variant.contains(MaterialVariant(MaterialVariant::ADDITIVE)) {
        (BlendState::additive(), "forward additive")
    } else if variant.contains(MaterialVariant(MaterialVariant::TRANSPARENT)) {
        (BlendState::alpha_blending(), "forward transparent")
    } else {
        (BlendState::replace(), "forward opaque")
    };
    PipelineState {
        blend,
        depth_write: !variant.intersects(MaterialVariant(MaterialVariant::BLENDED)),
        depth_compare: if variant.contains(MaterialVariant(MaterialVariant::DEPTH_GREATER)) {
            CompareFunction::Greater
        } else {
            CompareFunction::Less
        },
        cull_back: !variant.contains(MaterialVariant(MaterialVariant::TWO_SIDED)),
        label,
    }
}

/// The blending flags are the fifth and the sixth.
proof fn blended_bits(bits: u32)
    ensures
        meets(bits, MaterialVariant::BLENDED) <==> has_bit(bits, 5) || has_bit(bits, 6),
{
    let mask = MaterialVariant::BLENDED;
    assert((0x60u32 >> 5) & 1 == 1 && (0x60u32 >> 6) & 1 == 1) by (bit_vector);
    assert(has_bit(mask, 5) && has_bit(mask, 6));
    if meets(bits, mask) {
        let i = choose|i: u32| i < 32 && #[trigger] has_bit(bits, i) && has_bit(mask, i);
        assert(i == 5 || i == 6) by (bit_vector)
            requires
                i < 32,
                (0x60u32 >> i) & 1 == 1,
        ;
    }
}

/// Only what replaces what is there writes depth: a blended surface hides
/// nothing.
pub proof fn blended_draws_do_not_write_depth(variant: MaterialVariant, state: PipelineState)
    requires
        state_of(variant, state),
    ensures
        state.depth_write <==> state.blend == replacing(),
{
}

/// A group of bindings that pipelines share.
#[derive(Clone, Copy, Debug, PartialEq, Eq, Structural, Hash)]
pub enum Group {
    /// The frame's uniform.
    Frame,
    /// The material's textures.
    Material,
    /// What the fullscreen pass reads.
    Source,
    /// The overlay's uniform.
    UiFrame,
    /// What the overlay's quads are cut from.
    Atlas,
}

/// One binding, and which stages see it.
#[derive(Clone, Copy, Debug, PartialEq, Eq, Structural, Hash)]
pub enum Binding {
    /// A uniform of so many bytes, for the vertex stage and, or not, for the
    /// fragment stage.
    Uniform { size: u64, fragment: bool },
    /// A texture that is read texel by texel, in the fragment stage.
    Texture,
    /// A sampler that does not filter, in the fragment stage.
    Sampler,
}

/// The size of the frame's uniform: two matrices and nine vectors.
pub const FRAME_UNIFORM_SIZE: u64 = 272;

/// The bindings of a group, from binding zero on. The material's are the texture
/// registry's own.
pub open spec fn bindings_of(group: Group) -> Seq<Binding> {
    match group {
        Group::Frame => seq![Binding::Uniform { size: FRAME_UNIFORM_SIZE, fragment: true }],
        Group::UiFrame => seq![Binding::Uniform { size: UNIFORM_SIZE, fragment: false }],
        Group::Source => seq![Binding::Texture, Binding::Sampler],
        Group::Atlas => seq![Binding::Texture, Binding::Sampler],
        Group::Material => Seq::empty(),
    }
}

/// The bindings of a group.
pub fn bindings(group: Group) -> (r: Vec<Binding>)
    ensures
        r@ == bindings_of(group),
{
    let r: Vec<Binding> = match group {
        Group::Frame => vec![Binding::Uniform { size: FRAME_UNIFORM_SIZE, fragment: true }],
        Group::UiFrame => vec![Binding::Uniform { size: UNIFORM_SIZE, fragment: false }],
        Group::Source => vec![Binding::Texture, Binding::Sampler],
        Group::Atlas => vec![Binding::Texture, Binding::Sampler],
        Group::Material => Vec::new(),
    };
    proof {
        assert(r@ =~= bindings_of(group));
    }
    r
}

/// A pipeline.
#[derive(Clone, Copy, Debug, PartialEq, Eq, Structural, Hash)]
pub enum PipelineKind {
    /// A material variant's.
    Forward(MaterialVariant),
    /// The gradient behind everything.
    Sky,
    /// The pass that scales the frame to the screen and draws the phase circle.
    Fullscreen,
    /// The overlay.
    Ui,
}

/// Everything that a pipeline is built from but its shader.
#[derive(Debug)]
pub struct PipelineDesc {
    pub label: &'static str,
    pub vertex_entry: &'static str,
    pub fragment_entry: &'static str,
    /// The vertex buffers, by slot.
    pub buffers: Vec<VertexLayout>,
    /// The bind groups, by index; one may be left out.
    pub groups: Vec<Option<Group>>,
    pub blend: BlendState,
    /// Whether depth is written, and how it is compared; nothing where the
    /// pipeline has no depth at all.
    pub depth: Option<(bool, CompareFunction)>,
    pub cull_back: bool,
}

/// The names of a pipeline and of its stages.
pub open spec fn named_for(kind: PipelineKind, desc: PipelineDesc) -> bool {
    match kind {
        PipelineKind::Forward(variant) => desc.label@ == label_for(variant) && desc.vertex_entry@
            == "vs_main"@ && desc.fragment_entry@ == "fs_main"@,
        PipelineKind::Sky => desc.label@ == "sky gradient"@ && desc.vertex_entry@ == "vs_sky"@
            && desc.fragment_entry@ == "fs_sky"@,
        PipelineKind::Fullscreen => desc.label@ == "fullscreen pass"@ && desc.vertex_entry@
            == "vs_blit"@ && desc.fragment_entry@ == "fs_blit"@,
        PipelineKind::Ui => desc.label@ == "ui quads"@ && desc.vertex_entry@ == "vs_ui"@
            && desc.fragment_entry@ == "fs_ui"@,
    }
}

/// The buffers that a pipeline reads: the mesh and the instances, the quads, or
/// none where the corners come from the vertex's number.
pub open spec fn buffers_for(kind: PipelineKind, buffers: Seq<VertexLayout>) -> bool {
    match kind {
        PipelineKind::Forward(_) => buffers.len() == 2 && packed(
            buffers[0],
            vertex_formats(),
            0,
            false,
        ) && packed(buffers[1], instance_formats(), 4, true),
        PipelineKind::Ui => buffers.len() == 1 && packed(buffers[0], quad_formats(), 0, true),
        _ => buffers.len() == 0,
    }
}

/// The groups that a pipeline binds. The frame is always the first, and the
/// material the third, so that an index means one thing wherever it is used.
pub open spec fn groups_for(kind: PipelineKind) -> Seq<Option<Group>> {
    match kind {
        PipelineKind::Forward(_) => seq![Some(Group::Frame), None, Some(Group::Material)],
        PipelineKind::Sky => seq![Some(Group::Frame)],
        PipelineKind::Fullscreen => seq![Some(Group::Frame), Some(Group::Source)],
        PipelineKind::Ui => seq![Some(Group::UiFrame), Some(Group::Atlas)],
    }
}

/// What a pipeline is built from.
pub open spec fn describes(kind: PipelineKind, desc: PipelineDesc) -> bool {
    &&& named_for(kind, desc)
    &&& buffers_for(kind, desc.buffers@)
    &&& desc.groups@ == groups_for(kind)
    &&& match kind {
        PipelineKind::Forward(variant) => desc.blend == blend_for(variant) && desc.depth == Some(
            (writes_depth(variant), compare_for(variant)),
        ) && desc.cull_back == !flagged(variant, 13),
        PipelineKind::Sky => desc.blend == replacing() && desc.depth == Some(
            (false, CompareFunction::Always),
        ) && !desc.cull_back,
        PipelineKind::Fullscreen => desc.blend == replacing() && desc.depth is None
            && !desc.cull_back,
        PipelineKind::Ui => desc.blend == premultiplied() && desc.depth is None && !desc.cull_back,
    }
}

/// What to build a pipeline from.
pub fn pipeline(kind: PipelineKind) -> (r: PipelineDesc)
    ensures
        describes(kind, r),
{
    match kind {
        PipelineKind::Forward(variant) => forward_pipeline(variant),
        PipelineKind::Sky => {
            let groups: Vec<Option<Group>> = vec![Some(Group::Frame)];
            proof {
                assert(groups@ =~= groups_for(kind));
            }
            PipelineDesc {
                label: "sky gradient",
                vertex_entry: "vs_sky",
                fragment_entry: "fs_sky",
                buffers: Vec::new(),
                groups,
                blend: BlendState::replace(),
                depth: Some((false, CompareFunction::Always)),
                cull_back: false,
            }
        },
        PipelineKind::Fullscreen => {
            let groups: Vec<Option<Group>> = vec![Some(Group::Frame), Some(Group::Source)];
            proof {
                assert(groups@ =~= groups_for(kind));
            }
            PipelineDesc {
                label: "fullscreen pass",
                vertex_entry: "vs_blit",
                fragment_entry: "fs_blit",
                buffers: Vec::new(),
                groups,
                blend: BlendState::replace(),
                depth: None,
                cull_back: false,
            }
        },
        PipelineKind::Ui => {
            let groups: Vec<Option<Group>> = vec![Some(Group::UiFrame), Some(Group::Atlas)];
            proof {
                assert(groups@ =~= groups_for(kind));
            }
            PipelineDesc {
                label: "ui quads",
                vertex_entry: "vs_ui",
                fragment_entry: "fs_ui",
                buffers: vec![quad_layout()],
                groups,
                blend: BlendState::premultiplied(),
                depth: None,
                cull_back: false,
            }
        },
    }
}

fn forward_pipeline(variant: MaterialVariant) -> (r: PipelineDesc)
    ensures
        describes(PipelineKind::Forward(variant), r),
{
    let state: PipelineState = render_state(variant);
    let groups: Vec<Option<Group>> = vec![Some(Group::Frame), None, Some(Group::Material)];
    proof {
        assert(groups@ =~= groups_for(PipelineKind::Forward(variant)));
    }
    PipelineDesc {
        label: state.label,
        vertex_entry: "vs_main",
        fragment_entry: "fs_main",
        buffers: vec![vertex_layout(), instance_layout()],
        groups,
        blend: state.blend,
        depth: Some((state.depth_write, state.depth_compare)),
        cull_back: state.cull_back,
    }
}

/// How many attributes the first `n` buffers have.
pub open spec fn attribute_count(buffers: Seq<VertexLayout>, n: int) -> int
    decreases n,
{
    if n <= 0 {
        0
    } else {
        attribute_count(buffers, n - 1) + buffers[n - 1].attributes@.len()
    }
}

/// Every pipeline fits the narrowest device that is drawn on: four bind groups,
/// eight vertex buffers and sixteen attributes; and no two attributes of it share
/// a location.
pub proof fn pipelines_fit_the_narrowest_device(kind: PipelineKind, desc: PipelineDesc)
    requires
        describes(kind, desc),
    ensures
        desc.groups@.len() <= 4,
        desc.buffers@.len() <= 8,
        attribute_count(desc.buffers@, desc.buffers@.len() as int) <= 16,
        forall|a: int, b: int, i: int, j: int|
            0 <= a < desc.buffers@.len() && 0 <= b < desc.buffers@.len() && 0 <= i
                < desc.buffers@[a].attributes@.len() && 0 <= j < desc.buffers@[b].attributes@.len()
                && (a != b || i != j) ==> (#[trigger] desc.buffers@[a].attributes@[i]).location
                != (#[trigger] desc.buffers@[b].attributes@[j]).location,
{
    reveal_with_fuel(attribute_count, 3);
}

/// Of everything that is drawn, only an opaque material decides what is in front:
/// the sky, the fullscreen pass and the overlay write no depth.
pub proof fn only_materials_write_depth(kind: PipelineKind, desc: PipelineDesc)
    requires
        describes(kind, desc),
        desc.depth matches Some((true, _)),
    ensures
        kind is Forward,
        desc.blend == replacing(),
{
}

/// A texture that is drawn into, or that stands in for one.
#[derive(Clone, Copy, Debug, PartialEq, Eq, Structural, Hash)]
pub enum TextureRole {
    /// The depth of the screen's frame.
    Depth,
    /// The frame at a scale of its own.
    RenderScale,
    /// The picture of a camera that draws into a texture.
    SceneTarget,
    /// Its depth.
    SceneTargetDepth,
    /// What the overlay reads where a quad has no texture: one white texel.
    White,
}

/// The format of a texture: that of the screen, that of depth, or a fixed one.
#[derive(Clone, Copy, Debug, PartialEq, Eq, Structural, Hash)]
pub enum TextureFormat {
    Target,
    Depth,
    Rgba8,
}

/// What a texture is made as. It has one layer, one mip level and one sample.
#[derive(Debug)]
pub struct TextureDesc {
    pub label: &'static str,
    pub width: u32,
    pub height: u32,
    pub format: TextureFormat,
    /// What it may be used as.
    pub attachment: bool,
    pub binding: bool,
    pub copy_src: bool,
    pub copy_dst: bool,
}

/// What a texture of a role is made as.
pub open spec fn texture_describes(
    role: TextureRole,
    width: u32,
    height: u32,
    desc: TextureDesc,
) -> bool {
    match role {
        TextureRole::Depth => desc.label@ == "depth"@ && desc.width == width && desc.height
            == height && desc.format == TextureFormat::Depth && desc.attachment && !desc.binding
            && !desc.copy_src && !desc.copy_dst,
        TextureRole::RenderScale => desc.label@ == "render scale target"@ && desc.width == width
            && desc.height == height && desc.format == TextureFormat::Target && desc.attachment
            && desc.binding && !desc.copy_src && !desc.copy_dst,
        TextureRole::SceneTarget => desc.label@ == "scene target"@ && desc.width == width
            && desc.height == height && desc.format == TextureFormat::Target && desc.attachment
            && desc.binding && desc.copy_src && !desc.copy_dst,
        TextureRole::SceneTargetDepth => desc.label@ == "scene target depth"@ && desc.width == width
            && desc.height == height && desc.format == TextureFormat::Depth && desc.attachment
            && !desc.binding && !desc.copy_src && !desc.copy_dst,
        TextureRole::White => desc.label@ == "ui white"@ && desc.width == 1 && desc.height == 1
            && desc.format == TextureFormat::Rgba8 && !desc.attachment && desc.binding
            && !desc.copy_src && desc.copy_dst,
    }
}

/// What to make a texture as.
pub fn texture(role: TextureRole, width: u32, height: u32) -> (r: TextureDesc)
    ensures
        texture_describes(role, width, height, r),
{
    match role {
        TextureRole::Depth => TextureDesc {
            label: "depth",
            width,
            height,
            format: TextureFormat::Depth,
            attachment: true,
            binding: false,
            copy_src: false,
            copy_dst: false,
        },
        TextureRole::RenderScale => TextureDesc {
            label: "render scale target",
            width,
            height,
            format: TextureFormat::Target,
            attachment: true,
            binding: true,
            copy_src: false,
            copy_dst: false,
        },
        TextureRole::SceneTarget => TextureDesc {
            label: "scene target",
            width,
            height,
            format: TextureFormat::Target,
            attachment: true,
            binding: true,
            copy_src: true,
            copy_dst: false,
        },
        TextureRole::SceneTargetDepth => TextureDesc {
            label: "scene target depth",
            width,
            height,
            format: TextureFormat::Depth,
            attachment: true,
            binding: false,
            copy_src: false,
            copy_dst: false,
        },
        TextureRole::White => TextureDesc {
            label: "ui white",
            width: 1,
            height: 1,
            format: TextureFormat::Rgba8,
            attachment: false,
            binding: true,
            copy_src: false,
            copy_dst: true,
        },
    }
}

} // verus!
