//! Materials: what a draw looks like, and the shader text that makes it so.
//!
//! A [`MaterialVariant`] is a set of flags that selects one pipeline. Every flag
//! becomes a `const` at the head of the shader source, so an unused look folds
//! away at compile time.

use vstd::prelude::*;
use vstd::std_specs::ops::BitOrSpecImpl;
use crate::float::{one4, zero4, Vec4};
use crate::texture::TextureHandle;

verus! {

/// A set of material flags: the key a pipeline is compiled and cached under.
#[derive(Clone, Copy, Debug, PartialEq, Eq, PartialOrd, Ord, Structural, Hash)]
pub struct MaterialVariant(pub u32);

/// How many flags there are.
pub const FLAG_COUNT: u32 = 19;

impl MaterialVariant {
    pub const NONE: u32 = 0;

    /// Multiply by the mesh's own colours.
    pub const VERTEX_COLOR: u32 = 0x1;

    /// Sample the baked texture.
    pub const TEXTURE: u32 = 0x2;

    /// Look the lighting up in a ramp. Declared, and not drawn yet.
    pub const RAMP: u32 = 0x4;

    /// Evaluate the texture per pixel in place of sampling its bake.
    pub const LIVE_TEX: u32 = 0x8;

    /// Perturb the normal with the texture's.
    pub const NORMAL_MAP: u32 = 0x10;

    /// Blend over what is there.
    pub const TRANSPARENT: u32 = 0x20;

    /// Add to what is there. Wins over [`TRANSPARENT`](Self::TRANSPARENT).
    pub const ADDITIVE: u32 = 0x40;

    /// Draw exactly where something else is in front.
    pub const DEPTH_GREATER: u32 = 0x80;

    /// Answer to the phase circle.
    pub const PHASE_CIRCLE: u32 = 0x100;

    /// No lighting.
    pub const BILLBOARD_UNLIT: u32 = 0x200;

    /// A rim along the silhouette, unlit.
    pub const FRESNEL: u32 = 0x400;

    /// A wipe along the surface, unlit.
    pub const EMISSIVE_SWEEP: u32 = 0x800;

    /// Sway the vertices.
    pub const VERTEX_WAVE: u32 = 0x1000;

    /// Draw both faces.
    pub const TWO_SIDED: u32 = 0x2000;

    /// Receive the key light's shadow. The renderer's to set, never a material's.
    pub const SHADOW: u32 = 0x4000;

    /// Sample the texture in the object's own space.
    pub const LOCAL_SPACE: u32 = 0x8000;

    /// Keep the inside of the phase circle rather than the outside.
    pub const PHASE_INVERT: u32 = 0x1_0000;

    /// Take the phase circle's fringe and keep everything.
    pub const PHASE_NO_DISCARD: u32 = 0x2_0000;

    /// Scroll the texture.
    pub const TEXTURE_SCROLL: u32 = 0x4_0000;

    /// The flags that say which way round the phase circle cuts.
    pub const PHASE_MODE: u32 = 0x3_0000;

    /// The flags that blend, and so are drawn after everything that does not.
    pub const BLENDED: u32 = 0x60;

    /// The flags that the shader draws: all but the ramp.
    pub const IMPLEMENTED: u32 = 0x7_fffb;

    /// The flags that replace the lighting.
    pub const UNLIT: u32 = 0xe00;

    pub fn from_bits(bits: u32) -> (r: MaterialVariant)
        ensures
            r == MaterialVariant(bits),
    {
        MaterialVariant(bits)
    }

    pub fn bits(self) -> (r: u32)
        ensures
            r == self.0,
    {
        self.0
    }

    /// Whether every flag of `other` is set here.
    pub fn contains(self, other: MaterialVariant) -> (r: bool)
        ensures
            r == includes(self.0, other.0),
    {
        proof {
            includes_by_mask(self.0, other.0);
        }
        self.0 & other.0 == other.0
    }

    /// Whether some flag of `other` is set here.
    pub fn intersects(self, other: MaterialVariant) -> (r: bool)
        ensures
            r == meets(self.0, other.0),
    {
        proof {
            meets_by_mask(self.0, other.0);
        }
        self.0 & other.0 != 0
    }

    pub fn is_empty(self) -> (r: bool)
        ensures
            r == (forall|i: u32| i < 32 ==> !#[trigger] has_bit(self.0, i)),
    {
        proof {
            empty_by_value(self.0);
        }
        self.0 == 0
    }

    /// The flags set here that the shader does not draw.
    pub fn unimplemented(self) -> (r: MaterialVariant)
        ensures
            r.0 == self.0 & !Self::IMPLEMENTED,
            forall|i: u32|
                i < 32 ==> #[trigger] has_bit(r.0, i) == (has_bit(self.0, i) && !has_bit(
                    Self::IMPLEMENTED,
                    i,
                )),
    {
        let bits: u32 = self.0;
        let mask: u32 = Self::IMPLEMENTED;
        assert forall|i: u32| i < 32 implies #[trigger] has_bit(bits & !mask, i) == (has_bit(
            bits,
            i,
        ) && !has_bit(mask, i)) by {
            assert(((bits & !mask) >> i) & 1 == 1 <==> ((bits >> i) & 1 == 1 && (mask >> i) & 1
                != 1)) by (bit_vector)
                requires
                    i < 32,
            ;
        }
        MaterialVariant(bits & !mask)
    }
}

/// Whether bit `i` of `bits` is set.
pub open spec fn has_bit(bits: u32, i: u32) -> bool {
    (bits >> i) & 1 == 1
}

/// Whether every bit of `b` is one of `a`.
pub open spec fn includes(a: u32, b: u32) -> bool {
    forall|i: u32| i < 32 && #[trigger] has_bit(b, i) ==> has_bit(a, i)
}

/// Whether `a` and `b` have a bit in common.
pub open spec fn meets(a: u32, b: u32) -> bool {
    exists|i: u32| i < 32 && #[trigger] has_bit(a, i) && has_bit(b, i)
}

proof fn includes_by_mask(a: u32, b: u32)
    ensures
        includes(a, b) <==> a & b == b,
{
    if a & b == b {
        assert forall|i: u32| i < 32 && #[trigger] has_bit(b, i) implies has_bit(a, i) by {
            assert((a >> i) & 1 == 1) by (bit_vector)
                requires
                    a & b == b,
                    (b >> i) & 1 == 1,
                    i < 32,
            ;
        }
    } else {
        differing_bit(a & b, b);
        let i = choose|i: u32| i < 32 && #[trigger] has_bit(a & b, i) != has_bit(b, i);
        assert((b >> i) & 1 == 1 && (a >> i) & 1 != 1) by (bit_vector)
            requires
                i < 32,
                (((a & b) >> i) & 1 == 1) != ((b >> i) & 1 == 1),
        ;
        assert(has_bit(b, i) && !has_bit(a, i));
    }
}

proof fn meets_by_mask(a: u32, b: u32)
    ensures
        meets(a, b) <==> a & b != 0,
{
    if a & b != 0 {
        differing_bit(a & b, 0);
        let i = choose|i: u32| i < 32 && #[trigger] has_bit(a & b, i) != has_bit(0, i);
        assert((a >> i) & 1 == 1 && (b >> i) & 1 == 1) by (bit_vector)
            requires
                i < 32,
                (((a & b) >> i) & 1 == 1) != ((0u32 >> i) & 1 == 1),
        ;
        assert(has_bit(a, i) && has_bit(b, i));
    } else {
        assert forall|i: u32| i < 32 && #[trigger] has_bit(a, i) implies !has_bit(b, i) by {
            assert((b >> i) & 1 != 1) by (bit_vector)
                requires
                    a & b == 0,
                    (a >> i) & 1 == 1,
                    i < 32,
            ;
        }
    }
}

proof fn empty_by_value(a: u32)
    ensures
        (forall|i: u32| i < 32 ==> !#[trigger] has_bit(a, i)) <==> a == 0,
{
    if a == 0 {
        assert forall|i: u32| i < 32 implies !#[trigger] has_bit(a, i) by {
            assert((0u32 >> i) & 1 != 1) by (bit_vector);
        }
    } else {
        differing_bit(a, 0);
        let i = choose|i: u32| i < 32 && #[trigger] has_bit(a, i) != has_bit(0, i);
        assert((0u32 >> i) & 1 != 1) by (bit_vector);
        assert(has_bit(a, i));
    }
}

/// Two words that differ, differ in some bit.
proof fn differing_bit(a: u32, b: u32)
    requires
        a != b,
    ensures
        exists|i: u32| i < 32 && #[trigger] has_bit(a, i) != has_bit(b, i),
{
    if forall|i: u32| i < 32 ==> #[trigger] has_bit(a, i) == has_bit(b, i) {
        same_bits(a, b);
    }
}

/// Words with the same bits are the same.
proof fn same_bits(a: u32, b: u32)
    requires
        forall|i: u32| i < 32 ==> #[trigger] has_bit(a, i) == has_bit(b, i),
    ensures
        a == b,
{
    same_from(a, b, 0);
    assert(a == b) by (bit_vector)
        requires
            a >> 0u32 == b >> 0u32,
    ;
}

proof fn same_from(a: u32, b: u32, n: u32)
    requires
        n < 32,
        forall|i: u32| i < 32 ==> #[trigger] has_bit(a, i) == has_bit(b, i),
    ensures
        a >> n == b >> n,
    decreases 32 - n,
{
    assert(has_bit(a, n) == has_bit(b, n));
    if n == 31 {
        assert(a >> 31u32 == b >> 31u32) by (bit_vector)
            requires
                ((a >> 31u32) & 1 == 1) == ((b >> 31u32) & 1 == 1),
        ;
    } else {
        let m = (n + 1) as u32;
        same_from(a, b, m);
        assert(a >> n == b >> n) by (bit_vector)
            requires
                n < 31,
                m == n + 1,
                a >> m == b >> m,
                ((a >> n) & 1 == 1) == ((b >> n) & 1 == 1),
        ;
    }
}

/// The name that the shader knows flag `i` by.
pub open spec fn flag_name(i: int) -> Seq<char> {
    if i == 0 {
        "F_VERTEX_COLOR"@
    } else if i == 1 {
        "F_TEXTURE"@
    } else if i == 2 {
        "F_RAMP"@
    } else if i == 3 {
        "F_LIVE_TEX"@
    } else if i == 4 {
        "F_NORMAL_MAP"@
    } else if i == 5 {
        "F_TRANSPARENT"@
    } else if i == 6 {
        "F_ADDITIVE"@
    } else if i == 7 {
        "F_DEPTH_GREATER"@
    } else if i == 8 {
        "F_PHASE_CIRCLE"@
    } else if i == 9 {
        "F_BILLBOARD_UNLIT"@
    } else if i == 10 {
        "F_FRESNEL"@
    } else if i == 11 {
        "F_EMISSIVE_SWEEP"@
    } else if i == 12 {
        "F_VERTEX_WAVE"@
    } else if i == 13 {
        "F_TWO_SIDED"@
    } else if i == 14 {
        "F_SHADOW"@
    } else if i == 15 {
        "F_LOCAL_SPACE"@
    } else if i == 16 {
        "F_PHASE_INVERT"@
    } else if i == 17 {
        "F_PHASE_NO_DISCARD"@
    } else {
        "F_TEXTURE_SCROLL"@
    }
}

fn name_of_flag(i: u32) -> (r: &'static str)
    requires
        i < FLAG_COUNT,
    ensures
        r@ == flag_name(i as int),
{
    match i {
        0 => "F_VERTEX_COLOR",
        1 => "F_TEXTURE",
        2 => "F_RAMP",
        3 => "F_LIVE_TEX",
        4 => "F_NORMAL_MAP",
        5 => "F_TRANSPARENT",
        6 => "F_ADDITIVE",
        7 => "F_DEPTH_GREATER",
        8 => "F_PHASE_CIRCLE",
        9 => "F_BILLBOARD_UNLIT",
        10 => "F_FRESNEL",
        11 => "F_EMISSIVE_SWEEP",
        12 => "F_VERTEX_WAVE",
        13 => "F_TWO_SIDED",
        14 => "F_SHADOW",
        15 => "F_LOCAL_SPACE",
        16 => "F_PHASE_INVERT",
        17 => "F_PHASE_NO_DISCARD",
        _ => "F_TEXTURE_SCROLL",
    }
}

/// The line that declares flag `i`.
pub open spec fn flag_line(bits: u32, i: int) -> Seq<char> {
    "const "@ + flag_name(i) + ": bool = "@ + (if has_bit(bits, i as u32) {
        "true"@
    } else {
        "false"@
    }) + ";\n"@
}

/// The lines that declare the first `n` flags.
pub open spec fn flag_lines(bits: u32, n: int) -> Seq<char>
    decreases n,
{
    if n <= 0 {
        Seq::empty()
    } else {
        flag_lines(bits, n - 1) + flag_line(bits, n - 1)
    }
}

/// Whether `r` is the source of a variant.
pub open spec fn sources(
    base: Seq<char>,
    variant: MaterialVariant,
    noise: Seq<char>,
    r: Seq<char>,
) -> bool {
    r == "// generated by runt_core::material::variant_source\n"@ + flag_lines(
        variant.0,
        FLAG_COUNT as int,
    ) + noise + "\n"@ + base
}

/// The shader source of a variant: a line for every flag, the noise functions,
/// and the base shader that reads both.
pub fn variant_source(base: &str, variant: MaterialVariant, noise: &str) -> (r: String)
    ensures
        sources(base@, variant, noise@, r@),
{
    let head: &str = "// generated by runt_core::material::variant_source\n";
    let mut out: String = head.to_owned();
    let mut i: u32 = 0;
    proof {
        assert(head@ + flag_lines(variant.0, 0) =~= head@);
    }
    while i < FLAG_COUNT
        invariant
            i <= FLAG_COUNT,
            out@ == head@ + flag_lines(variant.0, i as int),
        decreases FLAG_COUNT - i,
    {
        let bits: u32 = variant.0;
        let on: bool = (bits >> i) & 1 == 1;
        out.append("const ");
        out.append(name_of_flag(i));
        out.append(": bool = ");
        if on {
            out.append("true");
        } else {
            out.append("false");
        }
        out.append(";\n");
        proof {
            assert(out@ =~= head@ + flag_lines(variant.0, i as int) + flag_line(
                variant.0,
                i as int,
            ));
            assert(out@ =~= head@ + flag_lines(variant.0, i + 1));
        }
        i = i + 1;
    }
    out.append(noise);
    out.append("\n");
    out.append(base);
    out
}

impl core::ops::BitOr for MaterialVariant {
    type Output = MaterialVariant;

    fn bitor(self, rhs: MaterialVariant) -> MaterialVariant {
        MaterialVariant(self.0 | rhs.0)
    }
}

impl BitOrSpecImpl for MaterialVariant {
    open spec fn obeys_bitor_spec() -> bool {
        true
    }

    open spec fn bitor_req(self, rhs: MaterialVariant) -> bool {
        true
    }

    open spec fn bitor_spec(self, rhs: MaterialVariant) -> MaterialVariant {
        MaterialVariant(self.0 | rhs.0)
    }
}

impl core::ops::BitOrAssign for MaterialVariant {
    fn bitor_assign(&mut self, rhs: MaterialVariant)
        ensures
            *final(self) == MaterialVariant(old(self).0 | rhs.0),
    {
        self.0 = self.0 | rhs.0;
    }
}

/// What a draw looks like. The colours and parameters are carried to the GPU as
/// they are.
#[derive(Clone, Copy, Debug, PartialEq, Eq, Structural, Hash)]
pub struct Material {
    pub base_color: Vec4,
    pub params: Vec4,
    pub texture: Option<TextureHandle>,
    pub variant: MaterialVariant,
}

/// White, lit, with the mesh's own colours.
pub open spec fn plain_material() -> Material {
    Material {
        base_color: one4(),
        params: zero4(),
        texture: None,
        variant: MaterialVariant(MaterialVariant::VERTEX_COLOR),
    }
}

impl Default for Material {
    fn default() -> (r: Material)
        ensures
            r == plain_material(),
    {
        Material::vertex_colored()
    }
}

impl Material {
    /// Put the material under the phase circle, in the mode that `mode`'s
    /// [`PHASE_MODE`](MaterialVariant::PHASE_MODE) flags name. Its other flags
    /// stay, and a mode it had before goes.
    pub fn set_phase_mode(&mut self, mode: MaterialVariant)
        ensures
            phases(*old(self), mode, *final(self)),
    {
        let before: u32 = self.variant.bits();
        let asked: u32 = mode.bits();
        let mask: u32 = MaterialVariant::PHASE_MODE;
        let circle: u32 = MaterialVariant::PHASE_CIRCLE;
        let kept: u32 = before & !mask;
        let chosen: u32 = asked & mask;
        self.variant = MaterialVariant::from_bits(kept | chosen) | MaterialVariant(circle);
        proof {
            let after = kept | chosen | circle;
            assert forall|i: u32| i < 32 implies #[trigger] has_bit(after, i) == in_phase_mode(
                before,
                asked,
                i,
            ) by {
                assert(((((before & !mask) | (asked & mask) | circle) >> i) & 1 == 1) == (if i == 8 {
                    true
                } else if i == 16 || i == 17 {
                    (asked >> i) & 1 == 1
                } else {
                    (before >> i) & 1 == 1
                })) by (bit_vector)
                    requires
                        i < 32,
                        mask == 0x3_0000,
                        circle == 0x100,
                ;
            }
        }
    }

    pub fn vertex_colored() -> (r: Material)
        ensures
            r == plain_material(),
    {
        Material {
            base_color: Vec4::one(),
            params: Vec4::zero(),
            texture: None,
            variant: MaterialVariant(MaterialVariant::VERTEX_COLOR),
        }
    }

    /// One colour all over.
    pub fn flat(base_color: Vec4) -> (r: Material)
        ensures
            r == (Material {
                base_color,
                params: zero4(),
                texture: None,
                variant: MaterialVariant(0),
            }),
    {
        Material {
            base_color,
            params: Vec4::zero(),
            texture: None,
            variant: MaterialVariant(MaterialVariant::NONE),
        }
    }

    /// The mesh's own colours, times one colour.
    pub fn tinted(base_color: Vec4) -> (r: Material)
        ensures
            r == (Material { base_color, ..plain_material() }),
    {
        Material { base_color, ..Material::vertex_colored() }
    }

    /// A texture, with its normals.
    pub fn textured(handle: TextureHandle) -> (r: Material)
        ensures
            r == (Material {
                base_color: one4(),
                params: zero4(),
                texture: Some(handle),
                variant: MaterialVariant(0x12),
            }),
    {
        assert(0x2u32 | 0x10u32 == 0x12u32) by (bit_vector);
        Material {
            base_color: Vec4::one(),
            params: Vec4::zero(),
            texture: Some(handle),
            variant: MaterialVariant(MaterialVariant::TEXTURE) | MaterialVariant(
                MaterialVariant::NORMAL_MAP,
            ),
        }
    }
}

/// Bit `i` of a key put under the phase circle: the circle's own flag is set, the
/// mode's flags are the asked ones, and the rest stay.
pub open spec fn in_phase_mode(before: u32, mode: u32, i: u32) -> bool {
    if i == 8 {
        true
    } else if i == 16 || i == 17 {
        has_bit(mode, i)
    } else {
        has_bit(before, i)
    }
}

/// Whether `after` is the material `before` put under the phase circle.
pub open spec fn phases(before: Material, mode: MaterialVariant, after: Material) -> bool {
    &&& after.base_color == before.base_color
    &&& after.params == before.params
    &&& after.texture == before.texture
    &&& forall|i: u32|
        i < 32 ==> #[trigger] has_bit(after.variant.0, i) == in_phase_mode(
            before.variant.0,
            mode.0,
            i,
        )
}

} // verus!
