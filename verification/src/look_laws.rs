//! What materials and textures are for: a shader that is told what it draws, a gradient
//! that gives a value its colour, and names that stand for what they name.

use vstd::prelude::*;
use crate::float::{F32, ONE_BITS, at_most, below};
use crate::material::{
    FLAG_COUNT, Material, MaterialVariant, flag_line, flag_lines, flag_name, has_bit,
    in_phase_mode, phases, sources,
};
use crate::shadow::{ShadowQuality, map_side};
use crate::texture::{
    FNV_OFFSET, NormalMode, RampPlace, RampStop, TextureEntry, TextureHandle, TextureSpec, answers,
    content_key_of, falls_on, fnv1a, fractal_index, has_handle, kept_entries, key_domain,
    lattice_index, mode_code, mode_index, octaves_of, reaches, registered, retains, return_index,
    side_at, spec_bytes, word_bytes,
};
use crate::noise::{CellReturn, Fractal, Lattice, NoiseKind, fractal_code, kind_code, return_code};

verus! {

/// The line that declares the flag `name`, as `on`.
pub open spec fn declaration(name: Seq<char>, on: bool) -> Seq<char> {
    if on {
        "const "@ + name + ": bool = "@ + "true"@ + ";\n"@
    } else {
        "const "@ + name + ": bool = "@ + "false"@ + ";\n"@
    }
}

/// Whether `source` declares the flag `name`, as `on`.
pub open spec fn declares(source: Seq<char>, name: Seq<char>, on: bool) -> bool {
    exists|front: Seq<char>, back: Seq<char>|
        source == #[trigger] (front + declaration(name, on) + back)
}

proof fn a_line_is_there(bits: u32, i: int, n: int)
    requires
        0 <= i < n,
    ensures
        exists|front: Seq<char>, back: Seq<char>|
            flag_lines(bits, n) == #[trigger] (front + flag_line(bits, i) + back),
    decreases n,
{
    if i == n - 1 {
        let front = flag_lines(bits, n - 1);
        assert(flag_lines(bits, n) =~= front + flag_line(bits, i) + Seq::<char>::empty());
    } else {
        a_line_is_there(bits, i, n - 1);
        let (front, back) = choose|front: Seq<char>, back: Seq<char>|
            flag_lines(bits, n - 1) == #[trigger] (front + flag_line(bits, i) + back);
        assert(flag_lines(bits, n) =~= front + flag_line(bits, i) + (back + flag_line(
            bits,
            n - 1,
        )));
    }
}

proof fn a_flag_is_declared(
    base: Seq<char>,
    variant: MaterialVariant,
    noise: Seq<char>,
    r: Seq<char>,
    i: int,
)
    requires
        sources(base, variant, noise, r),
        0 <= i < FLAG_COUNT,
    ensures
        declares(r, flag_name(i), has_bit(variant.0, i as u32)),
{
    let bits = variant.0;
    a_line_is_there(bits, i, FLAG_COUNT as int);
    let (front, back) = choose|front: Seq<char>, back: Seq<char>|
        flag_lines(bits, FLAG_COUNT as int) == #[trigger] (front + flag_line(bits, i) + back);
    let head = "// generated by runt_core::material::variant_source\n"@;
    let all_front = head + front;
    let all_back = back + noise + "\n"@ + base;
    let line = declaration(flag_name(i), has_bit(bits, i as u32));
    assert(line == flag_line(bits, i));
    assert(r =~= all_front + line + all_back);
}

/// Every flag is a bit of its own, and which.
pub proof fn bits_are_flags(bits: u32)
    ensures
        has_bit(bits, 0) == (bits & MaterialVariant::VERTEX_COLOR != 0),
        has_bit(bits, 1) == (bits & MaterialVariant::TEXTURE != 0),
        has_bit(bits, 2) == (bits & MaterialVariant::RAMP != 0),
        has_bit(bits, 3) == (bits & MaterialVariant::LIVE_TEX != 0),
        has_bit(bits, 4) == (bits & MaterialVariant::NORMAL_MAP != 0),
        has_bit(bits, 5) == (bits & MaterialVariant::TRANSPARENT != 0),
        has_bit(bits, 6) == (bits & MaterialVariant::ADDITIVE != 0),
        has_bit(bits, 7) == (bits & MaterialVariant::DEPTH_GREATER != 0),
        has_bit(bits, 8) == (bits & MaterialVariant::PHASE_CIRCLE != 0),
        has_bit(bits, 9) == (bits & MaterialVariant::BILLBOARD_UNLIT != 0),
        has_bit(bits, 10) == (bits & MaterialVariant::FRESNEL != 0),
        has_bit(bits, 11) == (bits & MaterialVariant::EMISSIVE_SWEEP != 0),
        has_bit(bits, 12) == (bits & MaterialVariant::VERTEX_WAVE != 0),
        has_bit(bits, 13) == (bits & MaterialVariant::TWO_SIDED != 0),
        has_bit(bits, 14) == (bits & MaterialVariant::SHADOW != 0),
        has_bit(bits, 15) == (bits & MaterialVariant::LOCAL_SPACE != 0),
        has_bit(bits, 16) == (bits & MaterialVariant::PHASE_INVERT != 0),
        has_bit(bits, 17) == (bits & MaterialVariant::PHASE_NO_DISCARD != 0),
        has_bit(bits, 18) == (bits & MaterialVariant::TEXTURE_SCROLL != 0),
{
    assert(((bits >> 0u32) & 1 == 1) == (bits & 0x1 != 0) && ((bits >> 1u32) & 1 == 1) == (bits & 0x2
        != 0) && ((bits >> 2u32) & 1 == 1) == (bits & 0x4 != 0) && ((bits >> 3u32) & 1 == 1) == (bits
        & 0x8 != 0) && ((bits >> 4u32) & 1 == 1) == (bits & 0x10 != 0) && ((bits >> 5u32) & 1 == 1)
        == (bits & 0x20 != 0) && ((bits >> 6u32) & 1 == 1) == (bits & 0x40 != 0) && ((bits >> 7u32)
        & 1 == 1) == (bits & 0x80 != 0) && ((bits >> 8u32) & 1 == 1) == (bits & 0x100 != 0) && ((bits
        >> 9u32) & 1 == 1) == (bits & 0x200 != 0)) by (bit_vector);
    assert(((bits >> 10u32) & 1 == 1) == (bits & 0x400 != 0) && ((bits >> 11u32) & 1 == 1) == (bits
        & 0x800 != 0) && ((bits >> 12u32) & 1 == 1) == (bits & 0x1000 != 0) && ((bits >> 13u32) & 1
        == 1) == (bits & 0x2000 != 0) && ((bits >> 14u32) & 1 == 1) == (bits & 0x4000 != 0) && ((bits
        >> 15u32) & 1 == 1) == (bits & 0x8000 != 0) && ((bits >> 16u32) & 1 == 1) == (bits
        & 0x1_0000 != 0) && ((bits >> 17u32) & 1 == 1) == (bits & 0x2_0000 != 0) && ((bits >> 18u32)
        & 1 == 1) == (bits & 0x4_0000 != 0)) by (bit_vector);
}

/// A variant's source declares every flag under its own name, true where the variant has
/// it and false where it has not, and ends with the noise functions and the base shader.
pub proof fn a_source_declares_every_flag(
    base: Seq<char>,
    variant: MaterialVariant,
    noise: Seq<char>,
    r: Seq<char>,
)
    requires
        sources(base, variant, noise, r),
    ensures
        declares(r, "F_VERTEX_COLOR"@, variant.0 & MaterialVariant::VERTEX_COLOR != 0),
        declares(r, "F_TEXTURE"@, variant.0 & MaterialVariant::TEXTURE != 0),
        declares(r, "F_RAMP"@, variant.0 & MaterialVariant::RAMP != 0),
        declares(r, "F_LIVE_TEX"@, variant.0 & MaterialVariant::LIVE_TEX != 0),
        declares(r, "F_NORMAL_MAP"@, variant.0 & MaterialVariant::NORMAL_MAP != 0),
        declares(r, "F_TRANSPARENT"@, variant.0 & MaterialVariant::TRANSPARENT != 0),
        declares(r, "F_ADDITIVE"@, variant.0 & MaterialVariant::ADDITIVE != 0),
        declares(r, "F_DEPTH_GREATER"@, variant.0 & MaterialVariant::DEPTH_GREATER != 0),
        declares(r, "F_PHASE_CIRCLE"@, variant.0 & MaterialVariant::PHASE_CIRCLE != 0),
        declares(r, "F_BILLBOARD_UNLIT"@, variant.0 & MaterialVariant::BILLBOARD_UNLIT != 0),
        declares(r, "F_FRESNEL"@, variant.0 & MaterialVariant::FRESNEL != 0),
        declares(r, "F_EMISSIVE_SWEEP"@, variant.0 & MaterialVariant::EMISSIVE_SWEEP != 0),
        declares(r, "F_VERTEX_WAVE"@, variant.0 & MaterialVariant::VERTEX_WAVE != 0),
        declares(r, "F_TWO_SIDED"@, variant.0 & MaterialVariant::TWO_SIDED != 0),
        declares(r, "F_SHADOW"@, variant.0 & MaterialVariant::SHADOW != 0),
        declares(r, "F_LOCAL_SPACE"@, variant.0 & MaterialVariant::LOCAL_SPACE != 0),
        declares(r, "F_PHASE_INVERT"@, variant.0 & MaterialVariant::PHASE_INVERT != 0),
        declares(r, "F_PHASE_NO_DISCARD"@, variant.0 & MaterialVariant::PHASE_NO_DISCARD != 0),
        declares(r, "F_TEXTURE_SCROLL"@, variant.0 & MaterialVariant::TEXTURE_SCROLL != 0),
        (noise + "\n"@ + base).is_suffix_of(r),
{
    bits_are_flags(variant.0);
    assert forall|i: int| 0 <= i < FLAG_COUNT implies declares(
        r,
        #[trigger] flag_name(i),
        has_bit(variant.0, i as u32),
    ) by {
        a_flag_is_declared(base, variant, noise, r, i);
    }
    assert(declares(r, flag_name(0), has_bit(variant.0, 0)));
    assert(declares(r, flag_name(1), has_bit(variant.0, 1)));
    assert(declares(r, flag_name(2), has_bit(variant.0, 2)));
    assert(declares(r, flag_name(3), has_bit(variant.0, 3)));
    assert(declares(r, flag_name(4), has_bit(variant.0, 4)));
    assert(declares(r, flag_name(5), has_bit(variant.0, 5)));
    assert(declares(r, flag_name(6), has_bit(variant.0, 6)));
    assert(declares(r, flag_name(7), has_bit(variant.0, 7)));
    assert(declares(r, flag_name(8), has_bit(variant.0, 8)));
    assert(declares(r, flag_name(9), has_bit(variant.0, 9)));
    assert(declares(r, flag_name(10), has_bit(variant.0, 10)));
    assert(declares(r, flag_name(11), has_bit(variant.0, 11)));
    assert(declares(r, flag_name(12), has_bit(variant.0, 12)));
    assert(declares(r, flag_name(13), has_bit(variant.0, 13)));
    assert(declares(r, flag_name(14), has_bit(variant.0, 14)));
    assert(declares(r, flag_name(15), has_bit(variant.0, 15)));
    assert(declares(r, flag_name(16), has_bit(variant.0, 16)));
    assert(declares(r, flag_name(17), has_bit(variant.0, 17)));
    assert(declares(r, flag_name(18), has_bit(variant.0, 18)));
    let tail = noise + "\n"@ + base;
    let head = "// generated by runt_core::material::variant_source\n"@ + flag_lines(
        variant.0,
        FLAG_COUNT as int,
    );
    assert(r =~= head + tail);
    assert(r.subrange(head.len() as int, r.len() as int) =~= tail);
}

/// A material put under the phase circle answers to it, in the mode that was asked for and
/// no other; and is as it was otherwise.
pub proof fn a_material_takes_the_mode_it_is_put_in(
    before: Material,
    mode: MaterialVariant,
    after: Material,
    i: u32,
)
    requires
        phases(before, mode, after),
        i < 32,
    ensures
        after.base_color == before.base_color,
        after.params == before.params,
        after.texture == before.texture,
        after.variant.0 & MaterialVariant::PHASE_CIRCLE != 0,
        (after.variant.0 & MaterialVariant::PHASE_INVERT != 0) == (mode.0
            & MaterialVariant::PHASE_INVERT != 0),
        (after.variant.0 & MaterialVariant::PHASE_NO_DISCARD != 0) == (mode.0
            & MaterialVariant::PHASE_NO_DISCARD != 0),
        i != 8 && i != 16 && i != 17 ==> has_bit(after.variant.0, i) == has_bit(
            before.variant.0,
            i,
        ),
{
    bits_are_flags(after.variant.0);
    bits_are_flags(mode.0);
    assert(has_bit(after.variant.0, 8) == in_phase_mode(before.variant.0, mode.0, 8));
    assert(has_bit(after.variant.0, 16) == in_phase_mode(before.variant.0, mode.0, 16));
    assert(has_bit(after.variant.0, 17) == in_phase_mode(before.variant.0, mode.0, 17));
    assert(has_bit(after.variant.0, i) == in_phase_mode(before.variant.0, mode.0, i));
}

/// The sets of flags are of the flags they are named for.
pub proof fn flag_sets_are_of_their_flags()
    ensures
        MaterialVariant::PHASE_MODE == MaterialVariant::PHASE_INVERT
            | MaterialVariant::PHASE_NO_DISCARD,
        MaterialVariant::BLENDED == MaterialVariant::TRANSPARENT | MaterialVariant::ADDITIVE,
        MaterialVariant::UNLIT == MaterialVariant::BILLBOARD_UNLIT | MaterialVariant::FRESNEL
            | MaterialVariant::EMISSIVE_SWEEP,
        MaterialVariant::IMPLEMENTED & MaterialVariant::RAMP == 0,
        MaterialVariant::IMPLEMENTED | MaterialVariant::RAMP == ((1u32 << FLAG_COUNT) - 1) as u32,
{
    assert(0x3_0000u32 == 0x1_0000u32 | 0x2_0000u32 && 0x60u32 == 0x20u32 | 0x40u32 && 0xe00u32
        == 0x200u32 | 0x400u32 | 0x800u32 && 0x7_fffbu32 & 0x4u32 == 0 && 0x7_fffbu32 | 0x4u32
        == 0x7_ffffu32 && 1u32 << 19u32 == 0x8_0000u32) by (bit_vector);
}

/// Whether `r` is `t`, moved up to zero or down to one where it is beyond them.
pub open spec fn moved_in(t: F32, r: F32) -> bool {
    r == if below(t, F32(0)) {
        F32(0)
    } else if below(F32(ONE_BITS), t) {
        F32(ONE_BITS)
    } else {
        t
    }
}

/// A value has the first stop's colour up to it, the last one's beyond all of them, and
/// between is mixed from two neighbours, the later of which is the first that it does not
/// pass. Without stops it is a grey.
pub proof fn a_value_has_the_colour_it_falls_on(
    ramp: Seq<RampStop>,
    t: F32,
    place: RampPlace,
    at: F32,
    i: int,
)
    requires
        falls_on(ramp, t, place),
        moved_in(t, at),
    ensures
        ramp.len() == 0 ==> place == RampPlace::Grey(at),
        ramp.len() > 0 && at_most(at, ramp[0].offset) ==> place == RampPlace::Held(ramp[0].color),
        ramp.len() > 0 && (forall|k: int|
            0 <= k < ramp.len() ==> !at_most(at, #[trigger] ramp[k].offset)) ==> place
            == RampPlace::Held(ramp[ramp.len() - 1].color),
        0 < i < ramp.len() && at_most(at, ramp[i].offset) && (forall|k: int|
            0 <= k < i ==> !at_most(at, #[trigger] ramp[k].offset)) ==> place
            == RampPlace::Between(at, ramp[i - 1], ramp[i]),
{
    if 0 < i < ramp.len() && at_most(at, ramp[i].offset) && (forall|k: int|
        0 <= k < i ==> !at_most(at, #[trigger] ramp[k].offset)) {
        assert(!at_most(at, ramp[0].offset));
        match place {
            RampPlace::Between(_, from, to) => {
                let j = choose|j: int| #[trigger]
                    reaches(ramp, at, j) && to == ramp[j] && from == ramp[j - 1];
                if j < i {
                    assert(!at_most(at, ramp[j].offset));
                } else if i < j {
                    assert(!at_most(at, ramp[i].offset));
                }
            },
            _ => {
                assert(!at_most(at, ramp[i].offset));
            },
        }
    }
    if ramp.len() > 0 && (forall|k: int|
        0 <= k < ramp.len() ==> !at_most(at, #[trigger] ramp[k].offset)) {
        assert(!at_most(at, ramp[0].offset));
        if let RampPlace::Between(_, from, to) = place {
            let j = choose|j: int| #[trigger]
                reaches(ramp, at, j) && to == ramp[j] && from == ramp[j - 1];
            assert(!at_most(at, ramp[j].offset));
        }
    }
}

/// Hashing goes on from where it was: what is hashed in two parts is hashed as one.
pub proof fn hashing_goes_on(h: u64, a: Seq<u8>, b: Seq<u8>)
    ensures
        fnv1a(h, a + b) == fnv1a(fnv1a(h, a), b),
    decreases b.len(),
{
    if b.len() == 0 {
        assert(a + b =~= a);
    } else {
        hashing_goes_on(h, a, b.drop_last());
        assert((a + b).drop_last() =~= a + b.drop_last());
        assert((a + b).last() == b.last());
    }
}

/// A byte is mixed in, and the whole multiplied.
pub proof fn a_byte_is_hashed(h: u64, byte: u8)
    ensures
        fnv1a(h, seq![byte]) as int == ((h ^ (byte as u64)) as int * 0x100_0000_01b3)
            % 0x1_0000_0000_0000_0000,
{
    assert(seq![byte].drop_last() =~= Seq::<u8>::empty());
    assert(fnv1a(h, seq![byte].drop_last()) == h);
}

/// A word is written as its four bytes, the lowest first.
pub proof fn a_word_is_its_bytes(w: u32)
    ensures
        word_bytes(w).len() == 4,
        word_bytes(w)[0] + 256 * word_bytes(w)[1] + 0x1_0000 * word_bytes(w)[2] + 0x100_0000
            * word_bytes(w)[3] == w,
{
}

/// A bake is named by everything that goes into it: what it is, every field of it, and how
/// fine it is; and its name is not one of the engine's own.
#[verifier::spinoff_prover]
pub proof fn a_bake_is_named_by_what_it_is(s: TextureSpec, resolution: u32)
    ensures
        content_key_of(s, resolution) as int == fnv1a(
            0xcbf2_9ce4_8422_2325,
            key_domain() + spec_bytes(s) + word_bytes(resolution),
        ) % 0x8000_0000_0000_0000,
{
    let (a, b, c) = (key_domain(), spec_bytes(s), word_bytes(resolution));
    three_parts(FNV_OFFSET, a, b, c);
}

proof fn three_parts(h: u64, a: Seq<u8>, b: Seq<u8>, c: Seq<u8>)
    ensures
        fnv1a(h, a + b + c) == fnv1a(fnv1a(fnv1a(h, a), b), c),
{
    hashing_goes_on(h, a, b);
    hashing_goes_on(h, a + b, c);
}

/// A texture that is registered is there, under the name it is given: a new one behind all
/// the others, and one that was there where it was. Nothing else comes or goes.
pub proof fn what_is_registered_is_there(
    before: Seq<TextureEntry>,
    spec: TextureSpec,
    resolution: u32,
    i: int,
)
    ensures
        ({
            let after = registered(before, spec, resolution);
            let handle = TextureHandle(content_key_of(spec, resolution));
            &&& has_handle(after, handle)
            &&& 0 <= i < before.len() ==> after[i] == before[i]
            &&& has_handle(before, handle) ==> after.len() == before.len()
            &&& !has_handle(before, handle) ==> after.len() == before.len() + 1
                && after[before.len() as int] == (TextureEntry { handle, spec, resolution })
        }),
{
    let after = registered(before, spec, resolution);
    if after != before {
        assert(after[before.len() as int].handle == TextureHandle(
            content_key_of(spec, resolution),
        ));
    }
}

proof fn the_kept_so_far(
    entries: Seq<TextureEntry>,
    kept: Seq<bool>,
    keeps: spec_fn(TextureEntry) -> bool,
    n: int,
)
    requires
        0 <= n <= entries.len(),
        kept.len() == entries.len(),
        forall|i: int| 0 <= i < entries.len() ==> #[trigger] kept[i] == keeps(entries[i]),
    ensures
        kept_entries(entries, kept, n) == entries.take(n).filter(keeps),
    decreases n,
{
    reveal(Seq::filter);
    if n > 0 {
        the_kept_so_far(entries, kept, keeps, n - 1);
        assert(entries.take(n).drop_last() =~= entries.take(n - 1));
        assert(entries.take(n).last() == entries[n - 1]);
        assert(kept[n - 1] == keeps(entries[n - 1]));
    } else {
        assert(entries.take(0) =~= Seq::<TextureEntry>::empty());
    }
}

/// Of the textures, those that are to be kept are, in their order, and all others go.
pub proof fn what_is_to_be_kept_is_kept<F: Fn(TextureHandle, &TextureSpec, u32) -> bool>(
    before: Seq<TextureEntry>,
    keep: F,
    keeps: spec_fn(TextureEntry) -> bool,
    after: Seq<TextureEntry>,
    r: usize,
)
    requires
        retains(before, keep, after, r),
        forall|entry: TextureEntry, answer: bool|
            #![trigger keeps(entry), call_ensures(keep, (entry.handle, &entry.spec, entry.resolution), answer)]
            call_ensures(keep, (entry.handle, &entry.spec, entry.resolution), answer) ==> answer
                == keeps(entry),
    ensures
        after == before.filter(keeps),
        r == before.len() - before.filter(keeps).len(),
{
    let kept = choose|kept: Seq<bool>| #[trigger]
        answers(keep, before, kept) && after == kept_entries(before, kept, kept.len() as int);
    assert forall|i: int| 0 <= i < before.len() implies #[trigger] kept[i] == keeps(before[i]) by {
        let entry = before[i];
        let yes = keeps(entry);
        assert(call_ensures(keep, (entry.handle, &entry.spec, entry.resolution), kept[i]));
    }
    the_kept_so_far(before, kept, keeps, before.len() as int);
    assert(before.take(before.len() as int) =~= before);
}

/// A texture has the octaves it asks for, as long as that is one to eight; else as many as
/// come nearest.
pub proof fn octaves_are_as_asked(asked: u32)
    ensures
        1 <= octaves_of(asked) <= 8,
        1 <= asked <= 8 ==> octaves_of(asked) == asked,
        asked > 8 ==> octaves_of(asked) == 8,
{
}

/// A bake is from 64 to 2048 texels to a side, and one step finer is twice as fine.
pub proof fn a_finer_bake_is_twice_as_fine(exponent: u32)
    requires
        exponent < u32::MAX,
    ensures
        exponent <= 6 ==> side_at(exponent) == 64,
        exponent >= 11 ==> side_at(exponent) == 2048,
        6 <= exponent < 11 ==> side_at((exponent + 1) as u32) == 2 * side_at(exponent),
{
    vstd::arithmetic::power2::lemma2_to64();
}

/// Better shadows have a finer map, and none have none.
pub proof fn better_shadows_are_finer()
    ensures
        map_side(ShadowQuality::Off) is None,
        map_side(ShadowQuality::Low) is Some,
        map_side(ShadowQuality::High) is Some,
        map_side(ShadowQuality::High)->0 == 4 * map_side(ShadowQuality::Low)->0,
{
}

/// The shaders know kinds and returns by their places, fractals and normals from one on:
/// nothing is left for none of either.
pub proof fn the_shaders_know_these_numbers(
    kind: NoiseKind,
    ret: CellReturn,
    fractal: Fractal,
    mode: NormalMode,
)
    ensures
        kind_code(kind) == match kind {
            NoiseKind::Cellular => 0u32,
            NoiseKind::Grid => 1,
            NoiseKind::RadialGrid => 2,
        },
        return_code(ret) == return_index(ret),
        fractal_code(fractal) == fractal_index(fractal) + 1,
        mode_code(mode) == mode_index(mode) + 1,
        ret == CellReturn::F1 ==> return_index(ret) == 0,
        ret == CellReturn::F2 ==> return_index(ret) == 1,
        ret == CellReturn::F2MinusF1 ==> return_index(ret) == 2,
        ret == CellReturn::F1PlusF2 ==> return_index(ret) == 3,
        ret == CellReturn::CellValue ==> return_index(ret) == 4,
        fractal == Fractal::Fbm ==> fractal_index(fractal) == 0,
        fractal == Fractal::Ridged ==> fractal_index(fractal) == 1,
        fractal == Fractal::RidgedFnl ==> fractal_index(fractal) == 2,
        mode == NormalMode::ToPoint ==> mode_index(mode) == 0,
        mode == NormalMode::ToEdge ==> mode_index(mode) == 1,
        lattice_index(Lattice::Cubic) == 0,
        lattice_index(Lattice::Fcc) == 1,
{
}

} // verus!
