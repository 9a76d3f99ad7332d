//! Procedural textures: what a texture is made of, what it is called, and the
//! library that a world keeps of them.

use vstd::prelude::*;
use crate::float::{at_most, below, clamped, is_nan, F32, Vec3, ONE_BITS};
use crate::noise::{CellReturn, Fractal, Lattice, NoiseKind};

verus! {

/// Octaves that a bake has room for.
pub const MAX_OCTAVES: u32 = 8;

/// Gradient stops that a bake has room for.
pub const MAX_RAMP_STOPS: usize = 8;

/// The coarsest bake, in texels to a side.
pub const MIN_RESOLUTION: u32 = 64;

/// The finest.
pub const MAX_RESOLUTION: u32 = 2048;

/// Which noise a texture is made of.
#[derive(Clone, Copy, Debug, PartialEq, Eq, Structural, Hash)]
pub enum NoiseSpec {
    Cellular { lattice: Lattice, return_type: CellReturn, jitter: F32 },
    Grid,
    /// Wedges around the axis, this many at the first octave, and bands along it.
    RadialGrid { sectors: u32 },
}

/// How many wedges there are where nothing says so.
pub fn four_sectors() -> (r: u32)
    ensures
        r == 4,
{
    4
}

/// How many octaves there are where nothing says so.
pub fn five() -> (r: u32)
    ensures
        r == 5,
{
    5
}

/// Whether the sampler hides the tiling where nothing says so.
pub fn yes() -> (r: bool)
    ensures
        r,
{
    true
}

/// How fine a bake is where nothing says so.
pub fn default_resolution() -> (r: u32)
    ensures
        r == 512,
{
    512
}

/// Scattered points on the default lattice.
pub open spec fn plain_noise() -> NoiseSpec {
    NoiseSpec::Cellular {
        lattice: Lattice::Fcc,
        return_type: CellReturn::CellValue,
        jitter: F32(ONE_BITS),
    }
}

impl Default for NoiseSpec {
    fn default() -> (r: NoiseSpec)
        ensures
            r == plain_noise(),
    {
        NoiseSpec::Cellular {
            lattice: Lattice::default(),
            return_type: CellReturn::default(),
            jitter: F32(ONE_BITS),
        }
    }
}

impl NoiseSpec {
    pub fn kind(self) -> (r: NoiseKind)
        ensures
            r == match self {
                NoiseSpec::Cellular { .. } => NoiseKind::Cellular,
                NoiseSpec::Grid => NoiseKind::Grid,
                NoiseSpec::RadialGrid { .. } => NoiseKind::RadialGrid,
            },
    {
        match self {
            NoiseSpec::Cellular { .. } => NoiseKind::Cellular,
            NoiseSpec::Grid => NoiseKind::Grid,
            NoiseSpec::RadialGrid { .. } => NoiseKind::RadialGrid,
        }
    }

    /// The lattice it sits on. The grids are on the cubic one.
    pub fn lattice(self) -> (r: Lattice)
        ensures
            r == match self {
                NoiseSpec::Cellular { lattice, .. } => lattice,
                _ => Lattice::Cubic,
            },
    {
        match self {
            NoiseSpec::Cellular { lattice, .. } => lattice,
            NoiseSpec::Grid | NoiseSpec::RadialGrid { .. } => Lattice::Cubic,
        }
    }

    /// What a sample is. The grids have one return of their own and ignore it.
    pub fn return_type(self) -> (r: CellReturn)
        ensures
            r == match self {
                NoiseSpec::Cellular { return_type, .. } => return_type,
                _ => CellReturn::CellValue,
            },
    {
        match self {
            NoiseSpec::Cellular { return_type, .. } => return_type,
            NoiseSpec::Grid | NoiseSpec::RadialGrid { .. } => CellReturn::default(),
        }
    }

    /// How far the points stray from their places. On a grid, not at all.
    pub fn jitter(self) -> (r: F32)
        ensures
            r == match self {
                NoiseSpec::Cellular { jitter, .. } => jitter,
                _ => F32(0),
            },
    {
        match self {
            NoiseSpec::Cellular { jitter, .. } => jitter,
            NoiseSpec::Grid | NoiseSpec::RadialGrid { .. } => F32(0),
        }
    }

    /// Wedges around the axis; none for a field without one.
    pub fn sectors(self) -> (r: u32)
        ensures
            r == match self {
                NoiseSpec::RadialGrid { sectors } => sectors,
                _ => 0,
            },
    {
        match self {
            NoiseSpec::RadialGrid { sectors } => sectors,
            NoiseSpec::Cellular { .. } | NoiseSpec::Grid => 0,
        }
    }
}

/// Where the normal at a cell's boundary points.
#[derive(Clone, Copy, Debug, PartialEq, Eq, Structural, Hash)]
pub enum NormalMode {
    /// Away from the nearest point: every cell is a pebble.
    ToPoint,
    /// Across the boundary: every cell is a facet.
    ToEdge,
}

/// The number that the shader knows a mode by.
pub open spec fn mode_code(mode: NormalMode) -> u32 {
    match mode {
        NormalMode::ToPoint => 1,
        NormalMode::ToEdge => 2,
    }
}

impl NormalMode {
    /// The number that the shader switches on. Zero is left for no normals.
    pub fn code(self) -> (r: u32)
        ensures
            r == mode_code(self),
            r != 0,
    {
        match self {
            NormalMode::ToPoint => 1,
            NormalMode::ToEdge => 2,
        }
    }
}

impl Default for NormalMode {
    fn default() -> (r: NormalMode)
        ensures
            r == NormalMode::ToPoint,
    {
        NormalMode::ToPoint
    }
}

/// The boundary normals' parameters.
#[derive(Clone, Copy, Debug, PartialEq, Eq, Structural, Hash)]
pub struct NormalSpec {
    pub mode: NormalMode,
    pub edge_width: F32,
    pub strength: F32,
}

impl Default for NormalSpec {
    fn default() -> (r: NormalSpec)
        ensures
            r == (NormalSpec {
                mode: NormalMode::ToPoint,
                edge_width: F32(0x3e80_0000),
                strength: F32(ONE_BITS),
            }),
    {
        NormalSpec {
            mode: NormalMode::default(),
            edge_width: F32(0x3e80_0000),
            strength: F32(ONE_BITS),
        }
    }
}

/// A stop of a gradient.
#[derive(Clone, Copy, Debug, PartialEq, Eq, Structural, Hash)]
pub struct RampStop {
    pub offset: F32,
    pub color: Vec3,
}

/// A procedural texture.
#[derive(Debug, PartialEq, Eq)]
pub struct TextureSpec {
    pub noise: NoiseSpec,
    pub frequency: F32,
    pub octaves: u32,
    pub lacunarity: F32,
    pub gain: F32,
    pub fractal: Fractal,
    pub weighted_strength: F32,
    pub contrast: F32,
    pub brightness: F32,
    pub ramp: Vec<RampStop>,
    pub normal: Option<NormalSpec>,
    pub seed_offset: F32,
    pub world_scale: F32,
    pub triplanar_sharpness: F32,
    pub anti_tiling: bool,
    pub base_resolution: u32,
    pub live_cell_pixels: F32,
}

/// Whether two specs are the same, bit for bit.
pub open spec fn same_spec(a: TextureSpec, b: TextureSpec) -> bool {
    &&& a.noise == b.noise
    &&& a.frequency == b.frequency
    &&& a.octaves == b.octaves
    &&& a.lacunarity == b.lacunarity
    &&& a.gain == b.gain
    &&& a.fractal == b.fractal
    &&& a.weighted_strength == b.weighted_strength
    &&& a.contrast == b.contrast
    &&& a.brightness == b.brightness
    &&& a.ramp@ == b.ramp@
    &&& a.normal == b.normal
    &&& a.seed_offset == b.seed_offset
    &&& a.world_scale == b.world_scale
    &&& a.triplanar_sharpness == b.triplanar_sharpness
    &&& a.anti_tiling == b.anti_tiling
    &&& a.base_resolution == b.base_resolution
    &&& a.live_cell_pixels == b.live_cell_pixels
}

/// Where a value falls on a gradient.
#[derive(Clone, Copy, Debug, PartialEq, Eq, Structural, Hash)]
pub enum RampPlace {
    /// There is no gradient: the value itself, as a grey.
    Grey(F32),
    /// At an end of the gradient, or beyond it.
    Held(Vec3),
    /// After one stop and up to the next: the value, and the two stops.
    Between(F32, RampStop, RampStop),
}

/// Whether `i` is the first stop after the first one that `t` does not pass.
pub open spec fn reaches(ramp: Seq<RampStop>, t: F32, i: int) -> bool {
    &&& 1 <= i < ramp.len()
    &&& at_most(t, ramp[i].offset)
    &&& forall|j: int| 1 <= j < i ==> !at_most(t, #[trigger] ramp[j].offset)
}

/// Where `t` falls, once it is moved into `[0, 1]`: on the first stop where it does
/// not pass that, between the first stop that it does not pass and the one before,
/// and on the last stop where it passes all of them.
pub open spec fn falls_on(ramp: Seq<RampStop>, t: F32, place: RampPlace) -> bool {
    let t = clamped(t, F32(0), F32(ONE_BITS));
    if ramp.len() == 0 {
        place == RampPlace::Grey(t)
    } else if at_most(t, ramp[0].offset) {
        place == RampPlace::Held(ramp[0].color)
    } else {
        match place {
            RampPlace::Grey(_) => false,
            RampPlace::Held(color) => color == ramp[ramp.len() - 1].color && forall|i: int|
                1 <= i < ramp.len() ==> !at_most(t, #[trigger] ramp[i].offset),
            RampPlace::Between(at, from, to) => at == t && exists|i: int| #[trigger]
                reaches(ramp, t, i) && to == ramp[i] && from == ramp[i - 1],
        }
    }
}

impl TextureSpec {
    /// Where a value falls on the gradient. The colour between two stops is theirs
    /// to mix.
    pub fn ramp_at(&self, t: F32) -> (r: RampPlace)
        ensures
            falls_on(self.ramp@, t, r),
    {
        let at: F32 = t.clamp(F32(0), F32(ONE_BITS));
        let n: usize = self.ramp.len();
        if n == 0 {
            return RampPlace::Grey(at);
        }
        if at.le(self.ramp[0].offset) {
            return RampPlace::Held(self.ramp[0].color);
        }
        let mut i: usize = 1;
        while i < n
            invariant
                1 <= i <= n == self.ramp@.len(),
                at == clamped(t, F32(0), F32(ONE_BITS)),
                !at_most(at, self.ramp@[0].offset),
                forall|j: int| 1 <= j < i ==> !at_most(at, #[trigger] self.ramp@[j].offset),
            decreases n - i,
        {
            if at.le(self.ramp[i].offset) {
                proof {
                    assert(reaches(self.ramp@, at, i as int));
                }
                return RampPlace::Between(at, self.ramp[i - 1], self.ramp[i]);
            }
            i = i + 1;
        }
        RampPlace::Held(self.ramp[n - 1].color)
    }
}

/// A value that falls between two stops is past the one and not past the other, where
/// the stops and the value are numbers.
pub proof fn a_value_is_between_its_stops(ramp: Seq<RampStop>, t: F32, place: RampPlace)
    requires
        falls_on(ramp, t, place),
        place is Between,
        !is_nan((place->Between_1).offset),
        !is_nan(t),
    ensures
        below((place->Between_1).offset, place->Between_0),
        at_most(place->Between_0, (place->Between_2).offset),
{
    let at = place->Between_0;
    let i = choose|i: int| #[trigger]
        reaches(ramp, at, i) && place->Between_2 == ramp[i] && place->Between_1 == ramp[i - 1];
    if i > 1 {
        assert(!at_most(at, ramp[i - 1].offset));
    }
}

impl Clone for TextureSpec {
    fn clone(&self) -> (r: TextureSpec)
        ensures
            same_spec(r, *self),
    {
        let ramp = self.ramp.clone();
        proof {
            assert(ramp@ =~= self.ramp@);
        }
        TextureSpec {
            noise: self.noise,
            frequency: self.frequency,
            octaves: self.octaves,
            lacunarity: self.lacunarity,
            gain: self.gain,
            fractal: self.fractal,
            weighted_strength: self.weighted_strength,
            contrast: self.contrast,
            brightness: self.brightness,
            ramp,
            normal: self.normal,
            seed_offset: self.seed_offset,
            world_scale: self.world_scale,
            triplanar_sharpness: self.triplanar_sharpness,
            anti_tiling: self.anti_tiling,
            base_resolution: self.base_resolution,
            live_cell_pixels: self.live_cell_pixels,
        }
    }
}

impl Default for TextureSpec {
    fn default() -> (r: TextureSpec)
        ensures
            r.noise == plain_noise(),
            r.frequency == F32(ONE_BITS),
            r.octaves == 5,
            r.lacunarity == F32(0x4000_0000),
            r.gain == F32(0x3f00_0000),
            r.fractal == Fractal::Fbm,
            r.weighted_strength == F32(0x3f00_0000),
            r.contrast == F32(ONE_BITS),
            r.brightness == F32(ONE_BITS),
            r.ramp@.len() == 0,
            r.normal is None,
            r.seed_offset == F32(0),
            r.world_scale == F32(0x3d4c_cccd),
            r.triplanar_sharpness == F32(0x4080_0000),
            r.anti_tiling,
            r.base_resolution == 512,
            r.live_cell_pixels == F32(0x4000_0000),
    {
        TextureSpec {
            noise: NoiseSpec::default(),
            frequency: F32(ONE_BITS),
            octaves: five(),
            lacunarity: F32(0x4000_0000),
            gain: F32(0x3f00_0000),
            fractal: Fractal::default(),
            weighted_strength: F32(0x3f00_0000),
            contrast: F32(ONE_BITS),
            brightness: F32(ONE_BITS),
            ramp: Vec::new(),
            normal: None,
            seed_offset: F32(0),
            world_scale: F32(0x3d4c_cccd),
            triplanar_sharpness: F32(0x4080_0000),
            anti_tiling: yes(),
            base_resolution: default_resolution(),
            live_cell_pixels: F32(0x4000_0000),
        }
    }
}

/// A texture's name. The handle space has two halves: below [`RESERVED_BIT`] a
/// handle is a hash of what the texture was baked from, so equal handles mean
/// the same pixels; above it the engine hands handles out itself, for textures
/// that are rendered rather than baked.
///
/// [`RESERVED_BIT`]: TextureHandle::RESERVED_BIT
#[derive(Clone, Copy, Debug, PartialEq, Eq, PartialOrd, Ord, Structural, Hash)]
pub struct TextureHandle(pub u64);

impl TextureHandle {
    /// The bit that sets the engine's own handles apart.
    pub const RESERVED_BIT: u64 = 0x8000_0000_0000_0000;

    /// The handle of the offscreen scene target with this id.
    pub fn render_target(id: u32) -> (r: TextureHandle)
        ensures
            r == target_handle(id),
    {
        let reserved: u64 = Self::RESERVED_BIT;
        let low: u64 = id as u64;
        assert(reserved | low == reserved + low) by (bit_vector)
            requires
                reserved == 0x8000_0000_0000_0000,
                low < 0x1_0000_0000,
        ;
        TextureHandle(reserved | low)
    }

    /// Whether this handle is the engine's own.
    pub fn is_reserved(self) -> (r: bool)
        ensures
            r == reserved(self),
    {
        let bits: u64 = self.0;
        let reserved: u64 = Self::RESERVED_BIT;
        assert((bits & reserved != 0) == (bits >= 0x8000_0000_0000_0000)) by (bit_vector)
            requires
                reserved == 0x8000_0000_0000_0000,
        ;
        bits & reserved != 0
    }
}

/// The handle of an offscreen scene target.
pub open spec fn target_handle(id: u32) -> TextureHandle {
    TextureHandle((0x8000_0000_0000_0000 + id) as u64)
}

/// The engine's half of the handle space.
pub open spec fn reserved(handle: TextureHandle) -> bool {
    handle.0 >= 0x8000_0000_0000_0000
}

/// Every target's handle is in the engine's half, and no two targets share one.
pub proof fn targets_are_reserved_and_distinct(a: u32, b: u32)
    ensures
        reserved(target_handle(a)),
        target_handle(a) == target_handle(b) ==> a == b,
{
}

/// A number as postcard writes it: seven bits to a byte, the lowest first, and
/// the top bit of every byte but the last set.
pub open spec fn varint(n: nat) -> Seq<u8>
    decreases n,
{
    if n < 128 {
        seq![n as u8]
    } else {
        seq![(128 + n % 128) as u8] + varint(n / 128)
    }
}

/// `postcard::to_stdvec` of an unsigned number. The contract says that it
/// succeeds, and gives the bytes: seven bits at a time from the lowest, each byte
/// but the last marked by its top bit. A `u32` and a `u64` of one value are
/// written alike.
#[verifier::external_body]
pub(crate) fn encode_number(n: u64) -> (r: Vec<u8>)
    ensures
        r@ == varint(n as nat),
{
    postcard::to_stdvec(&n).expect("a number fits in memory")
}

/// A word as four bytes, the lowest first: a value's bits, or a resolution.
pub open spec fn word_bytes(w: u32) -> Seq<u8> {
    seq![
        (w % 256) as u8,
        (w / 256 % 256) as u8,
        (w / 0x1_0000 % 256) as u8,
        (w / 0x100_0000) as u8,
    ]
}

fn push_word(out: &mut Vec<u8>, w: u32)
    ensures
        final(out)@ == old(out)@ + word_bytes(w),
{
    let ghost before = out@;
    out.push((w % 256) as u8);
    out.push((w / 256 % 256) as u8);
    out.push((w / 0x1_0000 % 256) as u8);
    out.push((w / 0x100_0000) as u8);
    proof {
        assert(out@ =~= before + word_bytes(w));
    }
}

fn push_number(out: &mut Vec<u8>, n: u64)
    ensures
        final(out)@ == old(out)@ + varint(n as nat),
{
    let mut bytes = encode_number(n);
    out.append(&mut bytes);
}

/// The place of a lattice in its list.
pub open spec fn lattice_index(lattice: Lattice) -> nat {
    match lattice {
        Lattice::Cubic => 0,
        Lattice::Fcc => 1,
    }
}

/// The place of a return in its list.
pub open spec fn return_index(ret: CellReturn) -> nat {
    match ret {
        CellReturn::F1 => 0,
        CellReturn::F2 => 1,
        CellReturn::F2MinusF1 => 2,
        CellReturn::F1PlusF2 => 3,
        CellReturn::CellValue => 4,
    }
}

/// The place of a fractal in its list.
pub open spec fn fractal_index(fractal: Fractal) -> nat {
    match fractal {
        Fractal::Fbm => 0,
        Fractal::Ridged => 1,
        Fractal::RidgedFnl => 2,
    }
}

/// The place of a normal mode in its list.
pub open spec fn mode_index(mode: NormalMode) -> nat {
    match mode {
        NormalMode::ToPoint => 0,
        NormalMode::ToEdge => 1,
    }
}

/// The bytes of the noise.
pub open spec fn noise_bytes(noise: NoiseSpec) -> Seq<u8> {
    match noise {
        NoiseSpec::Cellular { lattice, return_type, jitter } => varint(0) + varint(
            lattice_index(lattice),
        ) + varint(return_index(return_type)) + word_bytes(jitter.0),
        NoiseSpec::Grid => varint(1),
        NoiseSpec::RadialGrid { sectors } => varint(2) + varint(sectors as nat),
    }
}

/// The bytes of a gradient's stop.
pub open spec fn stop_bytes(stop: RampStop) -> Seq<u8> {
    word_bytes(stop.offset.0) + word_bytes(stop.color.x.0) + word_bytes(stop.color.y.0)
        + word_bytes(stop.color.z.0)
}

/// The bytes of a gradient's first `n` stops.
pub open spec fn stops_bytes(ramp: Seq<RampStop>, n: int) -> Seq<u8>
    decreases n,
{
    if n <= 0 {
        Seq::empty()
    } else {
        stops_bytes(ramp, n - 1) + stop_bytes(ramp[n - 1])
    }
}

/// The bytes of the normals' parameters.
pub open spec fn normal_bytes(normal: Option<NormalSpec>) -> Seq<u8> {
    match normal {
        None => seq![0u8],
        Some(n) => seq![1u8] + varint(mode_index(n.mode)) + word_bytes(n.edge_width.0)
            + word_bytes(n.strength.0),
    }
}

/// A yes or no, as a byte.
pub open spec fn flag_byte(b: bool) -> Seq<u8> {
    if b {
        seq![1u8]
    } else {
        seq![0u8]
    }
}

/// The bytes of the fields that shape the noise.
pub open spec fn shape_bytes(s: TextureSpec) -> Seq<u8> {
    word_bytes(s.frequency.0) + varint(s.octaves as nat) + word_bytes(s.lacunarity.0) + word_bytes(
        s.gain.0,
    ) + varint(fractal_index(s.fractal)) + word_bytes(s.weighted_strength.0) + word_bytes(
        s.contrast.0,
    ) + word_bytes(s.brightness.0)
}

/// The bytes of a gradient: how many stops, and the stops.
pub open spec fn ramp_bytes(ramp: Seq<RampStop>) -> Seq<u8> {
    varint(ramp.len()) + stops_bytes(ramp, ramp.len() as int)
}

/// The bytes of the fields that place the texture and sample it.
pub open spec fn sampling_bytes(s: TextureSpec) -> Seq<u8> {
    word_bytes(s.seed_offset.0) + word_bytes(s.world_scale.0) + word_bytes(s.triplanar_sharpness.0)
        + flag_byte(s.anti_tiling) + varint(s.base_resolution as nat) + word_bytes(
        s.live_cell_pixels.0,
    )
}

/// The bytes that a texture is hashed as: its fields in order, as postcard
/// writes them.
#[verifier::opaque]
pub open spec fn spec_bytes(s: TextureSpec) -> Seq<u8> {
    noise_bytes(s.noise) + shape_bytes(s) + ramp_bytes(s.ramp@) + normal_bytes(s.normal)
        + sampling_bytes(s)
}

fn push_noise(out: &mut Vec<u8>, noise: NoiseSpec)
    ensures
        final(out)@ == old(out)@ + noise_bytes(noise),
{
    let ghost before = out@;
    match noise {
        NoiseSpec::Cellular { lattice, return_type, jitter } => {
            push_number(out, 0);
            let l: u64 = match lattice {
                Lattice::Cubic => 0,
                Lattice::Fcc => 1,
            };
            push_number(out, l);
            let r: u64 = match return_type {
                CellReturn::F1 => 0,
                CellReturn::F2 => 1,
                CellReturn::F2MinusF1 => 2,
                CellReturn::F1PlusF2 => 3,
                CellReturn::CellValue => 4,
            };
            push_number(out, r);
            push_word(out, jitter.0);
        },
        NoiseSpec::Grid => {
            push_number(out, 1);
        },
        NoiseSpec::RadialGrid { sectors } => {
            push_number(out, 2);
            push_number(out, sectors as u64);
        },
    }
    proof {
        assert(out@ =~= before + noise_bytes(noise));
    }
}

fn push_ramp(out: &mut Vec<u8>, ramp: &Vec<RampStop>)
    ensures
        final(out)@ == old(out)@ + ramp_bytes(ramp@),
{
    let ghost start = out@;
    push_number(out, ramp.len() as u64);
    let ghost before = out@;
    let mut i: usize = 0;
    proof {
        assert(before + stops_bytes(ramp@, 0) =~= before);
    }
    while i < ramp.len()
        invariant
            i <= ramp.len(),
            out@ == before + stops_bytes(ramp@, i as int),
        decreases ramp.len() - i,
    {
        let stop = ramp[i];
        push_word(out, stop.offset.0);
        push_word(out, stop.color.x.0);
        push_word(out, stop.color.y.0);
        push_word(out, stop.color.z.0);
        i = i + 1;
        proof {
            assert(out@ =~= before + stops_bytes(ramp@, i as int));
        }
    }
    proof {
        assert(out@ =~= start + ramp_bytes(ramp@));
    }
}

fn push_normal(out: &mut Vec<u8>, normal: Option<NormalSpec>)
    ensures
        final(out)@ == old(out)@ + normal_bytes(normal),
{
    let ghost before = out@;
    match normal {
        None => {
            out.push(0);
        },
        Some(n) => {
            out.push(1);
            let mode: u64 = match n.mode {
                NormalMode::ToPoint => 0,
                NormalMode::ToEdge => 1,
            };
            push_number(out, mode);
            push_word(out, n.edge_width.0);
            push_word(out, n.strength.0);
        },
    }
    proof {
        assert(out@ =~= before + normal_bytes(normal));
    }
}

fn push_shape(out: &mut Vec<u8>, s: &TextureSpec)
    ensures
        final(out)@ == old(out)@ + shape_bytes(*s),
{
    let ghost before = out@;
    push_word(out, s.frequency.0);
    push_number(out, s.octaves as u64);
    push_word(out, s.lacunarity.0);
    push_word(out, s.gain.0);
    let fractal: u64 = match s.fractal {
        Fractal::Fbm => 0,
        Fractal::Ridged => 1,
        Fractal::RidgedFnl => 2,
    };
    push_number(out, fractal);
    push_word(out, s.weighted_strength.0);
    push_word(out, s.contrast.0);
    push_word(out, s.brightness.0);
    proof {
        assert(out@ =~= before + shape_bytes(*s));
    }
}

fn push_sampling(out: &mut Vec<u8>, s: &TextureSpec)
    ensures
        final(out)@ == old(out)@ + sampling_bytes(*s),
{
    let ghost before = out@;
    push_word(out, s.seed_offset.0);
    push_word(out, s.world_scale.0);
    push_word(out, s.triplanar_sharpness.0);
    let ghost middle = out@;
    if s.anti_tiling {
        out.push(1);
    } else {
        out.push(0);
    }
    proof {
        assert(out@ =~= middle + flag_byte(s.anti_tiling));
    }
    push_number(out, s.base_resolution as u64);
    push_word(out, s.live_cell_pixels.0);
    proof {
        assert(out@ =~= before + sampling_bytes(*s));
    }
}

/// The starting value of the hash.
pub const FNV_OFFSET: u64 = 0xcbf2_9ce4_8422_2325;

/// What the hash is multiplied by.
pub const FNV_PRIME: u64 = 0x100_0000_01b3;

/// The FNV-1a hash of `bytes`, going on from `h`.
pub open spec fn fnv1a(h: u64, bytes: Seq<u8>) -> u64
    decreases bytes.len(),
{
    if bytes.len() == 0 {
        h
    } else {
        let before = fnv1a(h, bytes.drop_last());
        (((before ^ (bytes.last() as u64)) as int * FNV_PRIME as int) % 0x1_0000_0000_0000_0000)
            as u64
    }
}

/// Go on hashing from `h`.
pub fn fnv(h: u64, bytes: &Vec<u8>) -> (r: u64)
    ensures
        r == fnv1a(h, bytes@),
{
    let mut hash: u64 = h;
    let mut i: usize = 0;
    proof {
        assert(bytes@.take(0) =~= Seq::<u8>::empty());
    }
    while i < bytes.len()
        invariant
            i <= bytes.len(),
            hash == fnv1a(h, bytes@.take(i as int)),
        decreases bytes.len() - i,
    {
        proof {
            assert(bytes@.take(i + 1).drop_last() =~= bytes@.take(i as int));
            assert(bytes@.take(i + 1).last() == bytes@[i as int]);
        }
        hash = (hash ^ (bytes[i] as u64)).wrapping_mul(FNV_PRIME);
        i = i + 1;
    }
    proof {
        assert(bytes@.take(i as int) =~= bytes@);
    }
    hash
}

/// The name that a texture's hash begins with: `TextureSpec`, as bytes.
pub open spec fn key_domain() -> Seq<u8> {
    seq![84u8, 101, 120, 116, 117, 114, 101, 83, 112, 101, 99]
}

/// A texture's identity, whatever the resolution it is baked at.
pub open spec fn param_key_of(s: TextureSpec) -> u64 {
    fnv1a(fnv1a(FNV_OFFSET, key_domain()), spec_bytes(s))
}

/// A bake's identity, in the half of the handle space that is not the engine's.
pub open spec fn content_key_of(s: TextureSpec, resolution: u32) -> u64 {
    (fnv1a(param_key_of(s), word_bytes(resolution)) % 0x8000_0000_0000_0000) as u64
}

impl TextureSpec {
    /// The bytes that the texture is hashed as.
    pub fn to_bytes(&self) -> (r: Vec<u8>)
        ensures
            r@ == spec_bytes(*self),
    {
        let mut out: Vec<u8> = Vec::new();
        push_noise(&mut out, self.noise);
        push_shape(&mut out, self);
        push_ramp(&mut out, &self.ramp);
        push_normal(&mut out, self.normal);
        push_sampling(&mut out, self);
        proof {
            reveal(spec_bytes);
            assert(Seq::<u8>::empty() + noise_bytes(self.noise) =~= noise_bytes(self.noise));
        }
        out
    }

    /// The texture's identity: a hash of its fields, which resolution is not one
    /// of.
    pub fn param_key(&self) -> (r: u64)
        ensures
            r == param_key_of(*self),
    {
        let domain: Vec<u8> = vec![84, 101, 120, 116, 117, 114, 101, 83, 112, 101, 99];
        proof {
            assert(domain@ =~= key_domain());
        }
        let h: u64 = fnv(FNV_OFFSET, &domain);
        fnv(h, &self.to_bytes())
    }

    /// The identity of the texture baked at `resolution`.
    pub fn content_key(&self, resolution: u32) -> (r: u64)
        ensures
            r == content_key_of(*self, resolution),
            !reserved(TextureHandle(r)),
    {
        let mut tail: Vec<u8> = Vec::new();
        push_word(&mut tail, resolution);
        proof {
            assert(tail@ =~= word_bytes(resolution));
        }
        let key: u64 = fnv(self.param_key(), &tail);
        let mask: u64 = !TextureHandle::RESERVED_BIT;
        assert(key & !0x8000_0000_0000_0000u64 == key % 0x8000_0000_0000_0000u64) by (bit_vector);
        key & mask
    }

    /// How many octaves are baked: at least one, and no more than there is room
    /// for.
    pub fn octave_count(&self) -> (r: u32)
        ensures
            r == octaves_of(self.octaves),
    {
        if self.octaves == 0 {
            1
        } else if self.octaves > MAX_OCTAVES {
            MAX_OCTAVES
        } else {
            self.octaves
        }
    }
}

/// How many octaves are baked of a texture that asks for `asked`.
pub open spec fn octaves_of(asked: u32) -> u32 {
    if asked == 0 {
        1
    } else if asked > MAX_OCTAVES {
        MAX_OCTAVES
    } else {
        asked
    }
}

/// How many texels to a side a bake has that wants `2^exponent`.
pub open spec fn side_at(exponent: u32) -> int {
    if exponent <= 6 {
        MIN_RESOLUTION as int
    } else if exponent >= 11 {
        MAX_RESOLUTION as int
    } else {
        vstd::arithmetic::power2::pow2(exponent as nat) as int
    }
}

/// The resolution of a bake that wants `2^exponent` texels to a side: that power
/// of two, as far as bakes go.
pub fn resolution_at(exponent: u32) -> (r: u32)
    ensures
        r == side_at(exponent),
        MIN_RESOLUTION <= r <= MAX_RESOLUTION,
{
    proof {
        vstd::arithmetic::power2::lemma2_to64();
    }
    if exponent <= 6 {
        64
    } else if exponent == 7 {
        128
    } else if exponent == 8 {
        256
    } else if exponent == 9 {
        512
    } else if exponent == 10 {
        1024
    } else {
        2048
    }
}

/// A texture that the library knows, and how finely it is baked.
#[derive(Debug)]
pub struct TextureEntry {
    pub handle: TextureHandle,
    pub spec: TextureSpec,
    pub resolution: u32,
}

/// The textures of a world, in the order they came, and whether they are drawn
/// live or from their bakes.
#[derive(Debug)]
pub struct TextureLibrary {
    pub entries: Vec<TextureEntry>,
    pub live: bool,
}

/// Whether some entry has this handle.
pub open spec fn has_handle(entries: Seq<TextureEntry>, handle: TextureHandle) -> bool {
    exists|i: int| 0 <= i < entries.len() && (#[trigger] entries[i]).handle == handle
}

/// Whether every entry's handle is what it hashes to.
pub open spec fn named_by_content(entries: Seq<TextureEntry>) -> bool {
    forall|i: int|
        0 <= i < entries.len() ==> (#[trigger] entries[i]).handle == TextureHandle(
            content_key_of(entries[i].spec, entries[i].resolution),
        )
}

/// Whether no two entries share a handle.
pub open spec fn all_apart(entries: Seq<TextureEntry>) -> bool {
    forall|i: int, j: int|
        0 <= i < j < entries.len() ==> (#[trigger] entries[i]).handle != (
        #[trigger] entries[j]).handle
}

proof fn removing_one(entries: Seq<TextureEntry>, i: int)
    requires
        0 <= i < entries.len(),
        named_by_content(entries),
        all_apart(entries),
    ensures
        named_by_content(entries.remove(i)),
        all_apart(entries.remove(i)),
        !has_handle(entries.remove(i), entries[i].handle),
{
    let now = entries.remove(i);
    assert forall|j: int| 0 <= j < now.len() implies (#[trigger] now[j]).handle
        != entries[i].handle by {
        if j < i {
            assert(now[j] == entries[j]);
        } else {
            assert(now[j] == entries[j + 1]);
        }
    }
    assert forall|a: int, b: int| 0 <= a < b < now.len() implies (#[trigger] now[a]).handle != (
    #[trigger] now[b]).handle by {
        let x = if a < i {
            a
        } else {
            a + 1
        };
        let y = if b < i {
            b
        } else {
            b + 1
        };
        assert(entries[x].handle != entries[y].handle);
    }
    assert forall|j: int| 0 <= j < now.len() implies (#[trigger] now[j]).handle == TextureHandle(
        content_key_of(now[j].spec, now[j].resolution),
    ) by {
        let x = if j < i {
            j
        } else {
            j + 1
        };
        assert(now[j] == entries[x]);
    }
}

/// The entries that `kept` says yes to, in order.
pub open spec fn kept_entries(entries: Seq<TextureEntry>, kept: Seq<bool>, n: int) -> Seq<
    TextureEntry,
>
    decreases n,
{
    if n <= 0 {
        Seq::empty()
    } else {
        let before = kept_entries(entries, kept, n - 1);
        if kept[n - 1] {
            before.push(entries[n - 1])
        } else {
            before
        }
    }
}

/// Each answer of `kept` is one that `keep` gives of its entry.
pub open spec fn answers<F: Fn(TextureHandle, &TextureSpec, u32) -> bool>(
    keep: F,
    entries: Seq<TextureEntry>,
    kept: Seq<bool>,
) -> bool {
    &&& kept.len() == entries.len()
    &&& forall|i: int|
        0 <= i < entries.len() ==> call_ensures(
            keep,
            (entries[i].handle, &entries[i].spec, entries[i].resolution),
            #[trigger] kept[i],
        )
}

/// Whether `after` is what is left of the entries where `keep` is asked of each, and `r`
/// how many went.
pub open spec fn retains<F: Fn(TextureHandle, &TextureSpec, u32) -> bool>(
    before: Seq<TextureEntry>,
    keep: F,
    after: Seq<TextureEntry>,
    r: usize,
) -> bool {
    &&& exists|kept: Seq<bool>| #[trigger]
        answers(keep, before, kept) && after == kept_entries(before, kept, kept.len() as int)
    &&& r + after.len() == before.len()
}

/// Entries once a texture is registered: one that is there already is not added.
pub open spec fn registered(
    entries: Seq<TextureEntry>,
    spec: TextureSpec,
    resolution: u32,
) -> Seq<TextureEntry> {
    let handle = TextureHandle(content_key_of(spec, resolution));
    if has_handle(entries, handle) {
        entries
    } else {
        entries.push(TextureEntry { handle, spec, resolution })
    }
}

/// Registering a texture twice is registering it once, and what was there keeps
/// its place.
pub proof fn registering_twice_is_registering_once(
    entries: Seq<TextureEntry>,
    spec: TextureSpec,
    resolution: u32,
)
    ensures
        ({
            let once = registered(entries, spec, resolution);
            &&& registered(once, spec, resolution) == once
            &&& entries.is_prefix_of(once)
        }),
{
    let once = registered(entries, spec, resolution);
    if once != entries {
        assert(once[entries.len() as int].handle == TextureHandle(
            content_key_of(spec, resolution),
        ));
    }
}

impl TextureLibrary {
    /// Handles are what their entries hash to, and no two entries share one.
    pub open spec fn wf(&self) -> bool {
        named_by_content(self.entries@) && all_apart(self.entries@)
    }

    pub fn new() -> (r: TextureLibrary)
        ensures
            r.wf(),
            r.entries@.len() == 0,
            !r.live,
    {
        TextureLibrary { entries: Vec::new(), live: false }
    }

    /// Whether textures are evaluated per pixel rather than sampled.
    pub fn live_textures(&self) -> (r: bool)
        ensures
            r == self.live,
    {
        self.live
    }

    /// Evaluate textures per pixel, or sample them.
    pub fn set_live_textures(&mut self, live: bool)
        ensures
            final(self).live == live,
            final(self).entries == old(self).entries,
    {
        self.live = live;
    }

    fn find(&self, handle: TextureHandle) -> (r: Option<usize>)
        ensures
            match r {
                Some(i) => i < self.entries@.len() && self.entries@[i as int].handle == handle
                    && forall|j: int| 0 <= j < i ==> (#[trigger] self.entries@[j]).handle != handle,
                None => !has_handle(self.entries@, handle),
            },
    {
        let mut i: usize = 0;
        while i < self.entries.len()
            invariant
                i <= self.entries.len(),
                forall|j: int| 0 <= j < i ==> (#[trigger] self.entries@[j]).handle != handle,
            decreases self.entries.len() - i,
        {
            if self.entries[i].handle == handle {
                return Some(i);
            }
            i = i + 1;
        }
        None
    }

    /// Register a texture, and name it. One that is there already stays as it is.
    pub fn insert(&mut self, spec: TextureSpec, resolution: u32) -> (r: TextureHandle)
        requires
            old(self).wf(),
        ensures
            final(self).wf(),
            r == TextureHandle(content_key_of(spec, resolution)),
            final(self).live == old(self).live,
            final(self).entries@ == registered(old(self).entries@, spec, resolution),
            has_handle(final(self).entries@, r),
    {
        let handle = TextureHandle(spec.content_key(resolution));
        if self.find(handle).is_none() {
            self.entries.push(TextureEntry { handle, spec, resolution });
            proof {
                assert(self.entries@[self.entries@.len() - 1].handle == handle);
            }
        }
        handle
    }

    /// The texture with this handle, and its resolution.
    pub fn get(&self, handle: TextureHandle) -> (r: Option<(&TextureSpec, u32)>)
        ensures
            r is Some <==> has_handle(self.entries@, handle),
            r is Some ==> exists|i: int|
                0 <= i < self.entries@.len() && (#[trigger] self.entries@[i]).handle == handle && *(
                r->0).0 == self.entries@[i].spec && (r->0).1 == self.entries@[i].resolution
                    && forall|j: int| 0 <= j < i ==> (#[trigger] self.entries@[j]).handle != handle,
    {
        match self.find(handle) {
            Some(i) => Some((&self.entries[i].spec, self.entries[i].resolution)),
            None => None,
        }
    }

    pub fn contains(&self, handle: TextureHandle) -> (r: bool)
        ensures
            r == has_handle(self.entries@, handle),
    {
        self.find(handle).is_some()
    }

    pub fn len(&self) -> (r: usize)
        ensures
            r == self.entries@.len(),
    {
        self.entries.len()
    }

    pub fn is_empty(&self) -> (r: bool)
        ensures
            r == (self.entries@.len() == 0),
    {
        self.entries.len() == 0
    }

    /// Every texture with its handle and resolution, in the order they came.
    pub fn iter(&self) -> (r: Vec<(TextureHandle, &TextureSpec, u32)>)
        ensures
            r@.len() == self.entries@.len(),
            forall|i: int|
                0 <= i < r@.len() ==> {
                    let (handle, spec, resolution) = #[trigger] r@[i];
                    &&& handle == self.entries@[i].handle
                    &&& *spec == self.entries@[i].spec
                    &&& resolution == self.entries@[i].resolution
                },
    {
        let mut out: Vec<(TextureHandle, &TextureSpec, u32)> = Vec::new();
        let mut i: usize = 0;
        while i < self.entries.len()
            invariant
                i <= self.entries@.len(),
                out@.len() == i,
                forall|j: int|
                    0 <= j < i ==> {
                        let (handle, spec, resolution) = #[trigger] out@[j];
                        &&& handle == self.entries@[j].handle
                        &&& *spec == self.entries@[j].spec
                        &&& resolution == self.entries@[j].resolution
                    },
            decreases self.entries@.len() - i,
        {
            let entry: &TextureEntry = &self.entries[i];
            out.push((entry.handle, &entry.spec, entry.resolution));
            i = i + 1;
        }
        out
    }

    /// Forget a texture that nothing names any more. Says whether it was there.
    pub fn remove(&mut self, handle: TextureHandle) -> (r: bool)
        requires
            old(self).wf(),
        ensures
            final(self).wf(),
            final(self).live == old(self).live,
            r == has_handle(old(self).entries@, handle),
            !has_handle(final(self).entries@, handle),
            !r ==> final(self).entries@ == old(self).entries@,
            r ==> exists|i: int|
                0 <= i < old(self).entries@.len() && (#[trigger] old(self).entries@[i]).handle
                    == handle && final(self).entries@ == old(self).entries@.remove(i),
    {
        match self.find(handle) {
            Some(i) => {
                proof {
                    removing_one(self.entries@, i as int);
                }
                self.entries.remove(i);
                true
            },
            None => false,
        }
    }

    /// Keep the textures that `keep` answers yes of, in their order. Says how many
    /// went.
    pub fn retain<F: Fn(TextureHandle, &TextureSpec, u32) -> bool>(&mut self, keep: F) -> (r: usize)
        requires
            old(self).wf(),
            forall|handle: TextureHandle, spec: &TextureSpec, resolution: u32|
                call_requires(keep, (handle, spec, resolution)),
        ensures
            final(self).wf(),
            final(self).live == old(self).live,
            retains(old(self).entries@, keep, final(self).entries@, r),
    {
        let ghost before = self.entries@;
        let mut rest: Vec<TextureEntry> = Vec::new();
        std::mem::swap(&mut rest, &mut self.entries);
        let total: usize = rest.len();
        let mut kept_list: Vec<TextureEntry> = Vec::new();
        let ghost mut kept: Seq<bool> = Seq::empty();
        let mut i: usize = 0;
        while i < total
            invariant
                i <= total == before.len(),
                rest@ == before.skip(i as int),
                self.live == old(self).live,
                kept.len() == i,
                kept_list.len() <= i,
                forall|handle: TextureHandle, spec: &TextureSpec, resolution: u32|
                    call_requires(keep, (handle, spec, resolution)),
                forall|j: int|
                    0 <= j < i ==> call_ensures(
                        keep,
                        (before[j].handle, &before[j].spec, before[j].resolution),
                        #[trigger] kept[j],
                    ),
                kept_list@ == kept_entries(before, kept, i as int),
            decreases total - i,
        {
            let entry = rest.remove(0);
            let answer: bool = keep(entry.handle, &entry.spec, entry.resolution);
            proof {
                assert(entry == before[i as int]);
                let more = kept.push(answer);
                kept_entries_prefix(before, kept, more, i as int);
                kept = more;
                assert(rest@ =~= before.skip(i + 1));
            }
            if answer {
                kept_list.push(entry);
            }
            i = i + 1;
        }
        let dropped: usize = total - kept_list.len();
        self.entries = kept_list;
        proof {
            kept_keep_order(before, kept, before.len() as int);
            assert(answers(keep, before, kept));
        }
        dropped
    }
}

proof fn kept_entries_prefix(
    entries: Seq<TextureEntry>,
    a: Seq<bool>,
    b: Seq<bool>,
    n: int,
)
    requires
        0 <= n <= a.len(),
        n <= b.len(),
        forall|i: int| 0 <= i < n ==> a[i] == b[i],
    ensures
        kept_entries(entries, a, n) == kept_entries(entries, b, n),
    decreases n,
{
    if n > 0 {
        kept_entries_prefix(entries, a, b, n - 1);
    }
}

/// Whatever is kept is some of what there was, in the order it had.
proof fn kept_keep_order(entries: Seq<TextureEntry>, kept: Seq<bool>, n: int)
    requires
        0 <= n <= entries.len(),
        kept.len() == entries.len(),
        all_apart(entries),
    ensures
        forall|k: int|
            0 <= k < kept_entries(entries, kept, n).len() ==> exists|i: int|
                0 <= i < n && #[trigger] entries[i] == #[trigger] kept_entries(
                    entries,
                    kept,
                    n,
                )[k],
        forall|a: int, b: int|
            0 <= a < b < kept_entries(entries, kept, n).len() ==> (#[trigger] kept_entries(
                entries,
                kept,
                n,
            )[a]).handle != (#[trigger] kept_entries(entries, kept, n)[b]).handle,
    decreases n,
{
    if n > 0 {
        kept_keep_order(entries, kept, n - 1);
        let before = kept_entries(entries, kept, n - 1);
        let now = kept_entries(entries, kept, n);
        assert forall|k: int| 0 <= k < now.len() implies exists|i: int|
            0 <= i < n && #[trigger] entries[i] == #[trigger] now[k] by {
            if k < before.len() {
                assert(now[k] == before[k]);
                let i = choose|i: int| 0 <= i < n - 1 && #[trigger] entries[i] == before[k];
                assert(entries[i] == now[k]);
            } else {
                assert(now[k] == entries[n - 1]);
            }
        }
        assert forall|a: int, b: int| 0 <= a < b < now.len() implies (#[trigger] now[a]).handle != (
        #[trigger] now[b]).handle by {
            assert(now[a] == before[a]);
            if b < before.len() {
                assert(now[b] == before[b]);
            } else {
                let i = choose|i: int| 0 <= i < n - 1 && #[trigger] entries[i] == before[a];
                assert(entries[i].handle != entries[n - 1].handle);
            }
        }
    }
}

/// A texture of the library is never in the engine's half of the handle space.
pub proof fn content_is_never_reserved(s: TextureSpec, resolution: u32)
    ensures
        !reserved(TextureHandle(content_key_of(s, resolution))),
{
}

/// Two byte strings that begin with parts of one length agree part by part.
proof fn split_here(a: Seq<u8>, b: Seq<u8>, r: Seq<u8>, s: Seq<u8>)
    requires
        a + r == b + s,
        a.len() == b.len(),
    ensures
        a == b,
        r == s,
{
    assert forall|i: int| 0 <= i < a.len() implies a[i] == b[i] by {
        assert((a + r)[i] == a[i]);
        assert((b + s)[i] == b[i]);
    }
    assert(a =~= b);
    assert((a + r).len() == a.len() + r.len());
    assert((b + s).len() == b.len() + s.len());
    assert forall|i: int| 0 <= i < r.len() implies r[i] == s[i] by {
        assert((a + r)[a.len() + i] == r[i]);
        assert((b + s)[b.len() + i] == s[i]);
    }
    assert(r =~= s);
}

proof fn regroup(a: Seq<u8>, b: Seq<u8>, r: Seq<u8>)
    ensures
        a + b + r == a + (b + r),
{
    assert(a + b + r =~= a + (b + r));
}

proof fn peel_word(a: u32, b: u32, r: Seq<u8>, s: Seq<u8>)
    requires
        word_bytes(a) + r == word_bytes(b) + s,
    ensures
        a == b,
        r == s,
{
    split_here(word_bytes(a), word_bytes(b), r, s);
    let (x, y) = (word_bytes(a), word_bytes(b));
    assert(x[0] == y[0] && x[1] == y[1] && x[2] == y[2] && x[3] == y[3]);
    assert(a % 256 == b % 256);
    assert(a / 256 % 256 == b / 256 % 256);
    assert(a / 0x1_0000 % 256 == b / 0x1_0000 % 256);
    assert(a / 0x100_0000 == b / 0x100_0000);
    assert(a == a % 256 + 256 * (a / 256 % 256) + 0x1_0000 * (a / 0x1_0000 % 256) + 0x100_0000 * (a
        / 0x100_0000));
    assert(b == b % 256 + 256 * (b / 256 % 256) + 0x1_0000 * (b / 0x1_0000 % 256) + 0x100_0000 * (b
        / 0x100_0000));
}

proof fn peel_number(a: nat, b: nat, r: Seq<u8>, s: Seq<u8>)
    requires
        varint(a) + r == varint(b) + s,
    ensures
        a == b,
        r == s,
    decreases a,
{
    let (x, y) = (varint(a) + r, varint(b) + s);
    assert(x[0] == varint(a)[0] && y[0] == varint(b)[0]);
    if a < 128 {
        assert(b < 128);
        split_here(varint(a), varint(b), r, s);
    } else {
        assert(b >= 128);
        let (p, q) = (seq![(128 + a % 128) as u8], seq![(128 + b % 128) as u8]);
        regroup(p, varint(a / 128), r);
        regroup(q, varint(b / 128), s);
        split_here(p, q, varint(a / 128) + r, varint(b / 128) + s);
        assert(p[0] == q[0]);
        peel_number(a / 128, b / 128, r, s);
    }
}

proof fn peel_byte(a: u8, b: u8, r: Seq<u8>, s: Seq<u8>)
    requires
        seq![a] + r == seq![b] + s,
    ensures
        a == b,
        r == s,
{
    split_here(seq![a], seq![b], r, s);
    assert(seq![a][0] == seq![b][0]);
}

/// What the bytes of the noise begin with.
spec fn noise_tag(noise: NoiseSpec) -> nat {
    match noise {
        NoiseSpec::Cellular { .. } => 0,
        NoiseSpec::Grid => 1,
        NoiseSpec::RadialGrid { .. } => 2,
    }
}

/// What follows it.
spec fn noise_rest(noise: NoiseSpec) -> Seq<u8> {
    match noise {
        NoiseSpec::Cellular { lattice, return_type, jitter } => varint(lattice_index(lattice)) + (
        varint(return_index(return_type)) + word_bytes(jitter.0)),
        NoiseSpec::Grid => Seq::empty(),
        NoiseSpec::RadialGrid { sectors } => varint(sectors as nat),
    }
}

proof fn noise_in_two(noise: NoiseSpec, r: Seq<u8>)
    ensures
        noise_bytes(noise) + r == varint(noise_tag(noise)) + (noise_rest(noise) + r),
{
    assert(noise_bytes(noise) + r =~= varint(noise_tag(noise)) + (noise_rest(noise) + r));
}

proof fn peel_noise(a: NoiseSpec, b: NoiseSpec, r: Seq<u8>, s: Seq<u8>)
    requires
        noise_bytes(a) + r == noise_bytes(b) + s,
    ensures
        a == b,
        r == s,
{
    noise_in_two(a, r);
    noise_in_two(b, s);
    peel_number(noise_tag(a), noise_tag(b), noise_rest(a) + r, noise_rest(b) + s);
    match (a, b) {
        (
            NoiseSpec::Cellular { lattice: l, return_type: t, jitter: j },
            NoiseSpec::Cellular { lattice: m, return_type: u, jitter: k },
        ) => {
            let (x, y) = (varint(return_index(t)), varint(return_index(u)));
            regroup(varint(lattice_index(l)), x + word_bytes(j.0), r);
            regroup(varint(lattice_index(m)), y + word_bytes(k.0), s);
            regroup(x, word_bytes(j.0), r);
            regroup(y, word_bytes(k.0), s);
            peel_number(
                lattice_index(l),
                lattice_index(m),
                x + (word_bytes(j.0) + r),
                y + (word_bytes(k.0) + s),
            );
            peel_number(return_index(t), return_index(u), word_bytes(j.0) + r, word_bytes(k.0) + s);
            peel_word(j.0, k.0, r, s);
        },
        (NoiseSpec::Grid, NoiseSpec::Grid) => {
            assert(noise_rest(a) + r =~= r);
            assert(noise_rest(b) + s =~= s);
        },
        (NoiseSpec::RadialGrid { sectors: m }, NoiseSpec::RadialGrid { sectors: n }) => {
            peel_number(m as nat, n as nat, r, s);
        },
        _ => {},
    }
}

proof fn shape_in_steps(t: TextureSpec, r: Seq<u8>)
    ensures
        shape_bytes(t) + r == word_bytes(t.frequency.0) + (varint(t.octaves as nat) + (word_bytes(
            t.lacunarity.0,
        ) + (word_bytes(t.gain.0) + (varint(fractal_index(t.fractal)) + (word_bytes(
            t.weighted_strength.0,
        ) + (word_bytes(t.contrast.0) + (word_bytes(t.brightness.0) + r))))))),
{
    let a = word_bytes(t.frequency.0);
    let b = varint(t.octaves as nat);
    let c = word_bytes(t.lacunarity.0);
    let d = word_bytes(t.gain.0);
    let e = varint(fractal_index(t.fractal));
    let f = word_bytes(t.weighted_strength.0);
    let g = word_bytes(t.contrast.0);
    let h = word_bytes(t.brightness.0);
    regroup(a + b + c + d + e + f + g, h, r);
    regroup(a + b + c + d + e + f, g, h + r);
    regroup(a + b + c + d + e, f, g + (h + r));
    regroup(a + b + c + d, e, f + (g + (h + r)));
    regroup(a + b + c, d, e + (f + (g + (h + r))));
    regroup(a + b, c, d + (e + (f + (g + (h + r)))));
    regroup(a, b, c + (d + (e + (f + (g + (h + r))))));
}

proof fn peel_shape(a: TextureSpec, b: TextureSpec, r: Seq<u8>, s: Seq<u8>)
    requires
        shape_bytes(a) + r == shape_bytes(b) + s,
    ensures
        a.frequency == b.frequency,
        a.octaves == b.octaves,
        a.lacunarity == b.lacunarity,
        a.gain == b.gain,
        a.fractal == b.fractal,
        a.weighted_strength == b.weighted_strength,
        a.contrast == b.contrast,
        a.brightness == b.brightness,
        r == s,
{
    shape_in_steps(a, r);
    shape_in_steps(b, s);
    let (a7, b7) = (word_bytes(a.brightness.0) + r, word_bytes(b.brightness.0) + s);
    let (a6, b6) = (word_bytes(a.contrast.0) + a7, word_bytes(b.contrast.0) + b7);
    let (a5, b5) = (word_bytes(a.weighted_strength.0) + a6, word_bytes(b.weighted_strength.0) + b6);
    let (a4, b4) = (
        varint(fractal_index(a.fractal)) + a5,
        varint(fractal_index(b.fractal)) + b5,
    );
    let (a3, b3) = (word_bytes(a.gain.0) + a4, word_bytes(b.gain.0) + b4);
    let (a2, b2) = (word_bytes(a.lacunarity.0) + a3, word_bytes(b.lacunarity.0) + b3);
    let (a1, b1) = (varint(a.octaves as nat) + a2, varint(b.octaves as nat) + b2);
    peel_word(a.frequency.0, b.frequency.0, a1, b1);
    peel_number(a.octaves as nat, b.octaves as nat, a2, b2);
    peel_word(a.lacunarity.0, b.lacunarity.0, a3, b3);
    peel_word(a.gain.0, b.gain.0, a4, b4);
    peel_number(fractal_index(a.fractal), fractal_index(b.fractal), a5, b5);
    peel_word(a.weighted_strength.0, b.weighted_strength.0, a6, b6);
    peel_word(a.contrast.0, b.contrast.0, a7, b7);
    peel_word(a.brightness.0, b.brightness.0, r, s);
}

proof fn stops_length(ramp: Seq<RampStop>, n: int)
    requires
        n >= 0,
    ensures
        stops_bytes(ramp, n).len() == 16 * n,
    decreases n,
{
    if n > 0 {
        stops_length(ramp, n - 1);
    }
}

proof fn peel_stop(a: RampStop, b: RampStop)
    requires
        stop_bytes(a) == stop_bytes(b),
    ensures
        a == b,
{
    let (p, q) = (word_bytes(a.offset.0), word_bytes(b.offset.0));
    let (x, y) = (word_bytes(a.color.x.0), word_bytes(b.color.x.0));
    let (u, v) = (word_bytes(a.color.y.0), word_bytes(b.color.y.0));
    let (w, z) = (word_bytes(a.color.z.0), word_bytes(b.color.z.0));
    assert(stop_bytes(a) =~= p + (x + (u + w)));
    assert(stop_bytes(b) =~= q + (y + (v + z)));
    peel_word(a.offset.0, b.offset.0, x + (u + w), y + (v + z));
    peel_word(a.color.x.0, b.color.x.0, u + w, v + z);
    peel_word(a.color.y.0, b.color.y.0, w, z);
    let e = Seq::<u8>::empty();
    assert(w + e =~= w && z + e =~= z);
    peel_word(a.color.z.0, b.color.z.0, e, e);
}

proof fn same_stops(a: Seq<RampStop>, b: Seq<RampStop>, n: int)
    requires
        0 <= n <= a.len(),
        a.len() == b.len(),
        stops_bytes(a, n) == stops_bytes(b, n),
    ensures
        forall|i: int| 0 <= i < n ==> a[i] == b[i],
    decreases n,
{
    if n > 0 {
        stops_length(a, n - 1);
        stops_length(b, n - 1);
        split_here(
            stops_bytes(a, n - 1),
            stops_bytes(b, n - 1),
            stop_bytes(a[n - 1]),
            stop_bytes(b[n - 1]),
        );
        peel_stop(a[n - 1], b[n - 1]);
        same_stops(a, b, n - 1);
    }
}

proof fn peel_ramp(a: Seq<RampStop>, b: Seq<RampStop>, r: Seq<u8>, s: Seq<u8>)
    requires
        ramp_bytes(a) + r == ramp_bytes(b) + s,
    ensures
        a == b,
        r == s,
{
    let (p, q) = (stops_bytes(a, a.len() as int), stops_bytes(b, b.len() as int));
    regroup(varint(a.len()), p, r);
    regroup(varint(b.len()), q, s);
    peel_number(a.len(), b.len(), p + r, q + s);
    stops_length(a, a.len() as int);
    stops_length(b, b.len() as int);
    split_here(p, q, r, s);
    same_stops(a, b, a.len() as int);
    assert(a =~= b);
}

proof fn peel_normal(a: Option<NormalSpec>, b: Option<NormalSpec>, r: Seq<u8>, s: Seq<u8>)
    requires
        normal_bytes(a) + r == normal_bytes(b) + s,
    ensures
        a == b,
        r == s,
{
    assert((normal_bytes(a) + r)[0] == normal_bytes(a)[0]);
    assert((normal_bytes(b) + s)[0] == normal_bytes(b)[0]);
    match (a, b) {
        (None, None) => {
            peel_byte(0, 0, r, s);
        },
        (Some(m), Some(n)) => {
            let (x, y) = (varint(mode_index(m.mode)), varint(mode_index(n.mode)));
            let (u, v) = (word_bytes(m.edge_width.0), word_bytes(n.edge_width.0));
            let (w, z) = (word_bytes(m.strength.0), word_bytes(n.strength.0));
            assert(normal_bytes(a) + r =~= seq![1u8] + (x + (u + (w + r))));
            assert(normal_bytes(b) + s =~= seq![1u8] + (y + (v + (z + s))));
            peel_byte(1, 1, x + (u + (w + r)), y + (v + (z + s)));
            peel_number(mode_index(m.mode), mode_index(n.mode), u + (w + r), v + (z + s));
            peel_word(m.edge_width.0, n.edge_width.0, w + r, z + s);
            peel_word(m.strength.0, n.strength.0, r, s);
        },
        _ => {},
    }
}

proof fn sampling_in_steps(t: TextureSpec)
    ensures
        sampling_bytes(t) == word_bytes(t.seed_offset.0) + (word_bytes(t.world_scale.0) + (
        word_bytes(t.triplanar_sharpness.0) + (flag_byte(t.anti_tiling) + (varint(
            t.base_resolution as nat,
        ) + (word_bytes(t.live_cell_pixels.0) + Seq::empty()))))),
{
    let a = word_bytes(t.seed_offset.0);
    let b = word_bytes(t.world_scale.0);
    let c = word_bytes(t.triplanar_sharpness.0);
    let d = flag_byte(t.anti_tiling);
    let e = varint(t.base_resolution as nat);
    let f = word_bytes(t.live_cell_pixels.0);
    assert(f + Seq::<u8>::empty() =~= f);
    regroup(a + b + c + d, e, f);
    regroup(a + b + c, d, e + f);
    regroup(a + b, c, d + (e + f));
    regroup(a, b, c + (d + (e + f)));
}

proof fn peel_sampling(a: TextureSpec, b: TextureSpec)
    requires
        sampling_bytes(a) == sampling_bytes(b),
    ensures
        a.seed_offset == b.seed_offset,
        a.world_scale == b.world_scale,
        a.triplanar_sharpness == b.triplanar_sharpness,
        a.anti_tiling == b.anti_tiling,
        a.base_resolution == b.base_resolution,
        a.live_cell_pixels == b.live_cell_pixels,
{
    sampling_in_steps(a);
    sampling_in_steps(b);
    let e = Seq::<u8>::empty();
    let (a5, b5) = (word_bytes(a.live_cell_pixels.0) + e, word_bytes(b.live_cell_pixels.0) + e);
    let (a4, b4) = (varint(a.base_resolution as nat) + a5, varint(b.base_resolution as nat) + b5);
    let (a3, b3) = (flag_byte(a.anti_tiling) + a4, flag_byte(b.anti_tiling) + b4);
    let (a2, b2) = (
        word_bytes(a.triplanar_sharpness.0) + a3,
        word_bytes(b.triplanar_sharpness.0) + b3,
    );
    let (a1, b1) = (word_bytes(a.world_scale.0) + a2, word_bytes(b.world_scale.0) + b2);
    peel_word(a.seed_offset.0, b.seed_offset.0, a1, b1);
    peel_word(a.world_scale.0, b.world_scale.0, a2, b2);
    peel_word(a.triplanar_sharpness.0, b.triplanar_sharpness.0, a3, b3);
    let (x, y): (u8, u8) = (
        if a.anti_tiling {
            1
        } else {
            0
        },
        if b.anti_tiling {
            1
        } else {
            0
        },
    );
    assert(flag_byte(a.anti_tiling) =~= seq![x]);
    assert(flag_byte(b.anti_tiling) =~= seq![y]);
    peel_byte(x, y, a4, b4);
    peel_number(a.base_resolution as nat, b.base_resolution as nat, a5, b5);
    peel_word(a.live_cell_pixels.0, b.live_cell_pixels.0, e, e);
}

/// The bytes that a texture is hashed as tell it from every other: two textures
/// with the same bytes are the same in every field.
pub proof fn bytes_tell_textures_apart(a: TextureSpec, b: TextureSpec)
    requires
        spec_bytes(a) == spec_bytes(b),
    ensures
        same_spec(a, b),
{
    reveal(spec_bytes);
    let (na, nb) = (noise_bytes(a.noise), noise_bytes(b.noise));
    let (sa, sb) = (shape_bytes(a), shape_bytes(b));
    let (ra, rb) = (ramp_bytes(a.ramp@), ramp_bytes(b.ramp@));
    let (ma, mb) = (normal_bytes(a.normal), normal_bytes(b.normal));
    let (ta, tb) = (sampling_bytes(a), sampling_bytes(b));
    regroup(na + sa + ra, ma, ta);
    regroup(na + sa, ra, ma + ta);
    regroup(na, sa, ra + (ma + ta));
    regroup(nb + sb + rb, mb, tb);
    regroup(nb + sb, rb, mb + tb);
    regroup(nb, sb, rb + (mb + tb));
    peel_noise(a.noise, b.noise, sa + (ra + (ma + ta)), sb + (rb + (mb + tb)));
    peel_shape(a, b, ra + (ma + ta), rb + (mb + tb));
    peel_ramp(a.ramp@, b.ramp@, ma + ta, mb + tb);
    peel_normal(a.normal, b.normal, ta, tb);
    peel_sampling(a, b);
}

} // verus!
