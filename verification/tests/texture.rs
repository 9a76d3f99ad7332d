use runt_core::float::{F32, Vec3};
use runt_core::noise::{CellReturn, Fractal, Lattice, NoiseKind};
use runt_core::texture::{
    fnv, resolution_at, NoiseSpec, NormalMode, NormalSpec, RampPlace, RampStop, TextureHandle, TextureLibrary, TextureSpec,
    MAX_RESOLUTION, MIN_RESOLUTION,
};

fn f(v: f32) -> F32 {
    F32(v.to_bits())
}

fn v3(x: f32, y: f32, z: f32) -> Vec3 {
    Vec3 { x: f(x), y: f(y), z: f(z) }
}

fn stop(offset: f32, color: Vec3) -> RampStop {
    RampStop { offset: f(offset), color }
}

/// A cleanly quantized tile with a normal map.
#[allow(clippy::approx_constant)]
fn fine() -> TextureSpec {
    TextureSpec {
        noise: NoiseSpec::Cellular { lattice: Lattice::Fcc, return_type: CellReturn::CellValue, jitter: f(1.0) },
        frequency: f(0.21),
        octaves: 5,
        lacunarity: f(2.718),
        gain: f(0.562),
        ramp: vec![
            stop(0.12, v3(0.0, 0.31, 0.175_666_65)),
            stop(0.457_142_86, v3(0.0, 0.444_816_65, 0.310_580_22)),
            stop(1.0, v3(0.0, 0.534_645_26, 0.378_443_15)),
        ],
        normal: Some(NormalSpec { mode: NormalMode::ToPoint, edge_width: f(0.52), strength: f(5.106) }),
        world_scale: f(0.036),
        triplanar_sharpness: f(4.0),
        base_resolution: 1024,
        ..TextureSpec::default()
    }
}

#[test]
fn param_key_ignores_resolution_but_content_key_does_not() {
    let spec = fine();
    assert_eq!(spec.param_key(), fine().param_key());
    assert_ne!(spec.content_key(512), spec.content_key(1024));
    assert_eq!(spec.content_key(512), fine().content_key(512));

    let mut other = fine();
    other.seed_offset = f(4.0);
    assert_ne!(spec.param_key(), other.param_key());
}

#[test]
fn the_reserved_half_of_the_handle_space_is_unreachable_by_content() {
    for seed in 0..64 {
        let mut spec = fine();
        spec.seed_offset = f(seed as f32);
        for resolution in [16, 64, 512, 1024] {
            let handle = TextureHandle(spec.content_key(resolution));
            assert!(!handle.is_reserved(), "content key {:#018x} landed in the engine's half", handle.0);
        }
    }

    // …and the engine's own names are all on the other side of the line,
    // whatever id they carry.
    assert!(TextureHandle::render_target(0).is_reserved());
    assert!(TextureHandle::render_target(u32::MAX).is_reserved());
    assert_ne!(TextureHandle::render_target(0), TextureHandle::render_target(1));
}

#[test]
fn the_library_dedups_by_content_key() {
    let mut library = TextureLibrary::new();
    let a = library.insert(fine(), 512);
    let b = library.insert(fine(), 512);
    let c = library.insert(fine(), 1024);
    assert_eq!(a, b);
    assert_ne!(a, c);
    assert_eq!(library.len(), 2);
    assert!(library.contains(a));
    assert_eq!(library.get(a).expect("registered").1, 512);
}

#[test]
fn the_library_forgets_what_a_spec_edit_superseded() {
    let mut library = TextureLibrary::new();
    let before = library.insert(fine(), 512);
    let edited = TextureSpec { contrast: f(1.4), ..fine() };
    let after = library.insert(edited, 512);
    assert_ne!(before, after, "an edited spec is a different handle");
    assert_eq!(library.len(), 2, "the edit left the old entry behind");

    assert!(library.remove(before));
    assert!(!library.contains(before));
    assert!(library.contains(after), "the edit's own entry survived");
    assert_eq!(library.len(), 1);
    assert!(!library.remove(before), "removing twice is not an error");
}

#[test]
fn retain_keeps_the_survivors_in_order() {
    let mut library = TextureLibrary::new();
    let handles: Vec<TextureHandle> = (0..5)
        .map(|i| library.insert(TextureSpec { seed_offset: f(i as f32), ..fine() }, 512))
        .collect();

    let keep: Vec<TextureHandle> = vec![handles[0], handles[3], handles[4]];
    let dropped = library.retain(|handle, _: &TextureSpec, _| keep.contains(&handle));
    assert_eq!(dropped, 2);
    assert_eq!(
        library.iter().into_iter().map(|(h, _, _)| h).collect::<Vec<_>>(),
        keep,
        "retain reordered the survivors"
    );

    // A retain that keeps everything reports nothing and moves nothing.
    assert_eq!(library.retain(|_, _: &TextureSpec, _| true), 0);
    assert_eq!(library.len(), 3);
    // …and one that keeps nothing empties it rather than half-emptying it.
    assert_eq!(library.retain(|_, _: &TextureSpec, _| false), 3);
    assert!(library.is_empty());
}

#[test]
fn the_ramp_holds_its_ends_and_interpolates_between() {
    let spec = fine();
    let first = spec.ramp[0].color;
    let last = spec.ramp[2].color;
    assert_eq!(spec.ramp_at(f(0.0)), RampPlace::Held(first));
    assert_eq!(spec.ramp_at(f(0.05)), RampPlace::Held(first), "held flat below the first stop");
    // At the last stop the mix is all of the last colour.
    assert_eq!(spec.ramp_at(f(1.0)), RampPlace::Between(f(1.0), spec.ramp[1], spec.ramp[2]));
    assert_eq!(spec.ramp[2].color, last);
    assert_eq!(spec.ramp_at(f(0.3)), RampPlace::Between(f(0.3), spec.ramp[0], spec.ramp[1]));

    // A spec with no ramp is greyscale, not black.
    let plain = TextureSpec::default();
    assert_eq!(plain.ramp_at(f(0.7)), RampPlace::Grey(f(0.7)));
    assert_eq!(plain.ramp_at(f(7.0)), RampPlace::Grey(f(1.0)));
}

#[test]
fn a_value_past_every_stop_is_the_last_colour() {
    let mut spec = fine();
    spec.ramp.pop();
    assert_eq!(spec.ramp_at(f(0.9)), RampPlace::Held(spec.ramp[1].color));
    assert_eq!(spec.ramp_at(f(f32::NAN)), RampPlace::Held(spec.ramp[1].color));
}

#[test]
fn a_texture_is_written_as_postcard_writes_it() {
    let spec = fine();
    let ramp: Vec<(f32, (f32, f32, f32))> = vec![
        (0.12, (0.0, 0.31, 0.175_666_65)),
        (0.457_142_86, (0.0, 0.444_816_65, 0.310_580_22)),
        (1.0, (0.0, 0.534_645_26, 0.378_443_15)),
    ];
    // A variant is its number, a float its four bytes.
    let noise = (0u32, 1u32, 4u32, 1.0f32);
    #[allow(clippy::approx_constant)]
    let shape = (0.21f32, 5u32, 2.718f32, 0.562f32, 0u32, 0.5f32, 1.0f32, 1.0f32);
    let normal = Some((0u32, 0.52f32, 5.106f32));
    let sampling = (0.0f32, 0.036f32, 4.0f32, true, 1024u32, 2.0f32);
    let want = postcard::to_stdvec(&(noise, shape, ramp, normal, sampling)).expect("bytes");
    assert_eq!(spec.to_bytes(), want);

    let plain = TextureSpec { noise: NoiseSpec::RadialGrid { sectors: 300 }, fractal: Fractal::RidgedFnl, normal: None, ..fine() };
    let noise = (2u32, 300u32);
    #[allow(clippy::approx_constant)]
    let shape = (0.21f32, 5u32, 2.718f32, 0.562f32, 2u32, 0.5f32, 1.0f32, 1.0f32);
    let ramp: Vec<(f32, (f32, f32, f32))> = plain
        .ramp
        .iter()
        .map(|s| {
            let c = |x: F32| f32::from_bits(x.0);
            (c(s.offset), (c(s.color.x), c(s.color.y), c(s.color.z)))
        })
        .collect();
    let normal: Option<(u32, f32, f32)> = None;
    let want = postcard::to_stdvec(&(noise, shape, ramp, normal, sampling)).expect("bytes");
    assert_eq!(plain.to_bytes(), want);
}

#[test]
fn different_textures_are_different_bytes() {
    let mut seen: Vec<Vec<u8>> = Vec::new();
    for octaves in [1u32, 127, 128, 300] {
        for seed in [0.0f32, 1.0] {
            seen.push(TextureSpec { octaves, seed_offset: f(seed), ..fine() }.to_bytes());
        }
    }
    for i in 0..seen.len() {
        for j in 0..i {
            assert_ne!(seen[i], seen[j]);
        }
    }
}

#[test]
fn the_key_is_fnv() {
    // The published vectors of the 64-bit FNV-1a hash.
    assert_eq!(fnv(0xcbf2_9ce4_8422_2325, &vec![]), 0xcbf2_9ce4_8422_2325);
    assert_eq!(fnv(0xcbf2_9ce4_8422_2325, &vec![0x61]), 0xaf63_dc4c_8601_ec8c);
    assert_eq!(fnv(0xcbf2_9ce4_8422_2325, &vec![0x66, 0x6f, 0x6f, 0x62, 0x61, 0x72]), 0x85944171f73967e8);
}

#[test]
fn resolutions_are_powers_of_two_between_the_caps() {
    assert_eq!(resolution_at(9), 512);
    assert_eq!(resolution_at(10), 1024);
    assert_eq!(resolution_at(0), MIN_RESOLUTION);
    assert_eq!(resolution_at(40), MAX_RESOLUTION);
    assert_eq!((MIN_RESOLUTION, MAX_RESOLUTION), (64, 2048));
}

#[test]
fn a_texture_has_between_one_and_eight_octaves() {
    assert_eq!(TextureSpec { octaves: 0, ..fine() }.octave_count(), 1);
    assert_eq!(TextureSpec { octaves: 5, ..fine() }.octave_count(), 5);
    assert_eq!(TextureSpec { octaves: 99, ..fine() }.octave_count(), 8);
}

#[test]
fn a_noise_says_what_it_is() {
    let cells = fine().noise;
    assert_eq!(cells.kind(), NoiseKind::Cellular);
    assert_eq!(cells.lattice(), Lattice::Fcc);
    assert_eq!(cells.return_type(), CellReturn::CellValue);
    let radial = NoiseSpec::RadialGrid { sectors: 7 };
    assert_eq!(radial.kind(), NoiseKind::RadialGrid);
    assert_eq!(radial.sectors(), 7);
    assert_eq!(NormalMode::ToPoint.code(), 1);
    assert_eq!(NormalMode::ToEdge.code(), 2);
}

#[test]
fn textures_are_sampled_until_someone_says_otherwise() {
    let mut library = TextureLibrary::new();
    assert!(!library.live_textures());
    library.set_live_textures(true);
    assert!(library.live_textures());
}
