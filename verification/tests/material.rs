use runt_core::float::{F32, Vec4};
use runt_core::material::{variant_source, Material, MaterialVariant, FLAG_COUNT};
use runt_core::registry::{Aabb, GpuMesh, MeshHandle, MeshLibrary, MeshRegistry};
use runt_core::float::Vec3;
use runt_core::texture::TextureHandle;

#[test]
fn flags_combine() {
    let a = MaterialVariant::from_bits(MaterialVariant::TEXTURE);
    let b = MaterialVariant(MaterialVariant::NORMAL_MAP);
    let mut both = a | b;
    assert_eq!(both.bits(), 0x12);
    assert!(both.contains(a) && both.contains(b) && !a.contains(both));
    assert!(both.intersects(a) && !a.intersects(b));
    both |= MaterialVariant(MaterialVariant::FRESNEL);
    assert_eq!(both.bits(), 0x412);
    assert!(MaterialVariant(0).is_empty() && !both.is_empty());
}

#[test]
fn only_the_ramp_is_declared_and_not_drawn() {
    let all = MaterialVariant(0x7_ffff);
    assert_eq!(all.unimplemented(), MaterialVariant(MaterialVariant::RAMP));
    assert!(MaterialVariant(MaterialVariant::TEXTURE).unimplemented().is_empty());
}

#[test]
fn a_variant_is_a_line_for_every_flag_before_the_shader() {
    let source = variant_source("fn main() {}", MaterialVariant(MaterialVariant::TEXTURE), "fn noise() {}");
    let lines: Vec<&str> = source.lines().collect();
    assert_eq!(lines[0], "// generated by runt_core::material::variant_source");
    let on: Vec<&&str> = lines.iter().filter(|l| l.ends_with(": bool = true;")).collect();
    assert_eq!(on.len(), 1);
    let off = lines.iter().filter(|l| l.ends_with(": bool = false;")).count();
    assert_eq!(off as u32 + 1, FLAG_COUNT);
    assert!(source.ends_with("fn noise() {}\nfn main() {}"));
}

#[test]
fn a_phase_mode_replaces_the_one_before() {
    let mut material = Material::tinted(Vec4::one());
    material.set_phase_mode(MaterialVariant(MaterialVariant::PHASE_INVERT));
    assert_eq!(
        material.variant.bits(),
        MaterialVariant::VERTEX_COLOR | MaterialVariant::PHASE_CIRCLE | MaterialVariant::PHASE_INVERT
    );
    material.set_phase_mode(MaterialVariant(MaterialVariant::PHASE_NO_DISCARD | MaterialVariant::FRESNEL));
    assert_eq!(
        material.variant.bits(),
        MaterialVariant::VERTEX_COLOR | MaterialVariant::PHASE_CIRCLE | MaterialVariant::PHASE_NO_DISCARD
    );
}

#[test]
fn materials_start_as_their_names_say() {
    assert_eq!(Material::default(), Material::vertex_colored());
    assert_eq!(Material::flat(Vec4::zero()).variant, MaterialVariant(0));
    let textured = Material::textured(TextureHandle(5));
    assert_eq!(textured.texture, Some(TextureHandle(5)));
    assert_eq!(textured.variant.bits(), MaterialVariant::TEXTURE | MaterialVariant::NORMAL_MAP);
}

#[test]
fn one_content_is_one_mesh() {
    let mut library: MeshLibrary<&str> = MeshLibrary::new();
    assert!(library.is_empty());
    let a = library.insert(10, "cube");
    let b = library.insert(10, "another");
    assert_eq!((a, b), (MeshHandle(10), MeshHandle(10)));
    assert_eq!(library.get(a), Some(&"cube"));
    assert_eq!(library.len(), 1);
    assert!(library.contains(a) && !library.contains(MeshHandle(11)));

    let zero = Vec3 { x: F32(0), y: F32(0), z: F32(0) };
    let bounds = Aabb { min: zero, max: zero };
    let mesh = |vertices| GpuMesh { vertices, indices: 0u32, index_count: 3, vertex_count: 3, bounds: Some(bounds) };
    let mut registry = MeshRegistry::new();
    assert_eq!(registry.register(MeshHandle(4), mesh(1)), MeshHandle(4));
    registry.register(MeshHandle(4), mesh(2));
    assert_eq!(registry.get(MeshHandle(4)).expect("there").vertices, 1);
    assert_eq!(registry.len(), 1);
    assert!(!registry.is_empty() && registry.contains(MeshHandle(4)));
    assert_eq!(registry.bounds(MeshHandle(4)), Some(bounds));
    assert_eq!(registry.bounds(MeshHandle(5)), None);
}
