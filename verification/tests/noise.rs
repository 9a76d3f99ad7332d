use runt_core::float::{F32, Vec3};
use runt_core::noise::{
    cellular, fcc_round, nearest_two, search_cells, wrap_cell, Cell, CellReturn, Fractal, Lattice, NoiseKind, SearchCell,
};

fn f(v: f32) -> F32 {
    F32(v.to_bits())
}

fn cell(x: i64, y: i64, z: i64) -> Cell {
    Cell { x, y, z }
}

/// The lattice point nearest to `p`, from the whole coordinates and the errors.
fn round_to_lattice(p: [f32; 3]) -> Cell {
    let r = [p[0].round(), p[1].round(), p[2].round()];
    let error = Vec3 { x: f(p[0] - r[0]), y: f(p[1] - r[1]), z: f(p[2] - r[2]) };
    fcc_round(cell(r[0] as i64, r[1] as i64, r[2] as i64), error)
}

#[test]
fn only_the_ridges_feed_the_next_octave() {
    assert!(!Fractal::Fbm.feeds_forward());
    assert!(Fractal::Ridged.feeds_forward());
    assert!(Fractal::RidgedFnl.feeds_forward());
}

#[test]
fn fcc_rounding_always_lands_on_an_even_parity_integer() {
    for i in 0..3000 {
        let p = [
            (i as f32 * 0.131).sin() * 40.0,
            (i as f32 * 0.717).cos() * 40.0,
            (i as f32 * 0.313).sin() * 40.0,
        ];
        let c = round_to_lattice(p);
        let sum = c.x + c.y + c.z;
        assert_eq!(sum % 2, 0, "{c:?} has odd parity");
        // And it stays a near neighbour: never further than the FCC
        // circumradius plus the one-step parity fix.
        let d = [p[0] - c.x as f32, p[1] - c.y as f32, p[2] - c.z as f32];
        let length = (d[0] * d[0] + d[1] * d[1] + d[2] * d[2]).sqrt();
        assert!(length <= 2.0, "{p:?} rounded to distant {c:?}");
    }
}

#[test]
fn wrapping_a_cell_index_is_a_true_modulus() {
    assert_eq!(wrap_cell(cell(7, -1, 3), cell(6, 6, 0)), cell(1, 5, 3));
    // Period 0 means "do not wrap this axis".
    assert_eq!(wrap_cell(cell(9, 9, 9), cell(0, 0, 0)), cell(9, 9, 9));
    // Even periods preserve FCC parity, which is why texture.rs rounds to
    // even; an odd one would not, and this documents the difference.
    let wrapped = wrap_cell(cell(5, 3, 0), cell(4, 4, 0)); // sum 8, even
    assert_eq!((wrapped.x + wrapped.y + wrapped.z) % 2, 0);
}

#[test]
fn the_odd_ones_go_where_the_error_is_worst() {
    assert_eq!(round_to_lattice([0.0, 0.4, 0.6]), cell(0, 1, 1));
    assert_eq!(round_to_lattice([1.4, 0.1, 0.1]), cell(2, 0, 0));
    assert_eq!(round_to_lattice([0.6, 0.1, 0.1]), cell(0, 0, 0));
    assert_eq!(round_to_lattice([1.0, 1.0, 0.0]), cell(1, 1, 0));
}

#[test]
fn a_neighbourhood_is_complete_and_on_its_lattice() {
    let cubic = search_cells(Lattice::Cubic, cell(0, 0, 0), cell(4, 0, 0));
    assert_eq!(cubic.len(), 27);
    assert_eq!(cubic[0], SearchCell { cell: cell(-1, -1, -1), key: cell(3, -1, -1) });
    assert_eq!(cubic[1].cell, cell(0, -1, -1));
    assert_eq!(cubic[26].cell, cell(1, 1, 1));
    let fcc = search_cells(Lattice::Fcc, cell(1, 1, 0), cell(0, 0, 0));
    assert_eq!(fcc.len(), 19);
    for c in &fcc {
        assert_eq!((c.cell.x + c.cell.y + c.cell.z) % 2, 0, "{c:?}");
        assert_eq!(c.cell, c.key);
    }
}

#[test]
fn the_two_nearest_are_found_in_order() {
    let found = nearest_two(&vec![f(3.0), f(1.0), f(2.0), f(1.0)]);
    assert_eq!((found.first, found.second), (Some(1), Some(3)));
    assert_eq!((found.d1, found.d2), (f(1.0), f(1.0)));
    let one = nearest_two(&vec![f(f32::NAN), f(5.0)]);
    assert_eq!((one.first, one.second), (Some(1), None));
    assert_eq!(one.d2, f(f32::INFINITY));
    assert_eq!(nearest_two(&vec![]).first, None);
}

#[test]
fn a_jitter_free_field_is_nearest_to_its_own_lattice_point() {
    let place = |c: SearchCell| Vec3 { x: f(c.cell.x as f32), y: f(c.cell.y as f32), z: f(c.cell.z as f32) };
    let p = [5.9f32, 3.05, 1.02];
    let distance = |v: Vec3| {
        let d = [
            f32::from_bits(v.x.0) - p[0],
            f32::from_bits(v.y.0) - p[1],
            f32::from_bits(v.z.0) - p[2],
        ];
        f(d[0] * d[0] + d[1] * d[1] + d[2] * d[2])
    };
    let sample = cellular(Lattice::Fcc, round_to_lattice(p), cell(4, 4, 0), place, distance);
    assert_eq!(sample.f1, Vec3 { x: f(6.0), y: f(3.0), z: f(1.0) });
    assert_eq!(sample.key, cell(2, 3, 1));
    assert!(f32::from_bits(sample.d1.0) < f32::from_bits(sample.d2.0));
    assert_eq!(sample.f2, Vec3 { x: f(5.0), y: f(4.0), z: f(1.0) });
}

#[test]
fn the_shader_knows_every_choice_by_its_own_number() {
    assert_eq!(NoiseKind::Cellular.code(), 0);
    assert_eq!(NoiseKind::Grid.code(), 1);
    assert_eq!(NoiseKind::RadialGrid.code(), 2);
    assert!(NoiseKind::RadialGrid.has_axis() && !NoiseKind::Grid.has_axis());
    let returns = [
        CellReturn::F1.code(),
        CellReturn::F2.code(),
        CellReturn::F2MinusF1.code(),
        CellReturn::F1PlusF2.code(),
        CellReturn::CellValue.code(),
    ];
    assert_eq!(returns, [0, 1, 2, 3, 4]);
    assert_eq!([Fractal::Fbm.code(), Fractal::Ridged.code(), Fractal::RidgedFnl.code()], [1, 2, 3]);
}
