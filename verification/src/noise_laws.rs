//! What cellular noise looks at and what it finds, said of the lattice itself: every
//! cell near enough is looked at, each once and under a name that repeats with the
//! period; and what is found is nearer than everything else that was looked at.

use vstd::prelude::*;
use crate::float::{F32, INFINITY_BITS, Vec3, below, is_nan, magnitude, rank};
use crate::noise::{
    Cell, CellSample, Lattice, NearestTwo, SearchCell, measured, neighbourhood, offset_of,
    rounds_to, sample_of, samples, searched, two_nearest, wrapped, wrapping_repeats,
};

verus! {

/// Whether a step leads to a neighbour. On the cubic lattice that is every cell within
/// one step on each axis; on the face-centred one, every cell of it that is no farther
/// than two units.
pub open spec fn leads_near(lattice: Lattice, dx: int, dy: int, dz: int) -> bool {
    match lattice {
        Lattice::Cubic => -1 <= dx <= 1 && -1 <= dy <= 1 && -1 <= dz <= 1,
        Lattice::Fcc => (dx + dy + dz) % 2 == 0 && dx * dx + dy * dy + dz * dz <= 4,
    }
}

/// How far a step leads, squared.
pub open spec fn far(dx: int, dy: int, dz: int) -> int {
    dx * dx + dy * dy + dz * dz
}

proof fn small_squares(d: int)
    ensures
        -2 <= d <= 2 ==> d * d == (if d == 0 {
            0int
        } else if d == 1 || d == -1 {
            1
        } else {
            4
        }),
        d * d <= 4 ==> -2 <= d <= 2,
        0 <= d * d,
{
    assert(0 <= d * d && (d * d <= 4 ==> -2 <= d <= 2)) by (nonlinear_arith);
    if -2 <= d <= 2 {
        assert((d == 0 ==> d * d == 0) && (d == 1 ==> d * d == 1) && (d == -1 ==> d * d == 1) && (d
            == 2 ==> d * d == 4) && (d == -2 ==> d * d == 4)) by (nonlinear_arith);
    }
}

/// The place of a face-centred neighbour.
spec fn fcc_place(dx: int, dy: int, dz: int) -> int {
    if dz == 0 && dx != 0 && dy != 0 {
        (if dx > 0 {
            1int
        } else {
            3
        }) + (if dy > 0 {
            0int
        } else {
            1
        })
    } else if dy == 0 && dx != 0 && dz != 0 {
        (if dx > 0 {
            5int
        } else {
            7
        }) + (if dz > 0 {
            0int
        } else {
            1
        })
    } else if dx == 0 && dy != 0 && dz != 0 {
        (if dy > 0 {
            9int
        } else {
            11
        }) + (if dz > 0 {
            0int
        } else {
            1
        })
    } else if dx == 2 {
        13
    } else if dx == -2 {
        14
    } else if dy == 2 {
        15
    } else if dy == -2 {
        16
    } else if dz == 2 {
        17
    } else if dz == -2 {
        18
    } else {
        0
    }
}

proof fn every_step_has_its_place(lattice: Lattice, dx: int, dy: int, dz: int)
    requires
        leads_near(lattice, dx, dy, dz),
    ensures
        ({
            let i = match lattice {
                Lattice::Cubic => (dx + 1) + 3 * (dy + 1) + 9 * (dz + 1),
                Lattice::Fcc => fcc_place(dx, dy, dz),
            };
            0 <= i < neighbourhood(lattice) && offset_of(lattice, i) == (dx, dy, dz)
        }),
{
    small_squares(dx);
    small_squares(dy);
    small_squares(dz);
}

proof fn every_place_has_its_step(lattice: Lattice, i: int)
    requires
        0 <= i < neighbourhood(lattice),
    ensures
        ({
            let (dx, dy, dz) = offset_of(lattice, i);
            &&& leads_near(lattice, dx, dy, dz)
            &&& lattice is Cubic ==> i == (dx + 1) + 3 * (dy + 1) + 9 * (dz + 1)
            &&& lattice is Fcc ==> i == fcc_place(dx, dy, dz)
            &&& lattice is Fcc ==> far(dx, dy, dz) == (if i == 0 {
                0int
            } else if i < 13 {
                2
            } else {
                4
            })
        }),
{
    let (dx, dy, dz) = offset_of(lattice, i);
    small_squares(dx);
    small_squares(dy);
    small_squares(dz);
}

/// Whether a name is a cell's: the same index, a whole number of periods away, within the
/// first period; and the index itself where there is no period.
pub open spec fn names(index: int, period: int, name: int) -> bool {
    &&& period <= 0 ==> name == index
    &&& period > 0 ==> 0 <= name < period && exists|turns: int| index == name + #[trigger] (turns
        * period)
}

proof fn wrapping_names(index: int, period: int)
    ensures
        names(index, period, wrapped(index, period)),
{
    if period > 0 {
        vstd::arithmetic::div_mod::lemma_fundamental_div_mod(index, period);
        wrapping_repeats(index, period, 0);
        let turns = index / period;
        assert(turns * period == period * turns) by (nonlinear_arith);
        assert(index == wrapped(index, period) + turns * period);
    }
}

/// Whether these are the cells around `home`: every neighbour is there, nothing else is,
/// none is there twice, and each goes by its name.
pub open spec fn surrounds(
    lattice: Lattice,
    home: Cell,
    period: Cell,
    cells: Seq<SearchCell>,
) -> bool {
    &&& forall|dx: int, dy: int, dz: int| #[trigger]
        leads_near(lattice, dx, dy, dz) ==> exists|i: int|
            0 <= i < cells.len() && (#[trigger] cells[i]).cell.x == home.x + dx && cells[i].cell.y
                == home.y + dy && cells[i].cell.z == home.z + dz
    &&& forall|i: int|
        0 <= i < cells.len() ==> {
            let c = (#[trigger] cells[i]).cell;
            &&& leads_near(lattice, c.x - home.x, c.y - home.y, c.z - home.z)
            &&& names(c.x as int, period.x as int, cells[i].key.x as int)
            &&& names(c.y as int, period.y as int, cells[i].key.y as int)
            &&& names(c.z as int, period.z as int, cells[i].key.z as int)
        }
    &&& forall|i: int, j: int|
        0 <= i < j < cells.len() ==> (#[trigger] cells[i]).cell != (#[trigger] cells[j]).cell
}

/// A point looks at its own cell and at every neighbour, once each. On the cubic lattice
/// they come with x fastest and z slowest; on the face-centred one the nearer come first.
pub proof fn a_point_looks_all_round(
    lattice: Lattice,
    home: Cell,
    period: Cell,
    cells: Seq<SearchCell>,
)
    requires
        searched(lattice, home, period, cells),
    ensures
        surrounds(lattice, home, period, cells),
        cells.len() == match lattice {
            Lattice::Cubic => 27nat,
            Lattice::Fcc => 19,
        },
        lattice is Cubic ==> forall|i: int|
            0 <= i < cells.len() ==> i == ((#[trigger] cells[i]).cell.x - home.x + 1) + 3 * (
            cells[i].cell.y - home.y + 1) + 9 * (cells[i].cell.z - home.z + 1),
        lattice is Fcc ==> forall|i: int, j: int|
            0 <= i < j < cells.len() ==> far(
                (#[trigger] cells[i]).cell.x - home.x,
                cells[i].cell.y - home.y,
                cells[i].cell.z - home.z,
            ) <= far(
                (#[trigger] cells[j]).cell.x - home.x,
                cells[j].cell.y - home.y,
                cells[j].cell.z - home.z,
            ),
{
    assert forall|dx: int, dy: int, dz: int| #[trigger]
        leads_near(lattice, dx, dy, dz) implies exists|i: int|
        0 <= i < cells.len() && (#[trigger] cells[i]).cell.x == home.x + dx && cells[i].cell.y
            == home.y + dy && cells[i].cell.z == home.z + dz by {
        every_step_has_its_place(lattice, dx, dy, dz);
        let i = match lattice {
            Lattice::Cubic => (dx + 1) + 3 * (dy + 1) + 9 * (dz + 1),
            Lattice::Fcc => fcc_place(dx, dy, dz),
        };
        assert(cells[i].cell.x == home.x + dx);
    }
    assert forall|i: int| 0 <= i < cells.len() implies {
        let c = (#[trigger] cells[i]).cell;
        let (dx, dy, dz) = (c.x - home.x, c.y - home.y, c.z - home.z);
        &&& (dx, dy, dz) == offset_of(lattice, i)
        &&& leads_near(lattice, dx, dy, dz)
        &&& lattice is Cubic ==> i == (dx + 1) + 3 * (dy + 1) + 9 * (dz + 1)
        &&& lattice is Fcc ==> i == fcc_place(dx, dy, dz)
        &&& lattice is Fcc ==> far(dx, dy, dz) == (if i == 0 {
            0int
        } else if i < 13 {
            2
        } else {
            4
        })
        &&& names(c.x as int, period.x as int, cells[i].key.x as int)
        &&& names(c.y as int, period.y as int, cells[i].key.y as int)
        &&& names(c.z as int, period.z as int, cells[i].key.z as int)
    } by {
        let c = cells[i].cell;
        every_place_has_its_step(lattice, i);
        wrapping_names(c.x as int, period.x as int);
        wrapping_names(c.y as int, period.y as int);
        wrapping_names(c.z as int, period.z as int);
    }
    assert forall|i: int, j: int| 0 <= i < j < cells.len() implies (#[trigger] cells[i]).cell != (
    #[trigger] cells[j]).cell by {
        assert(offset_of(lattice, i) != offset_of(lattice, j)) by {
            every_place_has_its_step(lattice, i);
            every_place_has_its_step(lattice, j);
        }
    }
}

/// Whether a distance is one that can be nearest: a number below infinity.
pub open spec fn is_some_way(d: F32) -> bool {
    !is_nan(d) && rank(d) < INFINITY_BITS
}

/// Whether the two nearest of these points are found: the first is no farther than any,
/// the second no farther than any other, and of two that are as far the one that was
/// looked at before counts.
pub open spec fn finds_the_nearest(
    cells: Seq<SearchCell>,
    points: Seq<Vec3>,
    distances: Seq<F32>,
    sample: CellSample,
) -> bool {
    ||| {
        &&& forall|j: int| 0 <= j < distances.len() ==> !is_some_way(#[trigger] distances[j])
        &&& sample.d1.0 == 0x7f80_0000
        &&& sample.d2.0 == 0x7f80_0000
        &&& sample.key == (Cell { x: 0, y: 0, z: 0 })
        &&& sample.f1 == (Vec3 { x: F32(0), y: F32(0), z: F32(0) })
        &&& sample.f2 == (Vec3 { x: F32(0), y: F32(0), z: F32(0) })
    }
    ||| exists|a: int|
        {
            &&& 0 <= a < distances.len()
            &&& is_some_way(#[trigger] distances[a])
            &&& sample.d1 == distances[a]
            &&& sample.f1 == points[a]
            &&& sample.key == cells[a].key
            &&& forall|j: int|
                0 <= j < distances.len() && is_some_way(#[trigger] distances[j]) ==> rank(
                    distances[a],
                ) <= rank(distances[j]) && (j < a ==> rank(distances[a]) < rank(distances[j]))
            &&& finds_another(points, distances, sample, a)
        }
}

/// Whether the nearest of these points beside the one at `a` is found.
pub open spec fn finds_another(
    points: Seq<Vec3>,
    distances: Seq<F32>,
    sample: CellSample,
    a: int,
) -> bool {
    ||| {
        &&& forall|j: int|
            0 <= j < distances.len() && j != a ==> !is_some_way(#[trigger] distances[j])
        &&& sample.d2.0 == 0x7f80_0000
        &&& sample.f2 == (Vec3 { x: F32(0), y: F32(0), z: F32(0) })
    }
    ||| exists|b: int|
        {
            &&& 0 <= b < distances.len()
            &&& b != a
            &&& is_some_way(#[trigger] distances[b])
            &&& sample.d2 == distances[b]
            &&& sample.f2 == points[b]
            &&& forall|j: int|
                0 <= j < distances.len() && j != a && is_some_way(#[trigger] distances[j]) ==> rank(
                    distances[b],
                ) <= rank(distances[j]) && (j < b ==> rank(distances[b]) < rank(distances[j]))
        }
}

/// What a point finds is the two nearest of the feature points of every cell around it:
/// each cell's point is where `feature` has it and as far as `distance` says.
pub proof fn a_point_finds_the_two_nearest<P: Fn(SearchCell) -> Vec3, D: Fn(Vec3) -> F32>(
    lattice: Lattice,
    home: Cell,
    period: Cell,
    feature: P,
    distance: D,
    sample: CellSample,
)
    requires
        samples(lattice, home, period, feature, distance, sample),
    ensures
        exists|cells: Seq<SearchCell>, points: Seq<Vec3>, distances: Seq<F32>|
            {
                &&& surrounds(lattice, home, period, cells)
                &&& points.len() == cells.len() && distances.len() == cells.len()
                &&& forall|i: int|
                    0 <= i < cells.len() ==> feature.ensures((cells[i],), #[trigger] points[i])
                &&& forall|i: int|
                    0 <= i < cells.len() ==> distance.ensures((points[i],), #[trigger] distances[i])
                &&& #[trigger] finds_the_nearest(cells, points, distances, sample)
            },
{
    let (cells, points, distances, found) = choose|
        cells: Seq<SearchCell>,
        points: Seq<Vec3>,
        distances: Seq<F32>,
        found: NearestTwo,
    |
        {
            &&& searched(lattice, home, period, cells)
            &&& #[trigger] measured(feature, distance, cells, points, distances)
            &&& #[trigger] two_nearest(distances, distances.len() as int, found)
            &&& sample == sample_of(cells, points, found)
        };
    a_point_looks_all_round(lattice, home, period, cells);
    assert forall|j: int| 0 <= j < distances.len() implies (below(
        #[trigger] distances[j],
        F32(INFINITY_BITS),
    ) <==> is_some_way(distances[j])) by {}
    match found.first {
        Some(a) => {
            let a = a as int;
            match found.second {
                Some(b) => {
                    let b = b as int;
                    assert(is_some_way(distances[b]));
                },
                None => {},
            }
            assert(finds_another(points, distances, sample, a));
            assert(is_some_way(distances[a]));
        },
        None => {},
    }
    assert(finds_the_nearest(cells, points, distances, sample));
}

/// A point's face-centred cell is its nearest whole coordinates where those are on the
/// lattice. Where they are not it is one step away from them, along an axis that no other
/// was rounded farther on, and towards the point.
pub proof fn a_point_is_rounded_to_the_lattice(rounded: Cell, error: Vec3, r: Cell)
    requires
        rounds_to(rounded, error, r),
        !is_nan(error.x),
        !is_nan(error.y),
        !is_nan(error.z),
    ensures
        (r.x + r.y + r.z) % 2 == 0,
        (rounded.x + rounded.y + rounded.z) % 2 == 0 ==> r == rounded,
        (rounded.x + rounded.y + rounded.z) % 2 != 0 ==> {
            let (x, y, z) = (magnitude(error.x), magnitude(error.y), magnitude(error.z));
            ||| {
                &&& r.y == rounded.y && r.z == rounded.z && x >= y && x >= z
                &&& rank(error.x) >= 0 ==> r.x == rounded.x + 1
                &&& rank(error.x) < 0 ==> r.x == rounded.x - 1
            }
            ||| {
                &&& r.x == rounded.x && r.z == rounded.z && y > x && y >= z
                &&& rank(error.y) >= 0 ==> r.y == rounded.y + 1
                &&& rank(error.y) < 0 ==> r.y == rounded.y - 1
            }
            ||| {
                &&& r.x == rounded.x && r.y == rounded.y && z > x && z > y
                &&& rank(error.z) >= 0 ==> r.z == rounded.z + 1
                &&& rank(error.z) < 0 ==> r.z == rounded.z - 1
            }
        },
{
}

/// An index is brought into its period by whole turns; one without a period stays.
pub proof fn an_index_is_brought_into_its_period(index: int, period: int)
    ensures
        period > 0 ==> 0 <= wrapped(index, period) < period,
        period > 0 ==> exists|turns: int|
            index == wrapped(index, period) + #[trigger] (turns * period),
        period <= 0 ==> wrapped(index, period) == index,
{
    if period > 0 {
        vstd::arithmetic::div_mod::lemma_fundamental_div_mod(index, period);
        let turns = index / period;
        assert(period * turns == turns * period) by (nonlinear_arith);
        assert(index == wrapped(index, period) + turns * period);
    }
}

} // verus!
