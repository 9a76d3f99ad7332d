//! The lattice under the noise: which cells a point looks at, under which names
//! they are hashed, and which two of their points are nearest.
//!
//! Cellular noise reads its input through integer cell indices alone. Wrapping
//! the index that is hashed, and never the place a distance is measured from,
//! makes the field exactly periodic, and so a baked tile without a seam.

use vstd::prelude::*;
use crate::float::{below, is_nan, magnitude, same_value, F32, INFINITY_BITS, SIGN_BIT, Vec3};

verus! {

/// Which field a texture is made of.
#[derive(Clone, Copy, Debug, PartialEq, Eq, Structural, Hash)]
pub enum NoiseKind {
    /// The nearest of scattered points.
    Cellular,
    /// The same with every point at its cell's centre, in closed form.
    Grid,
    /// That grid, wound about an axis.
    RadialGrid,
}

impl Default for NoiseKind {
    fn default() -> (r: NoiseKind)
        ensures
            r == NoiseKind::Cellular,
    {
        NoiseKind::Cellular
    }
}

/// The number that the shader knows a kind by.
pub open spec fn kind_code(kind: NoiseKind) -> u32 {
    match kind {
        NoiseKind::Cellular => 0,
        NoiseKind::Grid => 1,
        NoiseKind::RadialGrid => 2,
    }
}

impl NoiseKind {
    /// The number that the shader switches on.
    pub fn code(self) -> (r: u32)
        ensures
            r == kind_code(self),
    {
        match self {
            NoiseKind::Cellular => 0,
            NoiseKind::Grid => 1,
            NoiseKind::RadialGrid => 2,
        }
    }

    /// Whether the field is drawn about an axis through the origin, so that
    /// moving the origin sideways would take the field away rather than vary it.
    pub fn has_axis(self) -> (r: bool)
        ensures
            r == (self == NoiseKind::RadialGrid),
    {
        match self {
            NoiseKind::Cellular | NoiseKind::Grid => false,
            NoiseKind::RadialGrid => true,
        }
    }
}

/// Where the points of the field sit.
#[derive(Clone, Copy, Debug, PartialEq, Eq, Structural, Hash)]
pub enum Lattice {
    /// One to a unit cube.
    Cubic,
    /// Face-centred cubic: the whole coordinates whose sum is even.
    Fcc,
}

impl Default for Lattice {
    fn default() -> (r: Lattice)
        ensures
            r == Lattice::Fcc,
    {
        Lattice::Fcc
    }
}

/// What a sample of the field is.
#[derive(Clone, Copy, Debug, PartialEq, Eq, Structural, Hash)]
pub enum CellReturn {
    /// The distance to the nearest point.
    F1,
    /// The distance to the next.
    F2,
    /// The second less the first.
    F2MinusF1,
    /// Their mean.
    F1PlusF2,
    /// One value for the whole cell.
    CellValue,
}

impl Default for CellReturn {
    fn default() -> (r: CellReturn)
        ensures
            r == CellReturn::CellValue,
    {
        CellReturn::CellValue
    }
}

/// The number that the shader knows a return by.
pub open spec fn return_code(ret: CellReturn) -> u32 {
    match ret {
        CellReturn::F1 => 0,
        CellReturn::F2 => 1,
        CellReturn::F2MinusF1 => 2,
        CellReturn::F1PlusF2 => 3,
        CellReturn::CellValue => 4,
    }
}

impl CellReturn {
    /// The number that the shader switches on.
    pub fn code(self) -> (r: u32)
        ensures
            r == return_code(self),
    {
        match self {
            CellReturn::F1 => 0,
            CellReturn::F2 => 1,
            CellReturn::F2MinusF1 => 2,
            CellReturn::F1PlusF2 => 3,
            CellReturn::CellValue => 4,
        }
    }
}

/// How octaves are combined.
#[derive(Clone, Copy, Debug, PartialEq, Eq, Structural, Hash)]
pub enum Fractal {
    /// Added up.
    Fbm,
    /// Folded and squared, each octave replacing the weight of the next.
    Ridged,
    /// Folded, each octave scaling the weight of the next.
    RidgedFnl,
}

impl Default for Fractal {
    fn default() -> (r: Fractal)
        ensures
            r == Fractal::Fbm,
    {
        Fractal::Fbm
    }
}

/// The number that the shader knows a fractal by.
pub open spec fn fractal_code(fractal: Fractal) -> u32 {
    match fractal {
        Fractal::Fbm => 1,
        Fractal::Ridged => 2,
        Fractal::RidgedFnl => 3,
    }
}

impl Fractal {
    /// The number that the shader switches on.
    pub fn code(self) -> (r: u32)
        ensures
            r == fractal_code(self),
    {
        match self {
            Fractal::Fbm => 1,
            Fractal::Ridged => 2,
            Fractal::RidgedFnl => 3,
        }
    }

    /// Whether an octave decides the weight of the next, so that one which has
    /// faded out may not be skipped.
    pub fn feeds_forward(self) -> (r: bool)
        ensures
            r == (self != Fractal::Fbm),
    {
        match self {
            Fractal::Fbm => false,
            Fractal::Ridged | Fractal::RidgedFnl => true,
        }
    }
}

/// Different kinds, returns and fractals have different numbers.
pub proof fn codes_tell_apart(
    a: NoiseKind,
    b: NoiseKind,
    c: CellReturn,
    d: CellReturn,
    e: Fractal,
    f: Fractal,
)
    ensures
        kind_code(a) == kind_code(b) ==> a == b,
        return_code(c) == return_code(d) ==> c == d,
        fractal_code(e) == fractal_code(f) ==> e == f,
{
}

/// A cell of the lattice, by its indices.
#[derive(Clone, Copy, Debug, PartialEq, Eq, Structural, Hash)]
pub struct Cell {
    pub x: i64,
    pub y: i64,
    pub z: i64,
}

/// An index brought into `[0, period)`. A period of zero wraps nothing.
pub open spec fn wrapped(index: int, period: int) -> int {
    if period <= 0 {
        index
    } else {
        index % period
    }
}

fn wrap_index(index: i64, period: i64) -> (r: i64)
    ensures
        r == wrapped(index as int, period as int),
{
    if period <= 0 {
        index
    } else if index >= 0 {
        index % period
    } else {
        let past: i64 = -(index + 1);
        let m: i64 = past % period;
        let r: i64 = period - 1 - m;
        proof {
            let (c, p, q) = (index as int, period as int, past as int / period as int);
            vstd::arithmetic::div_mod::lemma_fundamental_div_mod(past as int, p);
            assert(c == (-q - 1) * p + r) by (nonlinear_arith)
                requires
                    past == p * q + m,
                    past == -(c + 1),
                    r == p - 1 - m,
            ;
            vstd::arithmetic::div_mod::lemma_fundamental_div_mod_converse_mod(c, p, -q - 1, r as int);
        }
        r
    }
}

/// The name that a cell is hashed under: its indices, each brought into its
/// axis's period.
pub fn wrap_cell(cell: Cell, period: Cell) -> (r: Cell)
    ensures
        r.x == wrapped(cell.x as int, period.x as int),
        r.y == wrapped(cell.y as int, period.y as int),
        r.z == wrapped(cell.z as int, period.z as int),
{
    Cell {
        x: wrap_index(cell.x, period.x),
        y: wrap_index(cell.y, period.y),
        z: wrap_index(cell.z, period.z),
    }
}

/// A whole number of periods away, a cell has the same name: that is what makes
/// a tile seamless.
pub proof fn wrapping_repeats(index: int, period: int, turns: int)
    requires
        period > 0,
    ensures
        wrapped(index + turns * period, period) == wrapped(index, period),
        0 <= wrapped(index, period) < period,
        0 <= index < period ==> wrapped(index, period) == index,
{
    vstd::arithmetic::div_mod::lemma_mod_multiples_vanish(turns, index, period);
    assert(period * turns == turns * period) by (nonlinear_arith);
    if 0 <= index < period {
        vstd::arithmetic::div_mod::lemma_small_mod(index as nat, period as nat);
    }
}

/// Whether a cell is one of the face-centred lattice's.
pub open spec fn on_fcc(x: int, y: int, z: int) -> bool {
    (x + y + z) % 2 == 0
}

/// An even period keeps a cell's name on the face-centred lattice; an odd one
/// would not.
pub proof fn even_periods_keep_parity(cell: Cell, period: Cell)
    requires
        on_fcc(cell.x as int, cell.y as int, cell.z as int),
        period.x % 2 == 0,
        period.y % 2 == 0,
        period.z % 2 == 0,
    ensures
        on_fcc(
            wrapped(cell.x as int, period.x as int),
            wrapped(cell.y as int, period.y as int),
            wrapped(cell.z as int, period.z as int),
        ),
{
    wrapping_keeps_parity(cell.x as int, period.x as int);
    wrapping_keeps_parity(cell.y as int, period.y as int);
    wrapping_keeps_parity(cell.z as int, period.z as int);
}

proof fn wrapping_keeps_parity(index: int, period: int)
    requires
        period % 2 == 0,
    ensures
        wrapped(index, period) % 2 == index % 2,
{
    if period > 0 {
        let half = period / 2;
        let turns = index / period;
        vstd::arithmetic::div_mod::lemma_fundamental_div_mod(index, period);
        assert(period * turns == 2 * (half * turns)) by (nonlinear_arith)
            requires
                period == 2 * half,
        ;
    }
}

/// The face-centred neighbourhood: home, the twelve across a face's diagonal, and
/// the six two steps along an axis.
pub open spec fn fcc_offset(i: int) -> (int, int, int) {
    if i == 0 {
        (0, 0, 0)
    } else if i == 1 {
        (1, 1, 0)
    } else if i == 2 {
        (1, -1, 0)
    } else if i == 3 {
        (-1, 1, 0)
    } else if i == 4 {
        (-1, -1, 0)
    } else if i == 5 {
        (1, 0, 1)
    } else if i == 6 {
        (1, 0, -1)
    } else if i == 7 {
        (-1, 0, 1)
    } else if i == 8 {
        (-1, 0, -1)
    } else if i == 9 {
        (0, 1, 1)
    } else if i == 10 {
        (0, 1, -1)
    } else if i == 11 {
        (0, -1, 1)
    } else if i == 12 {
        (0, -1, -1)
    } else if i == 13 {
        (2, 0, 0)
    } else if i == 14 {
        (-2, 0, 0)
    } else if i == 15 {
        (0, 2, 0)
    } else if i == 16 {
        (0, -2, 0)
    } else if i == 17 {
        (0, 0, 2)
    } else {
        (0, 0, -2)
    }
}

/// The cubic neighbourhood: every cell within one step on each axis, X fastest.
pub open spec fn cubic_offset(i: int) -> (int, int, int) {
    (i % 3 - 1, i / 3 % 3 - 1, i / 9 - 1)
}

/// How many cells a lattice's neighbourhood has.
pub open spec fn neighbourhood(lattice: Lattice) -> int {
    match lattice {
        Lattice::Cubic => 27,
        Lattice::Fcc => 19,
    }
}

/// The offset of a lattice's neighbour.
pub open spec fn offset_of(lattice: Lattice, i: int) -> (int, int, int) {
    match lattice {
        Lattice::Cubic => cubic_offset(i),
        Lattice::Fcc => fcc_offset(i),
    }
}

fn fcc_step(i: usize) -> (r: (i64, i64, i64))
    requires
        i < 19,
    ensures
        (r.0 as int, r.1 as int, r.2 as int) == fcc_offset(i as int),
{
    match i {
        0 => (0, 0, 0),
        1 => (1, 1, 0),
        2 => (1, -1, 0),
        3 => (-1, 1, 0),
        4 => (-1, -1, 0),
        5 => (1, 0, 1),
        6 => (1, 0, -1),
        7 => (-1, 0, 1),
        8 => (-1, 0, -1),
        9 => (0, 1, 1),
        10 => (0, 1, -1),
        11 => (0, -1, 1),
        12 => (0, -1, -1),
        13 => (2, 0, 0),
        14 => (-2, 0, 0),
        15 => (0, 2, 0),
        16 => (0, -2, 0),
        17 => (0, 0, 2),
        _ => (0, 0, -2),
    }
}

fn cubic_step(i: usize) -> (r: (i64, i64, i64))
    requires
        i < 27,
    ensures
        (r.0 as int, r.1 as int, r.2 as int) == cubic_offset(i as int),
{
    let n: i64 = i as i64;
    (n % 3 - 1, n / 3 % 3 - 1, n / 9 - 1)
}

/// A cell to look at, and the name it is hashed under.
#[derive(Clone, Copy, Debug, PartialEq, Eq, Structural, Hash)]
pub struct SearchCell {
    pub cell: Cell,
    pub key: Cell,
}

/// Whether `cells` are the cells around `home`, in the order they are looked at,
/// each with its wrapped name.
pub open spec fn searched(lattice: Lattice, home: Cell, period: Cell, cells: Seq<SearchCell>) -> bool {
    &&& cells.len() == neighbourhood(lattice)
    &&& forall|i: int|
        0 <= i < cells.len() ==> {
            let (dx, dy, dz) = offset_of(lattice, i);
            &&& (#[trigger] cells[i]).cell.x == home.x + dx
            &&& cells[i].cell.y == home.y + dy
            &&& cells[i].cell.z == home.z + dz
            &&& cells[i].key.x == wrapped(home.x + dx, period.x as int)
            &&& cells[i].key.y == wrapped(home.y + dy, period.y as int)
            &&& cells[i].key.z == wrapped(home.z + dz, period.z as int)
        }
}

/// The cells that a point whose own cell is `home` looks at.
pub fn search_cells(lattice: Lattice, home: Cell, period: Cell) -> (r: Vec<SearchCell>)
    requires
        i64::MIN + 2 <= home.x <= i64::MAX - 2,
        i64::MIN + 2 <= home.y <= i64::MAX - 2,
        i64::MIN + 2 <= home.z <= i64::MAX - 2,
    ensures
        searched(lattice, home, period, r@),
{
    let count: usize = match lattice {
        Lattice::Cubic => 27,
        Lattice::Fcc => 19,
    };
    let mut cells: Vec<SearchCell> = Vec::new();
    let mut i: usize = 0;
    while i < count
        invariant
            i <= count == neighbourhood(lattice),
            cells.len() == i,
            i64::MIN + 2 <= home.x <= i64::MAX - 2,
            i64::MIN + 2 <= home.y <= i64::MAX - 2,
            i64::MIN + 2 <= home.z <= i64::MAX - 2,
            forall|j: int|
                0 <= j < i ==> {
                    let (dx, dy, dz) = offset_of(lattice, j);
                    &&& (#[trigger] cells@[j]).cell.x == home.x + dx
                    &&& cells@[j].cell.y == home.y + dy
                    &&& cells@[j].cell.z == home.z + dz
                    &&& cells@[j].key.x == wrapped(home.x + dx, period.x as int)
                    &&& cells@[j].key.y == wrapped(home.y + dy, period.y as int)
                    &&& cells@[j].key.z == wrapped(home.z + dz, period.z as int)
                },
        decreases count - i,
    {
        let (dx, dy, dz): (i64, i64, i64) = match lattice {
            Lattice::Cubic => cubic_step(i),
            Lattice::Fcc => fcc_step(i),
        };
        let cell = Cell { x: home.x + dx, y: home.y + dy, z: home.z + dz };
        cells.push(SearchCell { cell, key: wrap_cell(cell, period) });
        i = i + 1;
    }
    cells
}

/// Every neighbour of a face-centred cell is a face-centred cell.
pub proof fn fcc_neighbours_are_on_the_lattice(home: Cell, i: int)
    requires
        on_fcc(home.x as int, home.y as int, home.z as int),
        0 <= i < 19,
    ensures
        ({
            let (dx, dy, dz) = fcc_offset(i);
            on_fcc(home.x + dx, home.y + dy, home.z + dz)
        }),
{
}

/// The size of a number, without its sign.
pub open spec fn unsigned(f: F32) -> F32 {
    F32(magnitude(f) as u32)
}

fn abs(f: F32) -> (r: F32)
    ensures
        r == unsigned(f),
{
    if f.0 >= SIGN_BIT {
        F32(f.0 - SIGN_BIT)
    } else {
        f
    }
}

/// The step that goes the way `f` points; upwards where it points nowhere.
pub open spec fn step_towards(f: F32) -> int {
    if same_value(f, F32(0)) || f.0 < SIGN_BIT {
        1
    } else {
        -1
    }
}

fn step_of(f: F32) -> (r: i64)
    ensures
        r == step_towards(f),
{
    if f.same(F32(0)) || f.0 < SIGN_BIT {
        1
    } else {
        -1
    }
}

/// The axis whose rounding cost the most; of equals the first.
pub open spec fn worst_axis(error: Vec3) -> int {
    let (x, y, z) = (magnitude(error.x), magnitude(error.y), magnitude(error.z));
    if x >= y && x >= z {
        0
    } else if y >= z {
        1
    } else {
        2
    }
}

/// Whether `r` is the face-centred cell of a point that lies `error` beyond the whole
/// coordinates `rounded`.
pub open spec fn rounds_to(rounded: Cell, error: Vec3, r: Cell) -> bool {
    &&& on_fcc(r.x as int, r.y as int, r.z as int)
    &&& on_fcc(rounded.x as int, rounded.y as int, rounded.z as int) ==> r == rounded
    &&& !on_fcc(rounded.x as int, rounded.y as int, rounded.z as int) ==> {
        let axis = worst_axis(error);
        &&& r.x == if axis == 0 {
            rounded.x + step_towards(error.x)
        } else {
            rounded.x as int
        }
        &&& r.y == if axis == 1 {
            rounded.y + step_towards(error.y)
        } else {
            rounded.y as int
        }
        &&& r.z == if axis == 2 {
            rounded.z + step_towards(error.z)
        } else {
            rounded.z as int
        }
    }
}

/// The face-centred cell of a point. `rounded` is the point's nearest whole
/// coordinates, and `error` what is left of the point beyond them: where their
/// sum is odd, the axis that was rounded the furthest takes one more step
/// towards the point.
pub fn fcc_round(rounded: Cell, error: Vec3) -> (r: Cell)
    requires
        i64::MIN < rounded.x < i64::MAX,
        i64::MIN < rounded.y < i64::MAX,
        i64::MIN < rounded.z < i64::MAX,
        !is_nan(error.x),
        !is_nan(error.y),
        !is_nan(error.z),
    ensures
        rounds_to(rounded, error, r),
{
    let sum: i128 = rounded.x as i128 + rounded.y as i128 + rounded.z as i128;
    let odd: bool = if sum >= 0 {
        sum % 2 == 1
    } else {
        (-sum) % 2 == 1
    };
    if !odd {
        return rounded;
    }
    let (x, y, z) = (abs(error.x), abs(error.y), abs(error.z));
    if !x.lt(y) && !x.lt(z) {
        Cell { x: rounded.x + step_of(error.x), y: rounded.y, z: rounded.z }
    } else if !y.lt(z) {
        Cell { x: rounded.x, y: rounded.y + step_of(error.y), z: rounded.z }
    } else {
        Cell { x: rounded.x, y: rounded.y, z: rounded.z + step_of(error.z) }
    }
}

/// The two nearest of a list of distances: their places, and the distances.
/// A place is missing where the list holds too few numbers below infinity.
#[derive(Clone, Copy, Debug, PartialEq, Eq, Structural, Hash)]
pub struct NearestTwo {
    pub first: Option<usize>,
    pub second: Option<usize>,
    pub d1: F32,
    pub d2: F32,
}

/// Whether `i` is the nearest of the first `n`, leaving out `skip`: nothing else
/// is nearer, and nothing as near comes before.
pub open spec fn nearest_but(distances: Seq<F32>, n: int, i: int, skip: int) -> bool {
    &&& 0 <= i < n
    &&& i != skip
    &&& below(distances[i], F32(INFINITY_BITS))
    &&& forall|j: int|
        0 <= j < n && j != skip && j != i ==> !below(#[trigger] distances[j], distances[i]) && (j < i
            ==> !same_value(distances[j], distances[i]))
}

/// Nothing among the first `n` is a number below infinity, leaving out `skip`.
pub open spec fn none_near(distances: Seq<F32>, n: int, skip: int) -> bool {
    forall|j: int|
        0 <= j < n && j != skip ==> !below(#[trigger] distances[j], F32(INFINITY_BITS))
}

/// What `found` is, of the first `n`.
pub open spec fn two_nearest(distances: Seq<F32>, n: int, found: NearestTwo) -> bool {
    &&& match found.first {
        Some(i) => nearest_but(distances, n, i as int, -1) && found.d1 == distances[i as int],
        None => none_near(distances, n, -1) && found.d1 == F32(INFINITY_BITS),
    }
    &&& match found.second {
        Some(i) => found.first is Some && nearest_but(
            distances,
            n,
            i as int,
            found.first->0 as int,
        ) && found.d2 == distances[i as int],
        None => none_near(
            distances,
            n,
            if found.first is Some {
                found.first->0 as int
            } else {
                -1
            },
        ) && found.d2 == F32(INFINITY_BITS),
    }
}

/// Find the two nearest.
pub fn nearest_two(distances: &Vec<F32>) -> (r: NearestTwo)
    ensures
        two_nearest(distances@, distances@.len() as int, r),
{
    let mut found = NearestTwo {
        first: None,
        second: None,
        d1: F32(INFINITY_BITS),
        d2: F32(INFINITY_BITS),
    };
    let mut i: usize = 0;
    while i < distances.len()
        invariant
            i <= distances.len(),
            two_nearest(distances@, i as int, found),
        decreases distances.len() - i,
    {
        let d = distances[i];
        if d.lt(found.d1) {
            found =
            NearestTwo { first: Some(i), second: found.first, d1: d, d2: found.d1 };
        } else if d.lt(found.d2) {
            found = NearestTwo { second: Some(i), d2: d, ..found };
        }
        i = i + 1;
    }
    found
}

/// What a point finds in its neighbourhood: the name of the cell that the nearest
/// feature point belongs to, the two nearest feature points, and how far they are,
/// squared.
#[derive(Clone, Copy, Debug, PartialEq, Eq, Structural, Hash)]
pub struct CellSample {
    pub key: Cell,
    pub f1: Vec3,
    pub f2: Vec3,
    pub d1: F32,
    pub d2: F32,
}

/// The feature point of each cell, and how far each is.
pub open spec fn measured<P: Fn(SearchCell) -> Vec3, D: Fn(Vec3) -> F32>(
    feature: P,
    distance: D,
    cells: Seq<SearchCell>,
    points: Seq<Vec3>,
    distances: Seq<F32>,
) -> bool {
    &&& points.len() == cells.len()
    &&& distances.len() == cells.len()
    &&& forall|i: int|
        0 <= i < cells.len() ==> feature.ensures((cells[i],), #[trigger] points[i])
    &&& forall|i: int|
        0 <= i < cells.len() ==> distance.ensures((points[i],), #[trigger] distances[i])
}

/// The origin.
pub open spec fn zero3() -> Vec3 {
    Vec3 { x: F32(0), y: F32(0), z: F32(0) }
}

/// The sample that the two nearest make; the origin stands for one that is missing.
pub open spec fn sample_of(
    cells: Seq<SearchCell>,
    points: Seq<Vec3>,
    found: NearestTwo,
) -> CellSample {
    CellSample {
        key: match found.first {
            Some(i) => cells[i as int].key,
            None => Cell { x: 0, y: 0, z: 0 },
        },
        f1: match found.first {
            Some(i) => points[i as int],
            None => zero3(),
        },
        f2: match found.second {
            Some(i) => points[i as int],
            None => zero3(),
        },
        d1: found.d1,
        d2: found.d2,
    }
}

/// Whether `sample` is one that looking round `home` may give.
pub open spec fn samples<P: Fn(SearchCell) -> Vec3, D: Fn(Vec3) -> F32>(
    lattice: Lattice,
    home: Cell,
    period: Cell,
    feature: P,
    distance: D,
    sample: CellSample,
) -> bool {
    exists|cells: Seq<SearchCell>, points: Seq<Vec3>, distances: Seq<F32>, found: NearestTwo|
        {
            &&& searched(lattice, home, period, cells)
            &&& #[trigger] measured(feature, distance, cells, points, distances)
            &&& #[trigger] two_nearest(distances, distances.len() as int, found)
            &&& sample == sample_of(cells, points, found)
        }
}

/// Look round a point whose own cell is `home` for the two nearest feature points.
/// `feature` is where a cell's feature point lies, which is the jitter's to say, and
/// `distance` how far that is from the point, squared.
pub fn cellular<P: Fn(SearchCell) -> Vec3, D: Fn(Vec3) -> F32>(
    lattice: Lattice,
    home: Cell,
    period: Cell,
    feature: P,
    distance: D,
) -> (r: CellSample)
    requires
        i64::MIN + 2 <= home.x <= i64::MAX - 2,
        i64::MIN + 2 <= home.y <= i64::MAX - 2,
        i64::MIN + 2 <= home.z <= i64::MAX - 2,
        forall|c: SearchCell| #[trigger] feature.requires((c,)),
        forall|p: Vec3| #[trigger] distance.requires((p,)),
    ensures
        samples(lattice, home, period, feature, distance, r),
{
    let cells: Vec<SearchCell> = search_cells(lattice, home, period);
    let mut points: Vec<Vec3> = Vec::new();
    let mut distances: Vec<F32> = Vec::new();
    let mut i: usize = 0;
    while i < cells.len()
        invariant
            i <= cells@.len(),
            points@.len() == i,
            distances@.len() == i,
            forall|c: SearchCell| #[trigger] feature.requires((c,)),
            forall|p: Vec3| #[trigger] distance.requires((p,)),
            forall|j: int| 0 <= j < i ==> feature.ensures((cells@[j],), #[trigger] points@[j]),
            forall|j: int|
                0 <= j < i ==> distance.ensures((points@[j],), #[trigger] distances@[j]),
        decreases cells@.len() - i,
    {
        let point: Vec3 = feature(cells[i]);
        points.push(point);
        distances.push(distance(point));
        i = i + 1;
    }
    let found: NearestTwo = nearest_two(&distances);
    proof {
        assert(measured(feature, distance, cells@, points@, distances@));
        assert(two_nearest(distances@, distances@.len() as int, found));
    }
    let origin: Vec3 = Vec3 { x: F32(0), y: F32(0), z: F32(0) };
    let (key, f1): (Cell, Vec3) = match found.first {
        Some(k) => (cells[k].key, points[k]),
        None => (Cell { x: 0, y: 0, z: 0 }, origin),
    };
    let f2: Vec3 = match found.second {
        Some(k) => points[k],
        None => origin,
    };
    CellSample { key, f1, f2, d1: found.d1, d2: found.d2 }
}

/// The nearest feature point is never farther than the second.
pub proof fn the_nearest_comes_first<P: Fn(SearchCell) -> Vec3, D: Fn(Vec3) -> F32>(
    lattice: Lattice,
    home: Cell,
    period: Cell,
    feature: P,
    distance: D,
    sample: CellSample,
)
    requires
        samples(lattice, home, period, feature, distance, sample),
    ensures
        !below(sample.d2, sample.d1),
{
    let (cells, points, distances, found) = choose|
        cells: Seq<SearchCell>,
        points: Seq<Vec3>,
        distances: Seq<F32>,
        found: NearestTwo,
    |
        {
            &&& searched(lattice, home, period, cells)
            &&& #[trigger] measured(feature, distance, cells, points, distances)
            &&& #[trigger] two_nearest(distances, distances.len() as int, found)
            &&& sample == sample_of(cells, points, found)
        };
    if found.first is Some && found.second is Some {
        assert(!below(distances[found.second->0 as int], distances[found.first->0 as int]));
    }
}

} // verus!
