//! Single-precision values, held as their bit patterns.
//!
//! The library carries a great many numbers that it never computes with: a
//! colour on its way to a uniform, a slider's position on its way to a world.
//! What it does decide on is how such numbers compare, and comparing needs no
//! arithmetic: read as a sign and a magnitude, the bit patterns of two IEEE-754
//! values are ordered exactly as the values are.

use vstd::prelude::*;

verus! {

/// The magnitude bits of positive infinity: any larger magnitude is a NaN.
pub const INFINITY_BITS: u32 = 0x7f80_0000;

/// The sign bit.
pub const SIGN_BIT: u32 = 0x8000_0000;

/// The bits of one.
pub const ONE_BITS: u32 = 0x3f80_0000;

/// A binary32 value, by its bits. `==` is equality of bits; the order and the
/// equality of the values are the methods below.
#[derive(Clone, Copy, Debug, PartialEq, Eq, Structural, Hash)]
pub struct F32(pub u32);

/// A binary64 value, by its bits, which is carried and not computed with.
#[derive(Clone, Copy, Debug, PartialEq, Eq, Structural, Hash)]
pub struct F64(pub u64);

/// The bits below the sign.
pub open spec fn magnitude(f: F32) -> int {
    if f.0 >= SIGN_BIT {
        f.0 - SIGN_BIT
    } else {
        f.0 as int
    }
}

/// Whether `f` is a NaN, which compares with nothing.
pub open spec fn is_nan(f: F32) -> bool {
    magnitude(f) > INFINITY_BITS
}

/// Where `f` stands among the values: two numbers compare as their ranks do.
/// Both zeros have rank 0. Of a NaN this says nothing.
pub open spec fn rank(f: F32) -> int {
    if f.0 >= SIGN_BIT {
        -magnitude(f)
    } else {
        magnitude(f)
    }
}

/// `a < b`.
pub open spec fn below(a: F32, b: F32) -> bool {
    !is_nan(a) && !is_nan(b) && rank(a) < rank(b)
}

/// `a == b`, as values.
pub open spec fn same_value(a: F32, b: F32) -> bool {
    !is_nan(a) && !is_nan(b) && rank(a) == rank(b)
}

/// `a <= b`.
pub open spec fn at_most(a: F32, b: F32) -> bool {
    !is_nan(a) && !is_nan(b) && rank(a) <= rank(b)
}

/// `f` moved into `[min, max]`: the bound it passed, or itself.
pub open spec fn clamped(f: F32, min: F32, max: F32) -> F32 {
    if below(f, min) {
        min
    } else if below(max, f) {
        max
    } else {
        f
    }
}

/// The bits of positive infinity in double precision.
pub const DOUBLE_INFINITY_BITS: u64 = 0x7ff0_0000_0000_0000;

/// The sign of a double.
pub const DOUBLE_SIGN_BIT: u64 = 0x8000_0000_0000_0000;

/// The bits of a double below the sign.
pub open spec fn double_magnitude(f: F64) -> int {
    if f.0 >= DOUBLE_SIGN_BIT {
        f.0 - DOUBLE_SIGN_BIT
    } else {
        f.0 as int
    }
}

/// Whether a double is neither an infinity nor a NaN.
pub open spec fn double_is_finite(f: F64) -> bool {
    double_magnitude(f) < DOUBLE_INFINITY_BITS
}

/// Where a double stands among the values: two numbers compare as their ranks do.
pub open spec fn double_rank(f: F64) -> int {
    if f.0 >= DOUBLE_SIGN_BIT {
        -double_magnitude(f)
    } else {
        double_magnitude(f)
    }
}

/// `a < b`, of doubles.
pub open spec fn double_below(a: F64, b: F64) -> bool {
    &&& double_magnitude(a) <= DOUBLE_INFINITY_BITS
    &&& double_magnitude(b) <= DOUBLE_INFINITY_BITS
    &&& double_rank(a) < double_rank(b)
}

/// The weight of a double's hidden digit among its others.
pub const DOUBLE_HIDDEN: u64 = 0x10_0000_0000_0000;

/// How many times the least positive double goes into one of this magnitude.
pub open spec fn double_size(magnitude: int) -> int {
    let e = magnitude / (DOUBLE_HIDDEN as int);
    if e == 0 {
        magnitude
    } else {
        (DOUBLE_HIDDEN + magnitude % (DOUBLE_HIDDEN as int)) * vstd::arithmetic::power2::pow2((e - 1) as nat)
    }
}

/// What a finite double is, counted in the least positive one: every finite double is a
/// whole number of those.
pub open spec fn double_value(f: F64) -> int {
    if f.0 >= DOUBLE_SIGN_BIT {
        -double_size(double_magnitude(f))
    } else {
        double_size(double_magnitude(f))
    }
}

proof fn sizes_of_doubles_grow(m: int, n: int)
    requires
        0 <= m < n,
    ensures
        0 <= double_size(m) < double_size(n),
{
    let h = DOUBLE_HIDDEN as int;
    let (e, f) = (m / h, n / h);
    assert(m == h * e + m % h && n == h * f + n % h && 0 <= m % h < h && 0 <= n % h < h)
        by (nonlinear_arith)
        requires
            h == 0x10_0000_0000_0000,
            e == m / h,
            f == n / h,
    ;
    assert(e <= f) by (nonlinear_arith)
        requires
            m < n,
            h > 0,
            e == m / h,
            f == n / h,
    ;
    if e > 0 {
        vstd::arithmetic::power2::lemma_pow2_pos((e - 1) as nat);
    }
    if e == f {
        if e > 0 {
            let p = vstd::arithmetic::power2::pow2((e - 1) as nat) as int;
            assert((h + m % h) * p < (h + n % h) * p && 0 <= (h + m % h) * p) by (nonlinear_arith)
                requires
                    0 <= m % h < n % h,
                    h > 0,
                    p > 0,
            ;
        }
    } else {
        let q = vstd::arithmetic::power2::pow2((f - 1) as nat) as int;
        vstd::arithmetic::power2::lemma_pow2_pos((f - 1) as nat);
        assert(h * q <= (h + n % h) * q) by (nonlinear_arith)
            requires
                0 <= n % h,
                q > 0,
        ;
        if e == 0 {
            assert(h <= h * q) by (nonlinear_arith)
                requires
                    h > 0,
                    q > 0,
            ;
        } else {
            let p = vstd::arithmetic::power2::pow2((e - 1) as nat) as int;
            vstd::arithmetic::power2::lemma_pow2_unfold(e as nat);
            if e < f - 1 {
                vstd::arithmetic::power2::lemma_pow2_strictly_increases(e as nat, (f - 1) as nat);
            }
            assert(2 * p <= q);
            assert((h + m % h) * p < h * q && 0 <= (h + m % h) * p) by (nonlinear_arith)
                requires
                    0 <= m % h < h,
                    p > 0,
                    2 * p <= q,
            ;
        }
    }
}

/// Doubles compare as what they are does.
pub proof fn double_values_keep_order(a: F64, b: F64)
    ensures
        double_rank(a) < double_rank(b) <==> double_value(a) < double_value(b),
        double_rank(a) == double_rank(b) <==> double_value(a) == double_value(b),
        double_value(F64(0)) == 0,
{
    let (m, n) = (double_magnitude(a), double_magnitude(b));
    if m < n {
        sizes_of_doubles_grow(m, n);
    }
    if n < m {
        sizes_of_doubles_grow(n, m);
    }
    if 0 < m {
        sizes_of_doubles_grow(0, m);
    }
    if 0 < n {
        sizes_of_doubles_grow(0, n);
    }
}

impl F64 {
    fn is_nan(self) -> (r: bool)
        ensures
            r == (double_magnitude(self) > DOUBLE_INFINITY_BITS),
    {
        if self.0 >= DOUBLE_SIGN_BIT {
            self.0 - DOUBLE_SIGN_BIT > DOUBLE_INFINITY_BITS
        } else {
            self.0 > DOUBLE_INFINITY_BITS
        }
    }

    /// Neither an infinity nor a NaN.
    pub fn is_finite(self) -> (r: bool)
        ensures
            r == double_is_finite(self),
    {
        if self.0 >= DOUBLE_SIGN_BIT {
            self.0 - DOUBLE_SIGN_BIT < DOUBLE_INFINITY_BITS
        } else {
            self.0 < DOUBLE_INFINITY_BITS
        }
    }

    /// `self < other`.
    pub fn lt(self, other: F64) -> (r: bool)
        ensures
            r == double_below(self, other),
    {
        if self.is_nan() || other.is_nan() {
            false
        } else if self.0 >= DOUBLE_SIGN_BIT {
            if other.0 >= DOUBLE_SIGN_BIT {
                self.0 > other.0
            } else {
                self.0 != DOUBLE_SIGN_BIT || other.0 != 0
            }
        } else {
            other.0 < DOUBLE_SIGN_BIT && self.0 < other.0
        }
    }
}

impl F32 {
    pub fn is_nan(self) -> (r: bool)
        ensures
            r == is_nan(self),
    {
        if self.0 >= SIGN_BIT {
            self.0 - SIGN_BIT > INFINITY_BITS
        } else {
            self.0 > INFINITY_BITS
        }
    }

    /// Neither an infinity nor a NaN.
    pub fn is_finite(self) -> (r: bool)
        ensures
            r == (magnitude(self) < INFINITY_BITS),
    {
        if self.0 >= SIGN_BIT {
            self.0 - SIGN_BIT < INFINITY_BITS
        } else {
            self.0 < INFINITY_BITS
        }
    }

    /// `self < other`.
    pub fn lt(self, other: F32) -> (r: bool)
        ensures
            r == below(self, other),
    {
        if self.is_nan() || other.is_nan() {
            false
        } else if self.0 >= SIGN_BIT {
            if other.0 >= SIGN_BIT {
                self.0 > other.0
            } else {
                self.0 != SIGN_BIT || other.0 != 0
            }
        } else {
            other.0 < SIGN_BIT && self.0 < other.0
        }
    }

    /// `self <= other`.
    pub fn le(self, other: F32) -> (r: bool)
        ensures
            r == at_most(self, other),
    {
        self.lt(other) || self.same(other)
    }

    /// `self == other`, as values: the two zeros are one, and a NaN is not even
    /// itself.
    pub fn same(self, other: F32) -> (r: bool)
        ensures
            r == same_value(self, other),
    {
        if self.is_nan() || other.is_nan() {
            false
        } else {
            self.0 == other.0 || ((self.0 == 0 || self.0 == SIGN_BIT) && (other.0 == 0 || other.0
                == SIGN_BIT))
        }
    }

    /// `self` moved into `[min, max]`. The bounds are numbers in order.
    pub fn clamp(self, min: F32, max: F32) -> (r: F32)
        requires
            !below(max, min),
            !is_nan(min),
            !is_nan(max),
        ensures
            r == clamped(self, min, max),
    {
        if self.lt(min) {
            min
        } else if max.lt(self) {
            max
        } else {
            self
        }
    }
}

/// Two values: a point or a direction on a plane.
#[derive(Clone, Copy, Debug, PartialEq, Eq, Structural, Hash)]
pub struct Vec2 {
    pub x: F32,
    pub y: F32,
}

/// Three values: a point, a direction or a colour.
#[derive(Clone, Copy, Debug, PartialEq, Eq, Structural, Hash)]
pub struct Vec3 {
    pub x: F32,
    pub y: F32,
    pub z: F32,
}

/// Four values: a colour with its alpha, a quaternion, or four parameters.
#[derive(Clone, Copy, Debug, PartialEq, Eq, Structural, Hash)]
pub struct Vec4 {
    pub x: F32,
    pub y: F32,
    pub z: F32,
    pub w: F32,
}

/// The vector with every component zero.
pub open spec fn zero4() -> Vec4 {
    Vec4 { x: F32(0), y: F32(0), z: F32(0), w: F32(0) }
}

/// The vector with every component one.
pub open spec fn one4() -> Vec4 {
    Vec4 { x: F32(ONE_BITS), y: F32(ONE_BITS), z: F32(ONE_BITS), w: F32(ONE_BITS) }
}

impl Vec4 {
    pub fn zero() -> (r: Vec4)
        ensures
            r == zero4(),
    {
        Vec4 { x: F32(0), y: F32(0), z: F32(0), w: F32(0) }
    }

    pub fn one() -> (r: Vec4)
        ensures
            r == one4(),
    {
        Vec4 { x: F32(ONE_BITS), y: F32(ONE_BITS), z: F32(ONE_BITS), w: F32(ONE_BITS) }
    }
}

/// A number clamped between ordered bounds lies between them, and one that was
/// between them already is left alone.
pub proof fn clamped_is_between(f: F32, min: F32, max: F32)
    requires
        !is_nan(f),
        !is_nan(min),
        !is_nan(max),
        rank(min) <= rank(max),
    ensures
        rank(min) <= rank(clamped(f, min, max)) <= rank(max),
        rank(min) <= rank(f) <= rank(max) ==> clamped(f, min, max) == f,
        clamped(clamped(f, min, max), min, max) == clamped(f, min, max),
        rank(f) < rank(min) ==> clamped(f, min, max) == min,
        rank(f) > rank(max) ==> clamped(f, min, max) == max,
{
}

/// The power of two that leaves `n`, in steps of it, below `limit`: the coarsest
/// that a number of that size is rounded to when it keeps `log2(limit)` binary
/// digits.
pub open spec fn coarseness(n: nat, limit: nat) -> nat
    decreases n,
{
    if n < limit || n == 0 {
        1
    } else {
        2 * coarseness(n / 2, limit)
    }
}

/// `n` rounded to that many digits: to the nearer neighbour, and of two equally
/// near to the one whose last digit is even.
pub open spec fn nearest(n: nat, limit: nat) -> nat {
    let p = coarseness(n, limit);
    let q = n / p;
    let r = n % p;
    if 2 * r > p || (2 * r == p && q % 2 == 1) {
        (q + 1) * p
    } else {
        q * p
    }
}

/// Two to the 53rd: the whole numbers below it are double-precision values.
pub const DOUBLE_LIMIT: u64 = 0x20_0000_0000_0000;

/// Two to the 24th: the whole numbers below it are single-precision values.
pub const SINGLE_LIMIT: u64 = 0x100_0000;

/// `n`, or the end of the `i64` range that it is past.
pub open spec fn saturated(n: int) -> int {
    if n > i64::MAX {
        i64::MAX as int
    } else if n < i64::MIN {
        i64::MIN as int
    } else {
        n
    }
}

/// `v` converted to a double and back.
pub open spec fn through_double(v: i64) -> int {
    saturated(
        if v < 0 {
            -(nearest((-v) as nat, DOUBLE_LIMIT as nat) as int)
        } else {
            nearest(v as nat, DOUBLE_LIMIT as nat) as int
        },
    )
}

/// The exponent field.
pub open spec fn exponent(f: F32) -> int {
    magnitude(f) / 0x80_0000
}

/// The digits of a number that is not subnormal, the leading one included.
pub open spec fn digits(f: F32) -> int {
    0x80_0000 + magnitude(f) % 0x80_0000
}

/// The size of `f` without its fraction. A subnormal number has none but that.
pub open spec fn whole_size(f: F32) -> int {
    let e = exponent(f);
    if e < 127 {
        0
    } else if e < 150 {
        digits(f) / vstd::arithmetic::power2::pow2((150 - e) as nat) as int
    } else {
        digits(f) * vstd::arithmetic::power2::pow2((e - 150) as nat)
    }
}

/// `f` converted to an `i64`: without its fraction, at the end of the range that
/// it is past, and zero for a NaN.
pub open spec fn as_whole(f: F32) -> int {
    if is_nan(f) {
        0
    } else if f.0 >= SIGN_BIT {
        saturated(-whole_size(f))
    } else {
        saturated(whole_size(f))
    }
}

/// How often `n` can be halved before it is one.
pub open spec fn log2(n: nat) -> nat
    decreases n,
{
    if n < 2 {
        0
    } else {
        1 + log2(n / 2)
    }
}

/// The bits of the whole number `n` as a single-precision value, rounded where
/// `n` has more digits than that holds.
pub open spec fn whole_bits(n: nat) -> nat {
    if n == 0 {
        0
    } else {
        let m = nearest(n, SINGLE_LIMIT as nat);
        let k = log2(m);
        (126 + k) * 0x80_0000 + m * 0x80_0000 / vstd::arithmetic::power2::pow2(k)
    }
}

/// `v` as a single-precision value.
pub open spec fn from_whole(v: i64) -> F32 {
    if v < 0 {
        F32((SIGN_BIT + whole_bits((-v) as nat)) as u32)
    } else {
        F32(whole_bits(v as nat) as u32)
    }
}

proof fn coarseness_bounds(n: nat, limit: nat)
    requires
        limit >= 2,
    ensures
        1 <= coarseness(n, limit),
        n >= 1 ==> coarseness(n, limit) <= n,
        n / coarseness(n, limit) < limit,
    decreases n,
{
    if n >= limit {
        let half = n / 2;
        coarseness_bounds(half, limit);
        let p = coarseness(half, limit);
        assert(n / (2 * p) == (n / 2) / p) by {
            vstd::arithmetic::div_mod::lemma_div_denominator(n as int, 2, p as int);
        }
    } else {
        assert(n / 1 == n);
    }
}

fn find_coarseness(n: u64, limit: u64) -> (p: u64)
    requires
        limit >= 2,
    ensures
        p == coarseness(n as nat, limit as nat),
        p >= 1,
    decreases n,
{
    proof {
        coarseness_bounds(n as nat, limit as nat);
        coarseness_bounds((n / 2) as nat, limit as nat);
    }
    if n < limit {
        1
    } else {
        2 * find_coarseness(n / 2, limit)
    }
}

fn find_nearest(n: u64, limit: u64) -> (r: u128)
    requires
        2 <= limit <= 0x20_0000_0000_0000,
    ensures
        r == nearest(n as nat, limit as nat),
{
    let p: u128 = find_coarseness(n, limit) as u128;
    proof {
        coarseness_bounds(n as nat, limit as nat);
    }
    let wide: u128 = n as u128;
    let q: u128 = wide / p;
    let r: u128 = wide % p;
    proof {
        assert((q + 1) * p <= 0x20_0000_0000_0000 * 0x1_0000_0000_0000_0000) by (nonlinear_arith)
            requires
                0 <= q < 0x20_0000_0000_0000,
                0 <= p <= 0x1_0000_0000_0000_0000,
        ;
        assert(q * p <= (q + 1) * p) by (nonlinear_arith)
            requires
                q >= 0,
                p >= 0,
        ;
    }
    if 2 * r > p || (2 * r == p && q % 2 == 1) {
        (q + 1) * p
    } else {
        q * p
    }
}

/// Two to the `e`.
fn power_of_two(e: u32) -> (r: u128)
    requires
        e <= 64,
    ensures
        r == vstd::arithmetic::power2::pow2(e as nat),
        1 <= r <= 0x1_0000_0000_0000_0000,
{
    let mut r: u128 = 1;
    let mut i: u32 = 0;
    proof {
        vstd::arithmetic::power2::lemma2_to64();
        vstd::arithmetic::power2::lemma2_to64_rest();
    }
    while i < e
        invariant
            i <= e <= 64,
            r == vstd::arithmetic::power2::pow2(i as nat),
        decreases e - i,
    {
        proof {
            vstd::arithmetic::power2::lemma_pow2_unfold((i + 1) as nat);
            if i < 63 {
                vstd::arithmetic::power2::lemma_pow2_strictly_increases(i as nat, 63);
            }
            vstd::arithmetic::power2::lemma2_to64();
            vstd::arithmetic::power2::lemma2_to64_rest();
        }
        r = 2 * r;
        i = i + 1;
    }
    proof {
        if e < 64 {
            vstd::arithmetic::power2::lemma_pow2_strictly_increases(e as nat, 64);
        }
        vstd::arithmetic::power2::lemma_pow2_pos(e as nat);
        vstd::arithmetic::power2::lemma2_to64();
        vstd::arithmetic::power2::lemma2_to64_rest();
    }
    r
}

/// `v` converted to a double and back.
pub fn round_through_double(v: i64) -> (r: i64)
    ensures
        r == through_double(v),
{
    if v < 0 {
        let size: u64 = if v == i64::MIN {
            0x8000_0000_0000_0000
        } else {
            (-v) as u64
        };
        let n: u128 = find_nearest(size, DOUBLE_LIMIT);
        if n >= 0x8000_0000_0000_0000 {
            i64::MIN
        } else {
            -(n as i64)
        }
    } else {
        let n: u128 = find_nearest(v as u64, DOUBLE_LIMIT);
        if n > 0x7fff_ffff_ffff_ffff {
            i64::MAX
        } else {
            n as i64
        }
    }
}

impl F32 {
    /// `self` as an `i64`, as a cast converts it.
    pub fn to_i64(self) -> (r: i64)
        ensures
            r == as_whole(self),
    {
        if self.is_nan() {
            return 0;
        }
        let negative: bool = self.0 >= SIGN_BIT;
        let size: u32 = if negative {
            self.0 - SIGN_BIT
        } else {
            self.0
        };
        let e: u32 = size / 0x80_0000;
        let d: u128 = (0x80_0000 + size % 0x80_0000) as u128;
        if e < 127 {
            0
        } else if e < 150 {
            let p: u128 = power_of_two(150 - e);
            let n: u128 = d / p;
            proof {
                assert(n <= d) by (nonlinear_arith)
                    requires
                        n == d / p,
                        p >= 1,
                        d >= 0,
                ;
            }
            if negative {
                -(n as i64)
            } else {
                n as i64
            }
        } else if e < 190 {
            let p: u128 = power_of_two(e - 150);
            proof {
                vstd::arithmetic::power2::lemma2_to64();
                vstd::arithmetic::power2::lemma2_to64_rest();
                if e < 189 {
                    vstd::arithmetic::power2::lemma_pow2_strictly_increases((e - 150) as nat, 39);
                }
                assert(d * p < 0x100_0000 * 0x80_0000_0000) by (nonlinear_arith)
                    requires
                        0 <= d < 0x100_0000,
                        1 <= p <= 0x80_0000_0000,
                ;
            }
            let n: u128 = d * p;
            if negative {
                -(n as i64)
            } else {
                n as i64
            }
        } else {
            proof {
                vstd::arithmetic::power2::lemma2_to64();
                vstd::arithmetic::power2::lemma2_to64_rest();
                let p = vstd::arithmetic::power2::pow2((e - 150) as nat);
                if e > 190 {
                    vstd::arithmetic::power2::lemma_pow2_strictly_increases(40, (e - 150) as nat);
                }
                assert(d * p >= 0x80_0000 * 0x100_0000_0000) by (nonlinear_arith)
                    requires
                        d >= 0x80_0000,
                        p >= 0x100_0000_0000,
                ;
            }
            if negative {
                i64::MIN
            } else {
                i64::MAX
            }
        }
    }
}

proof fn log2_bounds(n: nat)
    requires
        n >= 1,
    ensures
        vstd::arithmetic::power2::pow2(log2(n)) <= n,
        n < 2 * vstd::arithmetic::power2::pow2(log2(n)),
    decreases n,
{
    vstd::arithmetic::power2::lemma2_to64();
    if n >= 2 {
        log2_bounds(n / 2);
        vstd::arithmetic::power2::lemma_pow2_unfold(log2(n));
    }
}

fn find_log2(n: u128) -> (r: u32)
    requires
        1 <= n < 0x2_0000_0000_0000_0000,
    ensures
        r == log2(n as nat),
        r <= 64,
{
    let mut m: u128 = n;
    let mut k: u32 = 0;
    proof {
        log2_bounds(n as nat);
        vstd::arithmetic::power2::lemma2_to64();
        vstd::arithmetic::power2::lemma2_to64_rest();
        if log2(n as nat) > 64 {
            vstd::arithmetic::power2::lemma_pow2_unfold(65);
            if log2(n as nat) > 65 {
                vstd::arithmetic::power2::lemma_pow2_strictly_increases(65, log2(n as nat));
            }
        }
    }
    while m >= 2
        invariant
            m >= 1,
            k + log2(m as nat) == log2(n as nat),
            log2(n as nat) <= 64,
        decreases m,
    {
        m = m / 2;
        k = k + 1;
    }
    k
}

/// The bits of the whole number `n` as a single-precision value.
pub fn bits_of_whole(n: u64) -> (r: u32)
    ensures
        r == whole_bits(n as nat),
        r < SIGN_BIT,
{
    if n == 0 {
        return 0;
    }
    let m: u128 = find_nearest(n, SINGLE_LIMIT);
    proof {
        let limit = SINGLE_LIMIT as nat;
        let p = coarseness(n as nat, limit) as int;
        let q = n as int / p;
        coarseness_bounds(n as nat, limit);
        vstd::arithmetic::div_mod::lemma_fundamental_div_mod(n as int, p);
        assert((q + 1) * p == p * q + p) by (nonlinear_arith);
        assert(q * p == p * q) by (nonlinear_arith);
        assert(m >= 1) by {
            if n < limit {
                assert(n as int / 1 == n as int);
            } else {
                assert(q >= 1) by (nonlinear_arith)
                    requires
                        1 <= p <= n,
                        n as int == p * q + n as int % p,
                        0 <= n as int % p < p,
                ;
                assert(q * p >= 1) by (nonlinear_arith)
                    requires
                        q >= 1,
                        p >= 1,
                ;
            }
        }
    }
    let k: u32 = find_log2(m);
    let p: u128 = power_of_two(k);
    proof {
        log2_bounds(m as nat);
        assert(m * 0x80_0000 / p as int <= 0x100_0000) by (nonlinear_arith)
            requires
                0 <= m < 2 * p,
                p >= 1,
        ;
    }
    let top: u32 = (126 + k) * 0x80_0000;
    let low: u128 = m * 0x80_0000 / p;
    top + low as u32
}

impl F32 {
    /// `v` as a single-precision value, as a cast converts it.
    pub fn from_i64(v: i64) -> (r: F32)
        ensures
            r == from_whole(v),
    {
        if v < 0 {
            let size: u64 = if v == i64::MIN {
                0x8000_0000_0000_0000
            } else {
                (-v) as u64
            };
            F32(SIGN_BIT + bits_of_whole(size))
        } else {
            F32(bits_of_whole(v as u64))
        }
    }
}

/// A number without its fraction lies between the powers of two that its exponent
/// stands between.
proof fn size_bounds(f: F32)
    requires
        exponent(f) >= 127,
    ensures
        vstd::arithmetic::power2::pow2((exponent(f) - 127) as nat) <= whole_size(f)
            < vstd::arithmetic::power2::pow2((exponent(f) - 126) as nat),
{
    let e = exponent(f);
    let d = digits(f);
    vstd::arithmetic::power2::lemma2_to64();
    assert(0x80_0000 <= d < 0x100_0000);
    assert(vstd::arithmetic::power2::pow2(23) == 0x80_0000);
    assert(vstd::arithmetic::power2::pow2(24) == 0x100_0000);
    if e < 150 {
        let k = (150 - e) as nat;
        let p = vstd::arithmetic::power2::pow2(k);
        let low = vstd::arithmetic::power2::pow2((e - 127) as nat);
        let high = vstd::arithmetic::power2::pow2((e - 126) as nat);
        vstd::arithmetic::power2::lemma_pow2_pos(k);
        vstd::arithmetic::power2::lemma_pow2_adds(k, (e - 127) as nat);
        vstd::arithmetic::power2::lemma_pow2_adds(k, (e - 126) as nat);
        assert(p * low == 0x80_0000 && p * high == 0x100_0000);
        assert(low <= d / (p as int) && d / (p as int) < high) by (nonlinear_arith)
            requires
                p > 0,
                p * low <= d,
                d < p * high,
        ;
    } else {
        let k = (e - 150) as nat;
        let p = vstd::arithmetic::power2::pow2(k);
        vstd::arithmetic::power2::lemma_pow2_pos(k);
        vstd::arithmetic::power2::lemma_pow2_adds(23, k);
        vstd::arithmetic::power2::lemma_pow2_adds(24, k);
        assert(0x80_0000 * p <= d * p < 0x100_0000 * p) by (nonlinear_arith)
            requires
                0x80_0000 <= d < 0x100_0000,
                p > 0,
        ;
    }
}

proof fn sizes_keep_order(a: F32, b: F32)
    requires
        magnitude(a) <= magnitude(b),
    ensures
        0 <= whole_size(a) <= whole_size(b),
{
    let (ea, eb) = (exponent(a), exponent(b));
    assert(ea <= eb);
    if ea >= 127 {
        size_bounds(a);
        size_bounds(b);
        vstd::arithmetic::power2::lemma_pow2_pos((ea - 127) as nat);
        if ea < eb {
            if ea + 1 < eb {
                vstd::arithmetic::power2::lemma_pow2_strictly_increases(
                    (ea - 126) as nat,
                    (eb - 127) as nat,
                );
            }
        } else {
            assert(digits(a) <= digits(b));
            if ea < 150 {
                let p = vstd::arithmetic::power2::pow2((150 - ea) as nat) as int;
                vstd::arithmetic::power2::lemma_pow2_pos((150 - ea) as nat);
                vstd::arithmetic::div_mod::lemma_div_is_ordered(digits(a), digits(b), p);
            } else {
                let p = vstd::arithmetic::power2::pow2((ea - 150) as nat) as int;
                assert(digits(a) * p <= digits(b) * p) by (nonlinear_arith)
                    requires
                        digits(a) <= digits(b),
                        p >= 0,
                ;
            }
        }
    } else if eb >= 127 {
        size_bounds(b);
        vstd::arithmetic::power2::lemma_pow2_pos((eb - 127) as nat);
    }
}

/// Numbers in order are in order without their fractions.
pub proof fn wholes_keep_order(a: F32, b: F32)
    requires
        !is_nan(a),
        !is_nan(b),
        rank(a) <= rank(b),
    ensures
        as_whole(a) <= as_whole(b),
{
    if a.0 >= SIGN_BIT {
        if b.0 >= SIGN_BIT {
            sizes_keep_order(b, a);
        } else {
            sizes_keep_order(a, a);
            sizes_keep_order(b, b);
        }
    } else {
        if b.0 >= SIGN_BIT {
            assert(magnitude(a) == 0 && magnitude(b) == 0);
        } else {
            sizes_keep_order(a, b);
        }
    }
}

/// A multiple, by no more than the limit, of a step that some number is rounded
/// in, is not rounded at all.
proof fn multiples_are_exact(n: nat, limit: nat, d: nat)
    requires
        limit >= 2,
        limit % 2 == 0,
        d <= limit,
    ensures
        ({
            let x = d * coarseness(n, limit);
            x % coarseness(x, limit) == 0 && nearest(x, limit) == x
        }),
    decreases n,
{
    let x = d * coarseness(n, limit);
    coarseness_bounds(x, limit);
    if n < limit || n == 0 {
        assert(x == d) by (nonlinear_arith)
            requires
                x == d * 1,
        ;
        if x == limit {
            coarseness_bounds(x / 2, limit);
            assert(coarseness(x / 2, limit) == 1);
            assert(coarseness(x, limit) == 2);
        }
    } else {
        let half = d * coarseness(n / 2, limit);
        multiples_are_exact(n / 2, limit, d);
        coarseness_bounds(half, limit);
        assert(x == 2 * half) by (nonlinear_arith)
            requires
                x == d * (2 * coarseness(n / 2, limit)),
                half == d * coarseness(n / 2, limit),
        ;
        if x >= limit {
            let c = coarseness(half, limit) as int;
            assert(x / 2 == half);
            assert(coarseness(x, limit) == 2 * c);
            assert((2 * half as int) % (2 * c) == 2 * (half as int % c)) by {
                vstd::arithmetic::div_mod::lemma_truncate_middle(half as int, 2, c);
            }
        }
    }
    let c = coarseness(x, limit) as int;
    assert(x as int % c == 0);
    assert((x as int / c) * c == x) by (nonlinear_arith)
        requires
            x as int % c == 0,
            c > 0,
    ;
}

/// A rounded number is not rounded again.
proof fn nearest_is_settled(n: nat, limit: nat)
    requires
        limit >= 2,
        limit % 2 == 0,
    ensures
        nearest(nearest(n, limit), limit) == nearest(n, limit),
{
    coarseness_bounds(n, limit);
    let q = n / coarseness(n, limit);
    multiples_are_exact(n, limit, q);
    multiples_are_exact(n, limit, q + 1);
}

/// Doubling leaves a number exact.
proof fn doubles_are_exact(d: nat, k: nat, limit: nat)
    requires
        limit >= 2,
        limit % 2 == 0,
        d <= limit,
    ensures
        ({
            let x = d * vstd::arithmetic::power2::pow2(k);
            x % coarseness(x, limit) == 0 && nearest(x, limit) == x
        }),
    decreases k,
{
    let x = d * vstd::arithmetic::power2::pow2(k);
    coarseness_bounds(x, limit);
    if k == 0 {
        vstd::arithmetic::power2::lemma2_to64();
        multiples_are_exact(0, limit, d);
        assert(x == d * coarseness(0, limit));
    } else {
        let half = d * vstd::arithmetic::power2::pow2((k - 1) as nat);
        doubles_are_exact(d, (k - 1) as nat, limit);
        coarseness_bounds(half, limit);
        vstd::arithmetic::power2::lemma_pow2_unfold(k);
        assert(x == 2 * half) by (nonlinear_arith)
            requires
                x == d * (2 * vstd::arithmetic::power2::pow2((k - 1) as nat)),
                half == d * vstd::arithmetic::power2::pow2((k - 1) as nat),
        ;
        if x >= limit {
            let c = coarseness(half, limit) as int;
            assert(x / 2 == half);
            assert(coarseness(x, limit) == 2 * c);
            assert((2 * half as int) % (2 * c) == 2 * (half as int % c)) by {
                vstd::arithmetic::div_mod::lemma_truncate_middle(half as int, 2, c);
            }
        }
        let c = coarseness(x, limit) as int;
        assert(x as int % c == 0);
        assert((x as int / c) * c == x) by (nonlinear_arith)
            requires
                x as int % c == 0,
                c > 0,
        ;
    }
}

/// A number that went through a double comes through it unchanged the next time.
pub proof fn through_double_is_settled(v: i64)
    ensures
        i64::MIN <= through_double(v) <= i64::MAX,
        through_double(through_double(v) as i64) == through_double(v),
{
    let size = if v < 0 {
        (-v) as nat
    } else {
        v as nat
    };
    nearest_is_settled(size, DOUBLE_LIMIT as nat);
    ends_are_settled();
}

/// The ends of the `i64` range come through a double as themselves.
proof fn ends_are_settled()
    ensures
        through_double(i64::MAX) == i64::MAX,
        through_double(i64::MIN) == i64::MIN,
{
    vstd::arithmetic::power2::lemma2_to64();
    vstd::arithmetic::power2::lemma2_to64_rest();
    doubles_are_exact(1, 63, DOUBLE_LIMIT as nat);
    assert(1 * vstd::arithmetic::power2::pow2(63) == 0x8000_0000_0000_0000);
    top_rounds_up();
}

proof fn top_rounds_up()
    ensures
        nearest(i64::MAX as nat, DOUBLE_LIMIT as nat) == 0x8000_0000_0000_0000,
{
    reveal_with_fuel(coarseness, 12);
    assert(coarseness(i64::MAX as nat, DOUBLE_LIMIT as nat) == 1024);
}

/// A single-precision value without its fraction comes through a double as itself.
pub proof fn wholes_are_settled(f: F32)
    ensures
        i64::MIN <= as_whole(f) <= i64::MAX,
        through_double(as_whole(f) as i64) == as_whole(f),
{
    let e = exponent(f);
    let n = whole_size(f);
    sizes_keep_order(f, f);
    vstd::arithmetic::power2::lemma2_to64();
    ends_are_settled();
    assert(nearest(n as nat, DOUBLE_LIMIT as nat) == n) by {
        if e < 150 {
            if e >= 127 {
                size_bounds(f);
                vstd::arithmetic::power2::lemma2_to64();
                if e < 149 {
                    vstd::arithmetic::power2::lemma_pow2_strictly_increases((e - 126) as nat, 24);
                }
            }
            multiples_are_exact(0, DOUBLE_LIMIT as nat, n as nat);
            assert(coarseness(0, DOUBLE_LIMIT as nat) == 1);
            assert(n as nat * 1 == n);
        } else {
            doubles_are_exact(digits(f) as nat, (e - 150) as nat, DOUBLE_LIMIT as nat);
        }
    }
}

/// A small whole number comes through a double as itself.
pub proof fn small_numbers_are_settled(v: i64)
    requires
        -0x20_0000_0000_0000 < v < 0x20_0000_0000_0000,
    ensures
        through_double(v) == v,
{
    let size = if v < 0 {
        (-v) as nat
    } else {
        v as nat
    };
    assert(coarseness(size, DOUBLE_LIMIT as nat) == 1);
    assert(size / 1 == size);
}

/// Two singles are in the order of their numbers: of two above zero the one with the larger
/// bits is larger, of two below zero the one with the smaller; everything below zero is
/// below everything above; the two zeros are the same; and what is no number is in no order
/// with anything.
pub proof fn singles_are_in_order(a: F32, b: F32)
    ensures
        ({
            let sign = 0x8000_0000u32;
            let none = 0x7f80_0000u32;
            let a_none = none < a.0 < sign || a.0 > sign + none;
            let b_none = none < b.0 < sign || b.0 > sign + none;
            let zeros = (a.0 == 0 || a.0 == sign) && (b.0 == 0 || b.0 == sign);
            &&& is_nan(a) == a_none
            &&& a_none || b_none ==> !below(a, b) && !at_most(a, b) && !same_value(a, b)
            &&& !a_none && !b_none ==> {
                &&& zeros ==> same_value(a, b) && !below(a, b)
                &&& !zeros ==> (same_value(a, b) <==> a == b)
                &&& !zeros && a.0 < sign && b.0 < sign ==> (below(a, b) <==> a.0 < b.0)
                &&& !zeros && a.0 >= sign && b.0 >= sign ==> (below(a, b) <==> a.0 > b.0)
                &&& !zeros && a.0 >= sign && b.0 < sign ==> below(a, b)
                &&& !zeros && a.0 < sign && b.0 >= sign ==> !below(a, b)
                &&& at_most(a, b) <==> below(a, b) || same_value(a, b)
            }
        }),
{
}

/// A whole number that a single can hold comes back from one as itself.
pub proof fn small_wholes_come_back(v: i64)
    requires
        -0x100_0000 < v < 0x100_0000,
    ensures
        as_whole(from_whole(v)) == v,
{
    let n = (if v < 0 {
        -v
    } else {
        v as int
    }) as nat;
    if n > 0 {
        size_comes_back(n);
    }
}

/// The bits of a small whole number are of that size.
#[verifier::spinoff_prover]
proof fn size_comes_back(n: nat)
    requires
        0 < n < 0x100_0000,
    ensures
        whole_bits(n) < INFINITY_BITS,
        whole_size(F32(whole_bits(n) as u32)) == n,
        whole_size(F32((SIGN_BIT + whole_bits(n)) as u32)) == n,
{
    let k = log2(n);
    log2_bounds(n);
    vstd::arithmetic::power2::lemma2_to64();
    assert(nearest(n, SINGLE_LIMIT as nat) == n) by {
        assert(coarseness(n, SINGLE_LIMIT as nat) == 1);
    }
    assert(k <= 23) by {
        if k > 23 {
            if k > 24 {
                vstd::arithmetic::power2::lemma_pow2_strictly_increases(24, k);
            }
        }
    }
    let p = vstd::arithmetic::power2::pow2(k) as int;
    let q = vstd::arithmetic::power2::pow2((23 - k) as nat) as int;
    vstd::arithmetic::power2::lemma_pow2_pos(k);
    vstd::arithmetic::power2::lemma_pow2_pos((23 - k) as nat);
    vstd::arithmetic::power2::lemma_pow2_adds(k, (23 - k) as nat);
    assert(p * q == 0x80_0000);
    let d = n as int * q;
    assert(n as int * 0x80_0000 == d * p) by (nonlinear_arith)
        requires
            p * q == 0x80_0000,
            d == n as int * q,
    ;
    assert((d * p) / p == d) by {
        vstd::arithmetic::div_mod::lemma_div_multiples_vanish(d, p);
        assert(d * p == p * d) by (nonlinear_arith);
    }
    assert(0x80_0000 <= d < 0x100_0000) by (nonlinear_arith)
        requires
            d == n as int * q,
            p * q == 0x80_0000,
            p <= n < 2 * p,
            q > 0,
    ;
    let bits = whole_bits(n);
    assert(bits == (126 + k) * 0x80_0000 + d);
    assert(bits as int / 0x80_0000 == 127 + k);
    assert(0x80_0000 + bits as int % 0x80_0000 == d);
    assert(d / q == n) by {
        vstd::arithmetic::div_mod::lemma_div_multiples_vanish(n as int, q);
        assert(n as int * q == q * n as int) by (nonlinear_arith);
    }
    assert(magnitude(F32(bits as u32)) == bits);
    assert(magnitude(F32((SIGN_BIT + bits) as u32)) == bits);
    if k == 23 {
        assert(q == 1);
        assert(d * 1 == n);
    }
}

} // verus!
