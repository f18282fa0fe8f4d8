//! Fixed-point arithmetic for the engine.
//!
//! Every length, coordinate, velocity component and interaction coefficient
//! is an `i64` holding `SCALE` sub-units per world unit. The helpers here
//! give the engine exact integer semantics: floor division, Euclidean
//! remainder, saturating addition and an integer square root, each with a
//! contract that pins the result down.

use vstd::prelude::*;

verus! {

/// Sub-units per world unit of the fixed-point representation.
pub const SCALE: i64 = 1000;

/// Particle diameter: one world unit.
pub const DIAMETER: i64 = 1000;

/// Particle radius: half a diameter. Reflective walls are inset by it.
pub const RADIUS: i64 = 500;

/// Smoothing constant of the collision-avoidance force: two world units.
pub const R_SMOOTH: i64 = 2000;

/// Dimension of the square spatial grid.
pub const GRID_SIZE: usize = 32;

/// Cap on the magnitude of coordinates, radii and attraction coefficients
/// (one million world units). Keeping every configured quantity within this
/// bound lets the force computation stay inside `i64`/`i128` ranges.
pub const LIMIT: i64 = 1_000_000_000;

/// Squared-distance threshold below which a pair contributes no force:
/// 0.01 square world units, i.e. `0.01 * SCALE * SCALE`.
pub const NEAR_R2: i64 = 10_000;

/// Velocity and position sums saturate at this magnitude.
pub const CLIP: i64 = i64::MAX;

/// Mathematical absolute value.
pub open spec fn iabs(x: int) -> int {
    if x < 0 {
        -x
    } else {
        x
    }
}

/// Addition clipped to the symmetric range `[-CLIP, CLIP]`.
pub open spec fn clip_add(a: int, b: int) -> int {
    if a + b > CLIP {
        CLIP as int
    } else if a + b < -(CLIP as int) {
        -(CLIP as int)
    } else {
        a + b
    }
}

/// Saturating addition: exact when the sum is representable, clipped to
/// `[-CLIP, CLIP]` otherwise.
pub fn sat_add(a: i64, b: i64) -> (r: i64)
    ensures
        r == clip_add(a as int, b as int),
{
    match a.checked_add(b) {
        Some(s) => {
            if s == i64::MIN {
                -CLIP
            } else {
                s
            }
        },
        None => {
            if b > 0 {
                CLIP
            } else {
                -CLIP
            }
        },
    }
}

/// Absolute value on `i64` (the minimum value is excluded so the result fits).
pub fn abs64(x: i64) -> (r: i64)
    requires
        x > i64::MIN,
    ensures
        r == iabs(x as int),
{
    if x < 0 {
        -x
    } else {
        x
    }
}

/// Floor division by a positive divisor (`/` on `int` is Euclidean, which
/// coincides with floor division for positive divisors).
pub fn div_floor(a: i64, b: i64) -> (r: i64)
    requires
        b > 0,
    ensures
        r == a as int / b as int,
{
    proof {
        lemma_div_floor_bounds(a as int, b as int);
    }
    a.checked_div_euclid(b).unwrap()
}

/// Floor division on `i128` by a positive divisor.
pub fn div_floor_128(a: i128, b: i128) -> (r: i128)
    requires
        b > 0,
    ensures
        r == a as int / b as int,
{
    proof {
        lemma_div_floor_bounds(a as int, b as int);
    }
    a.checked_div_euclid(b).unwrap()
}

/// Euclidean remainder by a positive divisor; the result lies in `[0, b)`.
pub fn mod_floor(a: i64, b: i64) -> (r: i64)
    requires
        b > 0,
    ensures
        r == a as int % b as int,
        0 <= r < b,
{
    proof {
        vstd::arithmetic::div_mod::lemma_mod_bound(a as int, b as int);
    }
    a.checked_rem_euclid(b).unwrap()
}

/// Floor division by a positive divisor never leaves the interval between
/// the dividend and zero.
pub proof fn lemma_div_floor_bounds(a: int, b: int)
    requires
        b >= 1,
    ensures
        a >= 0 ==> 0 <= a / b <= a,
        a < 0 ==> a <= a / b <= 0,
{
    let q = a / b;
    let m = a % b;
    vstd::arithmetic::div_mod::lemma_fundamental_div_mod(a, b);
    vstd::arithmetic::div_mod::lemma_mod_bound(a, b);
    if a >= 0 {
        assert(0 <= q && q <= a) by (nonlinear_arith)
            requires
                a == b * q + m,
                0 <= m < b,
                a >= 0,
                b >= 1,
        ;
    } else {
        assert(a <= q && q <= 0) by (nonlinear_arith)
            requires
                a == b * q + m,
                0 <= m < b,
                a < 0,
                b >= 1,
        ;
    }
}

/// A quotient is bounded by `bound` whenever the dividend is bounded by
/// `bound` times the divisor.
pub proof fn lemma_div_bounded_by_factor(x: int, bound: int, d: int)
    requires
        d >= 1,
        bound >= 0,
        -bound * d <= x <= bound * d,
    ensures
        -bound <= x / d <= bound,
{
    vstd::arithmetic::div_mod::lemma_div_is_ordered(x, bound * d, d);
    vstd::arithmetic::div_mod::lemma_div_is_ordered(-bound * d, x, d);
    vstd::arithmetic::div_mod::lemma_div_multiples_vanish(bound, d);
    vstd::arithmetic::div_mod::lemma_div_multiples_vanish(-bound, d);
    vstd::arithmetic::mul::lemma_mul_is_commutative(bound, d);
    vstd::arithmetic::mul::lemma_mul_is_commutative(-bound, d);
    assert((d * bound) / d == bound);
    assert((d * -bound) / d == -bound);
}

/// Floor division of a negative integer by a positive one is negative.
pub proof fn lemma_div_neg(x: int, d: int)
    requires
        x < 0,
        d >= 1,
    ensures
        x / d < 0,
{
    let q = x / d;
    let m = x % d;
    vstd::arithmetic::div_mod::lemma_fundamental_div_mod(x, d);
    vstd::arithmetic::div_mod::lemma_mod_bound(x, d);
    assert(q < 0) by (nonlinear_arith)
        requires
            x == d * q + m,
            0 <= m < d,
            x < 0,
            d >= 1,
    ;
}

/// `r` is the floor of the square root of `n`.
pub open spec fn is_sqrt_floor(n: int, r: int) -> bool {
    0 <= r && r * r <= n && n < (r + 1) * (r + 1)
}

/// The floor of the square root of a non-negative integer.
pub open spec fn sqrt_floor(n: int) -> int {
    choose|r: int| is_sqrt_floor(n, r)
}

/// Any witness of `is_sqrt_floor` is the value of `sqrt_floor`.
pub proof fn lemma_sqrt_floor(n: int, r: int)
    requires
        is_sqrt_floor(n, r),
    ensures
        sqrt_floor(n) == r,
{
    assert(is_sqrt_floor(n, sqrt_floor(n)));
    let c = sqrt_floor(n);
    assert(c == r) by (nonlinear_arith)
        requires
            is_sqrt_floor(n, c),
            is_sqrt_floor(n, r),
    ;
}

/// Integer square root by binary search.
pub fn isqrt(n: u64) -> (r: u64)
    ensures
        is_sqrt_floor(n as int, r as int),
        r == sqrt_floor(n as int),
{
    let mut lo: u64 = 0;
    let mut hi: u64 = 4_294_967_296;
    while hi - lo > 1
        invariant
            lo < hi <= 4_294_967_296,
            lo * lo <= n,
            n < hi * hi,
        decreases hi - lo,
    {
        let mid: u64 = lo + (hi - lo) / 2;
        proof {
            assert((mid as int) * (mid as int) <= 0x1_0000_0000_0000_0000) by (nonlinear_arith)
                requires
                    0 <= mid as int <= 0x1_0000_0000,
            ;
        }
        if (mid as u128) * (mid as u128) <= n as u128 {
            lo = mid;
        } else {
            hi = mid;
        }
    }
    proof {
        lemma_sqrt_floor(n as int, lo as int);
    }
    lo
}

} // verus!
