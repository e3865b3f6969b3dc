//! Integer 2D vectors and the exact arithmetic the simulation is built on:
//! saturation to the coordinate range, division rounded toward zero, and the
//! ceiling of a square root.
use vstd::prelude::*;

verus! {

/// A point or displacement in fixed-point units. The coordinate range is that
/// of `i32`; every position the simulation produces saturates at its ends.
#[derive(Clone, Copy, Debug, PartialEq, Eq, Structural)]
pub struct Vec2 {
    pub x: i32,
    pub y: i32,
}

pub open spec fn zero_vec() -> Vec2 {
    Vec2 { x: 0, y: 0 }
}

/// The value `v`, held to the range of `i32`.
pub open spec fn clamp_i32(v: int) -> i32 {
    if v < i32::MIN {
        i32::MIN
    } else if v > i32::MAX {
        i32::MAX
    } else {
        v as i32
    }
}

/// Division rounded toward zero, for a positive divisor.
pub open spec fn div_trunc(a: int, b: int) -> int {
    if a >= 0 {
        a / b
    } else {
        -((-a) / b)
    }
}

/// `r` is the smallest natural number whose square is at least `n`.
pub open spec fn is_ceil_sqrt(n: int, r: int) -> bool {
    &&& r >= 0
    &&& n <= r * r
    &&& (r == 0 || (r - 1) * (r - 1) < n)
}

/// The ceiling of the square root of `n`; the Euclidean length used for
/// directions is `ceil_sqrt(dx * dx + dy * dy)`.
pub open spec fn ceil_sqrt(n: int) -> int {
    choose|r: int| is_ceil_sqrt(n, r)
}

/// Lengths used as divisors carry this many parts per unit (`2^31`), so that
/// directions keep their precision however short the vector is.
pub const LENGTH_SCALE: i128 = 0x8000_0000;

/// Squared Euclidean length of the vector `(dx, dy)`.
pub open spec fn norm2(dx: int, dy: int) -> int {
    dx * dx + dy * dy
}

/// The length of `(dx, dy)` in parts of `1 / LENGTH_SCALE`, rounded up: the
/// smallest `l` with `(l / LENGTH_SCALE)^2 >= dx^2 + dy^2`.
pub open spec fn fine_length(dx: int, dy: int) -> int {
    ceil_sqrt(norm2(dx, dy) * LENGTH_SCALE * LENGTH_SCALE)
}

proof fn lemma_square_monotonic(a: int, b: int)
    requires
        0 <= a <= b,
    ensures
        a * a <= b * b,
{
    assert(a * a <= b * b) by (nonlinear_arith)
        requires
            0 <= a <= b,
    ;
}

/// At most one natural number is the ceiling of the square root of `n`.
proof fn lemma_ceil_sqrt_unique(n: int, r1: int, r2: int)
    requires
        is_ceil_sqrt(n, r1),
        is_ceil_sqrt(n, r2),
    ensures
        r1 == r2,
{
    if r1 < r2 {
        lemma_square_monotonic(r1, r2 - 1);
    } else if r2 < r1 {
        lemma_square_monotonic(r2, r1 - 1);
    }
}

pub proof fn lemma_ceil_sqrt_is(n: int, r: int)
    requires
        is_ceil_sqrt(n, r),
    ensures
        ceil_sqrt(n) == r,
{
    lemma_ceil_sqrt_unique(n, r, ceil_sqrt(n));
}

proof fn lemma_ceil_sqrt_exists(n: nat) -> (r: int)
    ensures
        is_ceil_sqrt(n as int, r),
    decreases n,
{
    if n == 0 {
        0
    } else {
        let p = lemma_ceil_sqrt_exists((n - 1) as nat);
        if n <= p * p {
            p
        } else {
            assert(n <= (p + 1) * (p + 1)) by (nonlinear_arith)
                requires
                    n - 1 <= p * p,
                    p >= 0,
            ;
            p + 1
        }
    }
}

/// Every natural number has a ceiling square root.
pub proof fn lemma_ceil_sqrt(n: int)
    requires
        n >= 0,
    ensures
        is_ceil_sqrt(n, ceil_sqrt(n)),
{
    let r = lemma_ceil_sqrt_exists(n as nat);
    lemma_ceil_sqrt_is(n, r);
}

/// The squared length of a difference of two points fits below `2^66`.
pub proof fn lemma_norm2_bound(dx: int, dy: int)
    requires
        -0x1_0000_0000 <= dx <= 0x1_0000_0000,
        -0x1_0000_0000 <= dy <= 0x1_0000_0000,
    ensures
        0 <= dx * dx <= 0x1_0000_0000_0000_0000,
        0 <= dy * dy <= 0x1_0000_0000_0000_0000,
        0 <= norm2(dx, dy) <= 0x2_0000_0000_0000_0000,
{
    assert(0 <= dx * dx <= 0x1_0000_0000_0000_0000) by (nonlinear_arith)
        requires
            -0x1_0000_0000 <= dx <= 0x1_0000_0000,
    ;
    assert(0 <= dy * dy <= 0x1_0000_0000_0000_0000) by (nonlinear_arith)
        requires
            -0x1_0000_0000 <= dy <= 0x1_0000_0000,
    ;
}

/// A bound on a product from bounds on its factors.
pub proof fn lemma_mul_bound(a: int, b: int, ba: int, bb: int)
    requires
        -ba <= a <= ba,
        -bb <= b <= bb,
    ensures
        -(ba * bb) <= a * b <= ba * bb,
{
    assert(-(ba * bb) <= a * b <= ba * bb) by (nonlinear_arith)
        requires
            -ba <= a <= ba,
            -bb <= b <= bb,
    ;
}

/// Holds `v` to the range of `i32`.
pub fn saturate(v: i128) -> (r: i32)
    ensures
        r == clamp_i32(v as int),
{
    if v < i32::MIN as i128 {
        i32::MIN
    } else if v > i32::MAX as i128 {
        i32::MAX
    } else {
        v as i32
    }
}

/// Divides `a` by the positive `b`, rounding toward zero.
pub fn div_toward_zero(a: i128, b: i128) -> (r: i128)
    requires
        b > 0,
        a > i128::MIN,
    ensures
        r == div_trunc(a as int, b as int),
        a >= 0 ==> 0 <= r <= a,
        a < 0 ==> a <= r <= 0,
{
    if a >= 0 {
        proof {
            vstd::arithmetic::div_mod::lemma_div_is_ordered_by_denominator(a as int, 1, b as int);
        }
        a / b
    } else {
        proof {
            vstd::arithmetic::div_mod::lemma_div_is_ordered_by_denominator(-a, 1, b as int);
        }
        -((-a) / b)
    }
}

/// The smallest natural number whose square is at least `n`.
pub fn ceil_sqrt_u128(n: u128) -> (r: u128)
    requires
        n <= 0x8000_0000_0000_0000_0000_0000_0000_0000,
    ensures
        r as int == ceil_sqrt(n as int),
        r <= 0xFFFF_FFFF_FFFF_FFFF,
{
    if n == 0 {
        assert(is_ceil_sqrt(0, 0));
        proof {
            lemma_ceil_sqrt_is(0, 0);
        }
        return 0;
    }
    let mut lo: u128 = 0;
    let mut hi: u128 = 0xFFFF_FFFF_FFFF_FFFF;
    assert(hi * hi == 0xFFFF_FFFF_FFFF_FFFE_0000_0000_0000_0001);
    while hi - lo > 1
        invariant
            lo < hi <= 0xFFFF_FFFF_FFFF_FFFF,
            lo * lo < n,
            n <= hi * hi,
        decreases hi - lo,
    {
        let mid: u128 = lo + (hi - lo) / 2;
        assert(mid * mid <= 0xFFFF_FFFF_FFFF_FFFE_0000_0000_0000_0001) by (nonlinear_arith)
            requires
                mid <= 0xFFFF_FFFF_FFFF_FFFF,
        ;
        if mid * mid < n {
            lo = mid;
        } else {
            hi = mid;
        }
    }
    assert(is_ceil_sqrt(n as int, hi as int));
    proof {
        lemma_ceil_sqrt_is(n as int, hi as int);
    }
    hi
}

/// The length of `(dx, dy)` in parts of `1 / LENGTH_SCALE`, rounded up.
pub fn fine_length_of(dx: i128, dy: i128) -> (r: i128)
    requires
        -0xFFFF_FFFF <= dx <= 0xFFFF_FFFF,
        -0xFFFF_FFFF <= dy <= 0xFFFF_FFFF,
    ensures
        r == fine_length(dx as int, dy as int),
        0 <= r <= 0xFFFF_FFFF_FFFF_FFFF,
        is_ceil_sqrt(norm2(dx as int, dy as int) * LENGTH_SCALE * LENGTH_SCALE, r as int),
{
    proof {
        lemma_norm2_bound(dx as int, dy as int);
    }
    assert(dx * dx <= 0xFFFF_FFFE_0000_0001) by (nonlinear_arith)
        requires
            -0xFFFF_FFFF <= dx <= 0xFFFF_FFFF,
    ;
    assert(dy * dy <= 0xFFFF_FFFE_0000_0001) by (nonlinear_arith)
        requires
            -0xFFFF_FFFF <= dy <= 0xFFFF_FFFF,
    ;
    let n2: i128 = dx * dx + dy * dy;
    assert(n2 * LENGTH_SCALE * LENGTH_SCALE <= 0x7FFF_FFFF_0000_0000_8000_0000_0000_0000) by (nonlinear_arith)
        requires
            0 <= n2 <= 0x1_FFFF_FFFC_0000_0002,
            LENGTH_SCALE == 0x8000_0000,
    ;
    assert(0 <= n2 * LENGTH_SCALE <= 0x1_0000_0000_0000_0000_0000_0000) by (nonlinear_arith)
        requires
            0 <= n2 <= 0x1_FFFF_FFFC_0000_0002,
            LENGTH_SCALE == 0x8000_0000,
    ;
    assert(n2 * LENGTH_SCALE * LENGTH_SCALE >= 0) by (nonlinear_arith)
        requires
            0 <= n2,
            LENGTH_SCALE == 0x8000_0000,
    ;
    let r = ceil_sqrt_u128((n2 * LENGTH_SCALE * LENGTH_SCALE) as u128) as i128;
    proof {
        lemma_ceil_sqrt(norm2(dx as int, dy as int) * LENGTH_SCALE * LENGTH_SCALE);
    }
    r
}

} // verus!
