//! Fixed-point scalars: an `i32` holding a value in units of 1/65536.
//!
//! Intermediate results are computed exactly in `i128`, divided with rounding
//! toward zero, and saturated when they are stored back into a scalar.

use vstd::prelude::*;

verus! {

/// The raw representation of 1.0.
pub const ONE: i32 = 65536;

/// Microseconds per second; time steps are given in whole microseconds.
pub const MICROS: i64 = 1000000;

/// The integer nearest to `x` that a scalar can hold.
pub open spec fn clamp32(x: int) -> int {
    if x < -2147483648 {
        -2147483648
    } else if x > 2147483647 {
        2147483647
    } else {
        x
    }
}

/// The quotient of `a` by a positive `b`, rounded toward zero.
pub open spec fn div_trunc(a: int, b: int) -> int {
    if a >= 0 {
        a / b
    } else {
        -((-a) / b)
    }
}

/// `a * num / den`, rounded toward zero and saturated.
pub open spec fn ratio(a: int, num: int, den: int) -> int {
    clamp32(div_trunc(a * num, den))
}

/// The absolute value of `x`.
pub open spec fn abs_int(x: int) -> int {
    if x < 0 {
        -x
    } else {
        x
    }
}

/// Whether `r` is the integer square root of `n`.
pub open spec fn is_sqrt_floor(n: int, r: int) -> bool {
    0 <= r && r * r <= n && n < (r + 1) * (r + 1)
}

/// The largest integer whose square does not exceed `n`.
pub open spec fn sqrt_floor(n: int) -> int {
    choose|r: int| is_sqrt_floor(n, r)
}

/// A product is bounded by the product of the bounds of its factors.
pub proof fn lemma_product_bound(a: int, b: int, ba: int, bb: int)
    by (nonlinear_arith)
    requires
        -ba <= a <= ba,
        -bb <= b <= bb,
    ensures
        -(ba * bb) <= a * b <= ba * bb,
{
}

/// An integer has at most one integer square root.
pub proof fn lemma_sqrt_unique(n: int, r1: int, r2: int)
    by (nonlinear_arith)
    requires
        is_sqrt_floor(n, r1),
        is_sqrt_floor(n, r2),
    ensures
        r1 == r2,
{
    if r1 < r2 {
        assert((r1 + 1) * (r1 + 1) <= r2 * r2);
    } else if r2 < r1 {
        assert((r2 + 1) * (r2 + 1) <= r1 * r1);
    }
}

/// Saturating conversion from a wide intermediate to a scalar.
pub fn saturate(x: i128) -> (r: i32)
    ensures
        r as int == clamp32(x as int),
{
    if x < -2147483648i128 {
        i32::MIN
    } else if x > 2147483647i128 {
        i32::MAX
    } else {
        x as i32
    }
}

/// Division of a wide intermediate by a positive divisor, rounded toward zero.
pub fn div_toward_zero(a: i128, b: i128) -> (r: i128)
    requires
        b > 0,
        a > i128::MIN,
    ensures
        r as int == div_trunc(a as int, b as int),
{
    if a >= 0 {
        a / b
    } else {
        let m: i128 = -a;
        let q: i128 = m / b;
        -q
    }
}

/// Multiplies a scalar by the fraction `num / den`.
pub fn scale_ratio(a: i32, num: i64, den: i64) -> (r: i32)
    requires
        den > 0,
    ensures
        r as int == ratio(a as int, num as int, den as int),
{
    proof {
        lemma_product_bound(a as int, num as int, 0x8000_0000, 0x8000_0000_0000_0000);
    }
    let p: i128 = (a as i128) * (num as i128);
    saturate(div_toward_zero(p, den as i128))
}

/// The saturating sum of two scalars.
pub fn sat_add(a: i32, b: i32) -> (r: i32)
    ensures
        r as int == clamp32(a + b),
{
    saturate(a as i128 + b as i128)
}

/// The saturating difference of two scalars.
pub fn sat_sub(a: i32, b: i32) -> (r: i32)
    ensures
        r as int == clamp32(a - b),
{
    saturate(a as i128 - b as i128)
}

/// The absolute value of a scalar, widened so that it cannot overflow.
pub fn magnitude(a: i32) -> (r: i64)
    ensures
        r as int == abs_int(a as int),
{
    if a < 0 {
        -(a as i64)
    } else {
        a as i64
    }
}

/// The integer square root, by bisection.
pub fn isqrt(n: u64) -> (r: u64)
    ensures
        is_sqrt_floor(n as int, r as int),
        r as int == sqrt_floor(n as int),
        r <= 0xffff_ffff,
{
    let mut lo: u64 = 0;
    let mut hi: u64 = 0x1_0000_0000;
    assert(0x1_0000_0000int * 0x1_0000_0000int > n as int);
    while hi - lo > 1
        invariant
            lo < hi <= 0x1_0000_0000,
            lo * lo <= n,
            n < hi * hi,
        decreases hi - lo,
    {
        let mid: u64 = lo + (hi - lo) / 2;
        assert(mid * mid <= 0xffff_ffff * 0xffff_ffff) by (nonlinear_arith)
            requires
                0 <= mid <= 0xffff_ffff,
        ;
        if mid * mid <= n {
            lo = mid;
        } else {
            hi = mid;
        }
    }
    proof {
        assert(hi == lo + 1);
        assert(is_sqrt_floor(n as int, lo as int));
        lemma_sqrt_unique(n as int, lo as int, sqrt_floor(n as int));
    }
    lo
}

} // verus!
