//! Integer helpers for the fixed-point color arithmetic: truncating integer
//! roots (square, cube and fifth), and division that truncates toward zero.

use vstd::prelude::*;

verus! {

pub open spec fn sq(r: int) -> int {
    r * r
}

pub open spec fn cube(r: int) -> int {
    r * r * r
}

pub open spec fn pow5(r: int) -> int {
    r * r * r * r * r
}

/// `r` is the truncating integer square root of `x`.
pub open spec fn is_isqrt(r: int, x: int) -> bool {
    0 <= r && sq(r) <= x < sq(r + 1)
}

/// `r` is the truncating integer cube root of `x`.
pub open spec fn is_icbrt(r: int, x: int) -> bool {
    0 <= r && cube(r) <= x < cube(r + 1)
}

/// `r` is the truncating integer fifth root of `x`.
pub open spec fn is_iroot5(r: int, x: int) -> bool {
    0 <= r && pow5(r) <= x < pow5(r + 1)
}

pub open spec fn spec_isqrt(x: int) -> int {
    choose|r: int| is_isqrt(r, x)
}

pub open spec fn spec_icbrt(x: int) -> int {
    choose|r: int| is_icbrt(r, x)
}

pub open spec fn spec_iroot5(x: int) -> int {
    choose|r: int| is_iroot5(r, x)
}

proof fn lemma_sq_mono(a: int, b: int)
    requires
        0 <= a <= b,
    ensures
        sq(a) <= sq(b),
{
    assert(a * a <= b * b) by (nonlinear_arith)
        requires
            0 <= a <= b,
    ;
}

proof fn lemma_cube_mono(a: int, b: int)
    requires
        0 <= a <= b,
    ensures
        cube(a) <= cube(b),
{
    assert(a * a * a <= b * b * b) by (nonlinear_arith)
        requires
            0 <= a <= b,
    ;
}

proof fn lemma_pow5_mono(a: int, b: int)
    requires
        0 <= a <= b,
    ensures
        pow5(a) <= pow5(b),
{
    assert(a * a * a * a * a <= b * b * b * b * b) by (nonlinear_arith)
        requires
            0 <= a <= b,
    ;
}

pub proof fn lemma_isqrt_unique(r: int, x: int)
    requires
        is_isqrt(r, x),
    ensures
        spec_isqrt(x) == r,
{
    let c = spec_isqrt(x);
    assert(is_isqrt(c, x));
    if c < r {
        lemma_sq_mono(c + 1, r);
    }
    if r < c {
        lemma_sq_mono(r + 1, c);
    }
}

pub proof fn lemma_icbrt_unique(r: int, x: int)
    requires
        is_icbrt(r, x),
    ensures
        spec_icbrt(x) == r,
{
    let c = spec_icbrt(x);
    assert(is_icbrt(c, x));
    if c < r {
        lemma_cube_mono(c + 1, r);
    }
    if r < c {
        lemma_cube_mono(r + 1, c);
    }
}

pub proof fn lemma_iroot5_unique(r: int, x: int)
    requires
        is_iroot5(r, x),
    ensures
        spec_iroot5(x) == r,
{
    let c = spec_iroot5(x);
    assert(is_iroot5(c, x));
    if c < r {
        lemma_pow5_mono(c + 1, r);
    }
    if r < c {
        lemma_pow5_mono(r + 1, c);
    }
}

/// Truncating integer square root for inputs up to 10^10, so the root is at
/// most 10^5.
pub fn isqrt(x: u64) -> (r: u64)
    requires
        x <= 10_000_000_000,
    ensures
        is_isqrt(r as int, x as int),
        r <= 100_000,
{
    let mut lo: u64 = 0;
    let mut hi: u64 = 100_001;
    proof {
        assert(100_001 * 100_001 > 10_000_000_000);
    }
    while lo + 1 < hi
        invariant
            lo < hi <= 100_001,
            sq(lo as int) <= x as int,
            sq(hi as int) > x as int,
        decreases hi - lo,
    {
        let mid = lo + (hi - lo) / 2;
        proof {
            assert(mid * mid <= 100_000 * 100_000) by (nonlinear_arith)
                requires
                    0 <= mid <= 100_000,
            ;
        }
        if mid * mid <= x {
            lo = mid;
        } else {
            hi = mid;
        }
    }
    lo
}

/// Truncating integer cube root for inputs up to 10^15, so the root is at
/// most 10^5.
pub fn icbrt(x: u64) -> (r: u64)
    requires
        x <= 1_000_000_000_000_000,
    ensures
        is_icbrt(r as int, x as int),
        r <= 100_000,
{
    let mut lo: u64 = 0;
    let mut hi: u64 = 100_001;
    proof {
        assert(100_001 * 100_001 * 100_001 > 1_000_000_000_000_000);
    }
    while lo + 1 < hi
        invariant
            lo < hi <= 100_001,
            cube(lo as int) <= x as int,
            cube(hi as int) > x as int,
        decreases hi - lo,
    {
        let mid = lo + (hi - lo) / 2;
        proof {
            assert(mid * mid <= 100_000 * 100_000 && mid * mid * mid <= 100_000 * 100_000
                * 100_000) by (nonlinear_arith)
                requires
                    0 <= mid <= 100_000,
            ;
        }
        if mid * mid * mid <= x {
            lo = mid;
        } else {
            hi = mid;
        }
    }
    lo
}

/// Truncating integer fifth root for inputs up to 10^25, so the root is at
/// most 10^5.
pub fn iroot5(x: u128) -> (r: u64)
    requires
        x <= 10_000_000_000_000_000_000_000_000,
    ensures
        is_iroot5(r as int, x as int),
        r <= 100_000,
{
    let mut lo: u128 = 0;
    let mut hi: u128 = 100_001;
    proof {
        assert(100_001 * 100_001 * 100_001 * 100_001 * 100_001
            > 10_000_000_000_000_000_000_000_000);
    }
    while lo + 1 < hi
        invariant
            lo < hi <= 100_001,
            pow5(lo as int) <= x as int,
            pow5(hi as int) > x as int,
        decreases hi - lo,
    {
        let mid = lo + (hi - lo) / 2;
        proof {
            assert(mid * mid <= 100_000 * 100_000 && mid * mid * mid <= 100_000 * 100_000
                * 100_000 && mid * mid * mid * mid <= 100_000 * 100_000 * 100_000 * 100_000
                && mid * mid * mid * mid * mid <= 100_000 * 100_000 * 100_000 * 100_000
                * 100_000) by (nonlinear_arith)
                requires
                    0 <= mid <= 100_000,
            ;
        }
        if mid * mid * mid * mid * mid <= x {
            lo = mid;
        } else {
            hi = mid;
        }
    }
    lo as u64
}

/// Integer division truncating toward zero, as the pipeline's fixed-point
/// arithmetic defines it for signed values.
pub open spec fn tdiv(x: int, d: int) -> int {
    if x >= 0 {
        x / d
    } else {
        -((-x) / d)
    }
}

/// Division of a possibly negative value by a positive constant, truncating
/// toward zero.
pub fn sdiv(x: i64, d: u64) -> (r: i64)
    requires
        0 < d,
        -1_000_000_000_000_000_000 <= x <= 1_000_000_000_000_000_000,
    ensures
        r == tdiv(x as int, d as int),
{
    if x >= 0 {
        let q = (x as u64) / d;
        proof {
            vstd::arithmetic::div_mod::lemma_div_nonincreasing(x as int, d as int);
            vstd::arithmetic::div_mod::lemma_div_pos_is_pos(x as int, d as int);
        }
        q as i64
    } else {
        let m = (-x) as u64;
        let q = m / d;
        proof {
            vstd::arithmetic::div_mod::lemma_div_nonincreasing(m as int, d as int);
            vstd::arithmetic::div_mod::lemma_div_pos_is_pos(m as int, d as int);
        }
        -(q as i64)
    }
}

/// Division is bounded by any product bound on the dividend: if
/// `0 <= x <= n * b` then `x / n <= b`.
pub proof fn lemma_div_le_bound(x: int, n: int, b: int)
    requires
        1 <= n,
        0 <= b,
        0 <= x <= n * b,
    ensures
        0 <= x / n <= b,
{
    vstd::arithmetic::div_mod::lemma_div_is_ordered(x, n * b, n);
    vstd::arithmetic::div_mod::lemma_div_multiples_vanish(b, n);
    vstd::arithmetic::div_mod::lemma_div_pos_is_pos(x, n);
}

/// Strict variant: if `0 <= x < n * (b + 1)` then `x / n <= b`.
pub proof fn lemma_div_lt_bound(x: int, n: int, b: int)
    requires
        1 <= n,
        0 <= b,
        0 <= x,
        x < n * (b + 1),
    ensures
        0 <= x / n <= b,
{
    vstd::arithmetic::div_mod::lemma_div_pos_is_pos(x, n);
    if x / n > b {
        vstd::arithmetic::div_mod::lemma_fundamental_div_mod(x, n);
        vstd::arithmetic::div_mod::lemma_mod_division_less_than_divisor(x, n);
        assert(n * (x / n) >= n * (b + 1)) by (nonlinear_arith)
            requires
                n >= 1,
                x / n >= b + 1,
        ;
    }
}

/// Multiplying within non-negative bounds stays within the product of the
/// bounds.
pub proof fn lemma_mul_le(a: int, b: int, x: int, y: int)
    requires
        0 <= a <= x,
        0 <= b <= y,
    ensures
        0 <= a * b <= x * y,
{
    assert(0 <= a * b <= x * y) by (nonlinear_arith)
        requires
            0 <= a <= x,
            0 <= b <= y,
    ;
}

} // verus!
