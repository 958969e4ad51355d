//! Signed fixed-point scalars: an `i64` holds a real number scaled by
//! `FP_ONE` (2^16).  Multiplication and division round toward zero, and
//! square roots round down; every operation states its result exactly
//! over mathematical integers.

use vstd::prelude::*;

verus! {

/// The fixed-point scale: the representation of the real number 1.
pub const FP_ONE: i64 = 65536;

/// Absolute value of a mathematical integer.
pub open spec fn sabs(a: int) -> int {
    if a < 0 {
        -a
    } else {
        a
    }
}

/// Division rounding toward zero (the convention of hardware division),
/// defined from Euclidean division of the magnitudes.
pub open spec fn spec_tdiv(a: int, b: int) -> int {
    if (a < 0) == (b < 0) {
        sabs(a) / sabs(b)
    } else {
        -(sabs(a) / sabs(b))
    }
}

/// The integer square root, rounded down.
pub open spec fn spec_isqrt(n: int) -> int
    decreases n,
{
    if n <= 0 {
        0
    } else {
        let r = spec_isqrt(n - 1);
        if (r + 1) * (r + 1) <= n {
            r + 1
        } else {
            r
        }
    }
}

/// `spec_isqrt(n)` is the unique nonnegative root: it squares to at most
/// `n`, and the next integer squares past `n`.
pub proof fn lemma_isqrt_bounds(n: int)
    requires
        n >= 0,
    ensures
        0 <= spec_isqrt(n),
        spec_isqrt(n) * spec_isqrt(n) <= n,
        n < (spec_isqrt(n) + 1) * (spec_isqrt(n) + 1),
    decreases n,
{
    if n > 0 {
        lemma_isqrt_bounds(n - 1);
        let r = spec_isqrt(n - 1);
        assert((r + 1) * (r + 1) < (r + 2) * (r + 2)) by (nonlinear_arith)
            requires
                r >= 0,
        ;
    }
}

/// Any nonnegative `r` bracketing `n` between consecutive squares is the
/// integer square root.
pub proof fn lemma_isqrt_unique(n: int, r: int)
    requires
        n >= 0,
        r >= 0,
        r * r <= n,
        n < (r + 1) * (r + 1),
    ensures
        r == spec_isqrt(n),
{
    lemma_isqrt_bounds(n);
    let s = spec_isqrt(n);
    if r < s {
        assert((r + 1) * (r + 1) <= s * s) by (nonlinear_arith)
            requires
                0 <= r + 1 <= s,
        ;
    }
    if s < r {
        assert((s + 1) * (s + 1) <= r * r) by (nonlinear_arith)
            requires
                0 <= s + 1 <= r,
        ;
    }
}

/// Truncating division on wide integers, computed through unsigned
/// division of the magnitudes.
pub fn tdiv_i128(a: i128, b: i128) -> (r: i128)
    requires
        b != 0,
        sabs(a as int) <= 0x4000_0000_0000_0000_0000_0000_0000_0000,
        sabs(b as int) <= 0x4000_0000_0000_0000_0000_0000_0000_0000,
    ensures
        r == spec_tdiv(a as int, b as int),
        sabs(r as int) <= sabs(a as int),
{
    let ua: u128 = if a < 0 {
        (-a) as u128
    } else {
        a as u128
    };
    let ub: u128 = if b < 0 {
        (-b) as u128
    } else {
        b as u128
    };
    let q: u128 = ua / ub;
    proof {
        assert(ua == sabs(a as int));
        assert(ub == sabs(b as int));
        assert(q == sabs(a as int) / sabs(b as int));
        assert(q <= ua) by (nonlinear_arith)
            requires
                ub >= 1,
                q == ua / ub,
        ;
    }
    if (a < 0) != (b < 0) {
        -(q as i128)
    } else {
        q as i128
    }
}

/// Fixed-point product: the mathematical product of the operands,
/// rescaled by `FP_ONE` with truncation.
pub fn mul_fp(a: i64, b: i64) -> (r: i64)
    requires
        sabs(spec_tdiv(a as int * b as int, FP_ONE as int)) <= 0x7fff_ffff_ffff_ffff,
    ensures
        r == spec_tdiv(a as int * b as int, FP_ONE as int),
{
    let p: i128 = (a as i128) * (b as i128);
    proof {
        assert(sabs(p as int) <= 0x4000_0000_0000_0000_0000_0000_0000_0000) by (nonlinear_arith)
            requires
                p == a as int * b as int,
                -0x8000_0000_0000_0000 <= a as int <= 0x7fff_ffff_ffff_ffff,
                -0x8000_0000_0000_0000 <= b as int <= 0x7fff_ffff_ffff_ffff,
        ;
    }
    let q: i128 = tdiv_i128(p, 65536);
    q as i64
}

/// Fixed-point quotient: the dividend is raised by the scale before the
/// truncating division, so the result keeps 16 fractional bits.
pub fn div_fp(a: i64, b: i64) -> (r: i64)
    requires
        b != 0,
        sabs(spec_tdiv(a as int * FP_ONE as int, b as int)) <= 0x7fff_ffff_ffff_ffff,
    ensures
        r == spec_tdiv(a as int * FP_ONE as int, b as int),
{
    let p: i128 = (a as i128) * 65536;
    let q: i128 = tdiv_i128(p, b as i128);
    proof {
        assert(sabs(p as int) <= sabs(a as int) * 65536) by (nonlinear_arith)
            requires
                p == a as int * 65536,
        ;
    }
    q as i64
}

/// Integer square root of a wide unsigned value, by bisection.
pub fn isqrt_u128(n: u128) -> (r: u128)
    requires
        n < 0x4000_0000_0000_0000_0000_0000_0000_0000,
    ensures
        r * r <= n,
        n < (r + 1) * (r + 1),
        r == spec_isqrt(n as int),
        r < 0x8000_0000_0000_0000,
{
    let mut lo: u128 = 0;
    let mut hi: u128 = 0x8000_0000_0000_0000;
    proof {
        assert(n < hi * hi) by (nonlinear_arith)
            requires
                n < 0x4000_0000_0000_0000_0000_0000_0000_0000,
                hi == 0x8000_0000_0000_0000,
        ;
    }
    while lo + 1 < hi
        invariant
            lo < hi,
            hi <= 0x8000_0000_0000_0000,
            lo * lo <= n,
            n < hi * hi,
        decreases hi - lo,
    {
        let mid: u128 = lo + (hi - lo) / 2;
        proof {
            assert(mid * mid <= 0x4000_0000_0000_0000_0000_0000_0000_0000) by (nonlinear_arith)
                requires
                    mid <= 0x8000_0000_0000_0000,
            ;
        }
        if mid * mid <= n {
            lo = mid;
        } else {
            hi = mid;
        }
    }
    proof {
        lemma_isqrt_unique(n as int, lo as int);
    }
    lo
}

/// Magnitudes multiply: a product is bounded by the product of the bounds.
pub proof fn lemma_mul_le(a: int, b: int, bound_a: int, bound_b: int)
    by (nonlinear_arith)
    requires
        sabs(a) <= bound_a,
        sabs(b) <= bound_b,
    ensures
        sabs(a * b) <= bound_a * bound_b,
{
}

/// A truncating quotient fits under `m` whenever the dividend fits under
/// `m` times the divisor.
pub proof fn lemma_tdiv_fits(p: int, b: int, m: int)
    requires
        b >= 1,
        m >= 0,
        sabs(p) <= m * b,
    ensures
        sabs(spec_tdiv(p, b)) <= m,
{
    vstd::arithmetic::div_mod::lemma_div_is_ordered(sabs(p), m * b, b);
    vstd::arithmetic::div_mod::lemma_div_by_multiple(m, b);
    assert(sabs(p) / b <= (m * b) / b);
}

/// A truncating quotient of nonnegative operands is nonnegative.
pub proof fn lemma_tdiv_nonneg(a: int, b: int)
    requires
        a >= 0,
        b >= 1,
    ensures
        spec_tdiv(a, b) >= 0,
{
    vstd::arithmetic::div_mod::lemma_div_pos_is_pos(a, b);
}

/// A truncating quotient never exceeds its dividend in magnitude.
pub proof fn lemma_tdiv_mag_le(p: int, b: int)
    requires
        b >= 1,
    ensures
        sabs(spec_tdiv(p, b)) <= sabs(p),
{
    vstd::arithmetic::div_mod::lemma_div_nonincreasing(sabs(p), b);
}

/// Scaling and dividing by the same positive factor is the identity.
pub proof fn lemma_tdiv_exact(a: int, b: int)
    requires
        b >= 1,
    ensures
        spec_tdiv(a * b, b) == a,
{
    if a >= 0 {
        assert(a * b >= 0) by (nonlinear_arith)
            requires
                a >= 0,
                b >= 1,
        ;
        vstd::arithmetic::div_mod::lemma_div_by_multiple(a, b);
    } else {
        assert(a * b < 0 && sabs(a * b) == (-a) * b) by (nonlinear_arith)
            requires
                a < 0,
                b >= 1,
        ;
        vstd::arithmetic::div_mod::lemma_div_by_multiple(-a, b);
    }
}

/// Truncating division is monotone in the dividend for a positive divisor.
pub proof fn lemma_tdiv_le(a1: int, a2: int, b: int)
    requires
        b >= 1,
        a1 <= a2,
    ensures
        spec_tdiv(a1, b) <= spec_tdiv(a2, b),
{
    if a1 >= 0 {
        vstd::arithmetic::div_mod::lemma_div_is_ordered(a1, a2, b);
    } else if a2 < 0 {
        vstd::arithmetic::div_mod::lemma_div_is_ordered(-a2, -a1, b);
    } else {
        vstd::arithmetic::div_mod::lemma_div_pos_is_pos(-a1, b);
        vstd::arithmetic::div_mod::lemma_div_pos_is_pos(a2, b);
    }
}

/// The truncating quotient lands within one divisor of the exact ratio:
/// `spec_tdiv(a, b) * b` never overshoots `a`, and misses it by less
/// than `b`.
pub proof fn lemma_tdiv_error(a: int, b: int)
    requires
        b >= 1,
    ensures
        a >= 0 ==> spec_tdiv(a, b) * b <= a < spec_tdiv(a, b) * b + b,
        a < 0 ==> spec_tdiv(a, b) * b - b < a <= spec_tdiv(a, b) * b,
        sabs(a - spec_tdiv(a, b) * b) < b,
{
    if a >= 0 {
        vstd::arithmetic::div_mod::lemma_fundamental_div_mod(a, b);
        vstd::arithmetic::div_mod::lemma_mod_bound(a, b);
        assert(spec_tdiv(a, b) == a / b);
        assert(b * (a / b) == (a / b) * b) by (nonlinear_arith);
    } else {
        let n = -a;
        vstd::arithmetic::div_mod::lemma_fundamental_div_mod(n, b);
        vstd::arithmetic::div_mod::lemma_mod_bound(n, b);
        assert(spec_tdiv(a, b) == -(n / b));
        assert(n == b * (n / b) + n % b);
        assert((-(n / b)) * b == -(b * (n / b))) by (nonlinear_arith);
    }
}

/// Integer square root of a nonnegative `i64`.
pub fn isqrt_i64(n: i64) -> (r: i64)
    requires
        n >= 0,
    ensures
        0 <= r,
        r * r <= n,
        n < (r + 1) * (r + 1),
        r == spec_isqrt(n as int),
{
    let r = isqrt_u128(n as u128);
    proof {
        lemma_isqrt_bounds(n as int);
        assert(spec_isqrt(n as int) * spec_isqrt(n as int) <= n);
    }
    r as i64
}

} // verus!
