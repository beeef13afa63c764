//! Integer helpers: division rounded toward zero and the floor square root.

use vstd::prelude::*;

verus! {

/// Exclusive upper bound on the argument of [`floor_sqrt`]: 2^122.
pub const SQRT_ARG_LIMIT: u128 = 0x0400_0000_0000_0000_0000_0000_0000_0000;

/// The quotient `n / d` rounded toward zero.
pub open spec fn trunc_div(n: int, d: int) -> int {
    if n >= 0 {
        n / d
    } else {
        -((-n) / d)
    }
}

/// `r` is the largest integer whose square does not exceed `n`.
pub open spec fn is_floor_sqrt(r: int, n: int) -> bool {
    0 <= r && r * r <= n < (r + 1) * (r + 1)
}

/// The floor of the square root of `n`.
pub open spec fn floor_sqrt_of(n: int) -> int {
    choose|r: int| is_floor_sqrt(r, n)
}

/// Rounding toward zero loses less than one divisor and keeps the sign.
pub proof fn lemma_trunc_div_bounds(n: int, d: int)
    requires
        d > 0,
    ensures
        n >= 0 ==> 0 <= trunc_div(n, d) && n - d < trunc_div(n, d) * d <= n,
        n <= 0 ==> trunc_div(n, d) <= 0 && n <= trunc_div(n, d) * d < n + d,
        trunc_div(-n, d) == -trunc_div(n, d),
{
    if n >= 0 {
        assert(0 <= n / d && n - d < (n / d) * d <= n) by (nonlinear_arith)
            requires
                n >= 0,
                d > 0,
        ;
    }
    if n <= 0 {
        let m = -n;
        assert(0 <= m / d && m - d < (m / d) * d <= m) by (nonlinear_arith)
            requires
                m >= 0,
                d > 0,
        ;
        assert((-(m / d)) * d == -((m / d) * d)) by (nonlinear_arith);
    }
    if n == 0 {
        assert(0int / d == 0) by (nonlinear_arith)
            requires
                d > 0,
        ;
    }
}

/// A quotient rounded toward zero, multiplied back, misses the numerator by
/// less than the divisor.
pub proof fn lemma_trunc_div_error(n: int, d: int)
    requires
        d > 0,
    ensures
        -d < trunc_div(n, d) * d - n < d,
{
    lemma_trunc_div_bounds(n, d);
}

/// A quotient rounded toward zero is no larger in magnitude than `bound` when
/// the numerator is at most `bound * d` in magnitude.
pub proof fn lemma_trunc_div_magnitude(n: int, d: int, bound: int)
    requires
        d > 0,
        bound >= 0,
        -(bound * d) <= n <= bound * d,
    ensures
        -bound <= trunc_div(n, d) <= bound,
{
    lemma_trunc_div_bounds(n, d);
    let q = trunc_div(n, d);
    if n >= 0 {
        assert(q <= bound) by (nonlinear_arith)
            requires
                q * d <= n,
                n <= bound * d,
                d > 0,
        ;
    } else {
        assert(q >= -bound) by (nonlinear_arith)
            requires
                q * d >= n,
                n >= -(bound * d),
                d > 0,
        ;
    }
}

/// The floor square root is unique.
pub proof fn lemma_floor_sqrt_unique(r: int, n: int)
    requires
        is_floor_sqrt(r, n),
    ensures
        floor_sqrt_of(n) == r,
{
    let s = floor_sqrt_of(n);
    assert(is_floor_sqrt(s, n));
    assert(s == r) by (nonlinear_arith)
        requires
            0 <= r,
            r * r <= n < (r + 1) * (r + 1),
            0 <= s,
            s * s <= n < (s + 1) * (s + 1),
    ;
}

/// Divides rounding toward zero.
pub fn div_toward_zero(n: i128, d: i128) -> (q: i128)
    requires
        d > 0,
        n > i128::MIN,
    ensures
        q == trunc_div(n as int, d as int),
{
    if n >= 0 {
        n / d
    } else {
        let m: i128 = -n;
        let p: i128 = m / d;
        proof {
            lemma_trunc_div_bounds(m as int, d as int);
        }
        -p
    }
}

/// Computes the floor of the square root by bisection.
pub fn floor_sqrt(n: u128) -> (r: u64)
    requires
        n < SQRT_ARG_LIMIT,
    ensures
        is_floor_sqrt(r as int, n as int),
        r as int == floor_sqrt_of(n as int),
        r < 0x2000_0000_0000_0000,
{
    let mut lo: u128 = 0;
    let mut hi: u128 = 0x2000_0000_0000_0000;
    assert(0x2000_0000_0000_0000u128 * 0x2000_0000_0000_0000u128
        == 0x0400_0000_0000_0000_0000_0000_0000_0000u128) by (nonlinear_arith);
    while hi - lo > 1
        invariant
            lo < hi <= 0x2000_0000_0000_0000,
            lo * lo <= n < hi * hi,
        decreases hi - lo,
    {
        let mid: u128 = lo + (hi - lo) / 2;
        assert(mid * mid < 0x0400_0000_0000_0000_0000_0000_0000_0000) by (nonlinear_arith)
            requires
                mid < 0x2000_0000_0000_0000,
        ;
        if mid * mid <= n {
            lo = mid;
        } else {
            hi = mid;
        }
    }
    proof {
        assert(hi == lo + 1);
        lemma_floor_sqrt_unique(lo as int, n as int);
    }
    lo as u64
}

} // verus!
