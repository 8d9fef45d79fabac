//! Fixed-point numbers with six decimal places.
//!
//! Every fractional quantity of the colour model (a channel, a saturation, a
//! hue in degrees) is an integer count of millionths. Quotients are rounded to
//! the nearest millionth, so each operation is off by at most half a step.

use vstd::prelude::*;

verus! {

/// The fixed-point representation of 1.
pub const UNIT: u32 = 1_000_000;

/// The largest numerator and denominator that `round_div` accepts.
pub const ROUND_DIV_LIMIT: u128 = 1_000_000_000_000_000_000_000_000_000_000;

/// `n / d`, rounded to the nearest integer, halves upwards.
pub open spec fn div_round(n: int, d: int) -> int {
    (2 * n + d) / (2 * d)
}

/// `x` limited to the range from `lo` to `hi`.
pub open spec fn clamp(x: int, lo: int, hi: int) -> int {
    if x < lo {
        lo
    } else if x > hi {
        hi
    } else {
        x
    }
}

/// The smaller of two integers.
pub open spec fn min2(a: int, b: int) -> int {
    if a <= b {
        a
    } else {
        b
    }
}

/// The larger of two integers.
pub open spec fn max2(a: int, b: int) -> int {
    if a >= b {
        a
    } else {
        b
    }
}

/// The rounded quotient is the one integer within half a step of `n / d`.
pub proof fn lemma_div_round_bounds(n: int, d: int)
    requires
        d > 0,
    ensures
        2 * d * div_round(n, d) <= 2 * n + d,
        2 * n + d < 2 * d * div_round(n, d) + 2 * d,
{
    let q = div_round(n, d);
    vstd::arithmetic::div_mod::lemma_fundamental_div_mod(2 * n + d, 2 * d);
    vstd::arithmetic::div_mod::lemma_mod_bound(2 * n + d, 2 * d);
    assert((2 * d) * q == 2 * d * q) by (nonlinear_arith);
}

/// Any integer within half a step of `n / d`, the upper half excluded, is the
/// rounded quotient.
pub proof fn lemma_div_round_unique(n: int, d: int, q: int)
    requires
        d > 0,
        2 * d * q <= 2 * n + d,
        2 * n + d < 2 * d * q + 2 * d,
    ensures
        div_round(n, d) == q,
{
    let r = 2 * n + d - 2 * d * q;
    assert(2 * n + d == q * (2 * d) + r) by (nonlinear_arith)
        requires
            r == 2 * n + d - 2 * d * q,
    ;
    vstd::arithmetic::div_mod::lemma_fundamental_div_mod_converse_div(2 * n + d, 2 * d, q, r);
}

/// An exact quotient is its own rounding.
pub proof fn lemma_div_round_exact(q: int, d: int)
    requires
        d > 0,
    ensures
        div_round(q * d, d) == q,
{
    assert(2 * d * q == 2 * (q * d)) by (nonlinear_arith);
    lemma_div_round_unique(q * d, d, q);
}

/// Rounding keeps the order of the numerators.
pub proof fn lemma_div_round_monotonic(n: int, m: int, d: int)
    requires
        d > 0,
        n <= m,
    ensures
        div_round(n, d) <= div_round(m, d),
{
    vstd::arithmetic::div_mod::lemma_div_is_ordered(2 * n + d, 2 * m + d, 2 * d);
}

/// A quotient that lies between 0 and `k` is rounded to a value in the same range.
pub proof fn lemma_div_round_range(n: int, d: int, k: int)
    requires
        d > 0,
        0 <= n <= k * d,
    ensures
        0 <= div_round(n, d) <= k,
{
    lemma_div_round_exact(0, d);
    lemma_div_round_exact(k, d);
    assert(0 * d == 0);
    lemma_div_round_monotonic(0, n, d);
    lemma_div_round_monotonic(n, k * d, d);
}

/// Adding whole multiples of the denominator shifts the rounded quotient by
/// as many steps.
pub proof fn lemma_div_round_shift(n: int, k: int, d: int)
    requires
        d > 0,
    ensures
        div_round(n + k * d, d) == div_round(n, d) + k,
{
    let q = div_round(n, d);
    lemma_div_round_bounds(n, d);
    assert(2 * d * (q + k) == 2 * d * q + 2 * (k * d)) by (nonlinear_arith);
    lemma_div_round_unique(n + k * d, d, q + k);
}

/// Limits `x` to the range from 0 to `UNIT`.
pub fn clamp_unit(x: u32) -> (res: u32)
    ensures
        res == clamp(x as int, 0, UNIT as int),
{
    if x <= UNIT {
        x
    } else {
        UNIT
    }
}

/// Divides and rounds to the nearest integer, halves upwards.
pub fn round_div(n: u128, d: u128) -> (q: u128)
    requires
        0 < d <= ROUND_DIV_LIMIT,
        n <= ROUND_DIV_LIMIT,
    ensures
        q == div_round(n as int, d as int),
{
    (2 * n + d) / (2 * d)
}

} // verus!
