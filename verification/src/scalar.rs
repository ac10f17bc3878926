//! Fixed-point scalar arithmetic for the solver.
//!
//! A continuous quantity (a coordinate, a velocity, a density, the cell size)
//! is stored as an `i64` counting steps of `1 / SCALE` of a continuous unit,
//! so the raw value `SCALE` stands for `1.0`.  Addition and subtraction are
//! exact up to saturation at the `i64` range; multiplication and division
//! rescale and round toward zero, mirroring how the quotient of two of these
//! values would truncate.  Every operation is total and its result is pinned
//! exactly by a spec function, which is what lets the numerical routines of
//! the solver carry precise contracts.

use vstd::arithmetic::div_mod::{
    lemma_div_multiples_vanish, lemma_div_nonincreasing, lemma_div_pos_is_pos,
    lemma_fundamental_div_mod, lemma_remainder_lower, lemma_remainder_upper,
};
use vstd::prelude::*;

verus! {

/// Raw steps per continuous unit: the raw value `SCALE` stands for `1.0`.
pub const SCALE: i64 = 1_000_000;

/// Saturate an unbounded integer into the `i64` range.
pub open spec fn clip64(x: int) -> int {
    if x > i64::MAX as int {
        i64::MAX as int
    } else if x < i64::MIN as int {
        i64::MIN as int
    } else {
        x
    }
}

/// Saturate an unbounded integer into the `i32` range.
pub open spec fn sat32(x: int) -> int {
    if x > i32::MAX as int {
        i32::MAX as int
    } else if x < i32::MIN as int {
        i32::MIN as int
    } else {
        x
    }
}

/// Integer division rounding toward zero (`/` on `int` rounds toward
/// negative infinity when the dividend is negative; coordinate mapping
/// truncates toward zero instead).
pub open spec fn div_tz(a: int, b: int) -> int {
    if a >= 0 {
        a / b
    } else {
        -((-a) / b)
    }
}

/// What fixed-point addition returns.
pub open spec fn fx_add_spec(a: int, b: int) -> int {
    clip64(a + b)
}

/// What fixed-point subtraction returns.
pub open spec fn fx_sub_spec(a: int, b: int) -> int {
    clip64(a - b)
}

/// What fixed-point multiplication returns: rescale by `SCALE`, toward zero.
pub open spec fn fx_mul_spec(a: int, b: int) -> int {
    clip64(div_tz(a * b, SCALE as int))
}

/// What fixed-point division returns: rescale by `SCALE`, toward zero.
pub open spec fn fx_div_spec(a: int, b: int) -> int {
    clip64(div_tz(a * (SCALE as int), b))
}

pub(crate) fn clip_i128(x: i128) -> (r: i64)
    ensures
        r as int == clip64(x as int),
{
    if x > i64::MAX as i128 {
        i64::MAX
    } else if x < i64::MIN as i128 {
        i64::MIN
    } else {
        x as i64
    }
}

pub(crate) fn div_tz_i128(a: i128, b: i128) -> (q: i128)
    requires
        b > 0,
        a > i128::MIN,
    ensures
        q as int == div_tz(a as int, b as int),
        a >= 0 ==> 0 <= q <= a,
        a < 0 ==> a <= q <= 0,
{
    if a >= 0 {
        let m: u128 = (a as u128) / (b as u128);
        proof {
            lemma_div_nonincreasing(a as int, b as int);
            lemma_div_pos_is_pos(a as int, b as int);
        }
        m as i128
    } else {
        let neg: i128 = -a;
        let m: u128 = (neg as u128) / (b as u128);
        proof {
            lemma_div_nonincreasing(neg as int, b as int);
            lemma_div_pos_is_pos(neg as int, b as int);
        }
        -(m as i128)
    }
}

/// Fixed-point addition, saturating at the `i64` range.
pub fn fx_add(a: i64, b: i64) -> (r: i64)
    ensures
        r as int == fx_add_spec(a as int, b as int),
{
    clip_i128(a as i128 + b as i128)
}

/// Fixed-point subtraction, saturating at the `i64` range.
pub fn fx_sub(a: i64, b: i64) -> (r: i64)
    ensures
        r as int == fx_sub_spec(a as int, b as int),
{
    clip_i128(a as i128 - b as i128)
}

/// Fixed-point multiplication: `(a * b) / SCALE`, rounded toward zero and
/// saturated at the `i64` range.
pub fn fx_mul(a: i64, b: i64) -> (r: i64)
    ensures
        r as int == fx_mul_spec(a as int, b as int),
{
    proof {
        assert((a as int) * (b as int) <= i128::MAX && (a as int) * (b as int) > i128::MIN)
            by (nonlinear_arith)
            requires
                i64::MIN <= a <= i64::MAX,
                i64::MIN <= b <= i64::MAX,
        ;
    }
    let p: i128 = (a as i128) * (b as i128);
    let q: i128 = div_tz_i128(p, SCALE as i128);
    clip_i128(q)
}

/// Fixed-point division: `(a * SCALE) / b`, rounded toward zero and
/// saturated at the `i64` range.  The divisor must be positive.
pub fn fx_div(a: i64, b: i64) -> (r: i64)
    requires
        b > 0,
    ensures
        r as int == fx_div_spec(a as int, b as int),
{
    proof {
        assert((a as int) * (SCALE as int) <= i128::MAX && (a as int) * (SCALE as int)
            > i128::MIN) by (nonlinear_arith)
            requires
                i64::MIN <= a <= i64::MAX,
        ;
    }
    let p: i128 = (a as i128) * (SCALE as i128);
    let q: i128 = div_tz_i128(p, b as i128);
    clip_i128(q)
}

/// Division of a fixed-point value by a plain positive integer count,
/// rounded toward zero.  The result never saturates.
pub fn fx_div_count(a: i64, n: i64) -> (r: i64)
    requires
        n > 0,
    ensures
        r as int == div_tz(a as int, n as int),
{
    let q: i128 = div_tz_i128(a as i128, n as i128);
    q as i64
}

/// Division toward zero by a positive divisor leaves zero at zero.
pub proof fn lemma_div_tz_of_zero(b: int)
    requires
        b > 0,
    ensures
        div_tz(0, b) == 0,
{
    lemma_div_nonincreasing(0, b);
    lemma_div_pos_is_pos(0, b);
}

/// Division toward zero recovers the factor of an exact multiple.
pub proof fn lemma_div_tz_of_multiple(n: int, b: int)
    requires
        b > 0,
    ensures
        div_tz(n * b, b) == n,
{
    if n >= 0 {
        lemma_div_multiples_vanish(n, b);
        assert(n * b == b * n) by (nonlinear_arith);
    } else {
        assert(-(n * b) == (-n) * b) by (nonlinear_arith);
        lemma_div_multiples_vanish(-n, b);
        assert((-n) * b == b * (-n)) by (nonlinear_arith);
    }
}

/// The characterizing bounds of division toward zero of a nonnegative
/// dividend: the quotient times the divisor reaches to at most the dividend,
/// and falls short of it by less than the divisor.
pub proof fn lemma_div_tz_bounds(a: int, b: int)
    requires
        b > 0,
        a >= 0,
    ensures
        div_tz(a, b) >= 0,
        b * div_tz(a, b) <= a,
        a < b * (div_tz(a, b) + 1),
{
    lemma_div_pos_is_pos(a, b);
    lemma_fundamental_div_mod(a, b);
    lemma_remainder_upper(a, b);
    lemma_remainder_lower(a, b);
    assert(b * (a / b + 1) == b * (a / b) + b) by (nonlinear_arith);
}

/// Multiplying by the raw unit `SCALE` and rescaling gives the value back.
pub proof fn lemma_fx_mul_scale(a: int)
    requires
        i64::MIN <= a <= i64::MAX,
    ensures
        fx_mul_spec(SCALE as int, a) == a,
        fx_mul_spec(a, SCALE as int) == a,
{
    lemma_div_tz_of_multiple(a, SCALE as int);
    assert(a * (SCALE as int) == (SCALE as int) * a) by (nonlinear_arith);
}

/// Multiplying by zero gives zero.
pub proof fn lemma_fx_mul_zero(a: int)
    ensures
        fx_mul_spec(a, 0) == 0,
        fx_mul_spec(0, a) == 0,
{
    assert(a * 0 == 0) by (nonlinear_arith);
    lemma_div_tz_of_zero(SCALE as int);
}

/// Dividing zero gives zero.
pub proof fn lemma_fx_div_zero(b: int)
    requires
        b > 0,
    ensures
        fx_div_spec(0, b) == 0,
{
    lemma_div_tz_of_zero(b);
}

} // verus!
