//! Fixed-point scalars.
//!
//! Every scalar quantity in the library — scene coordinates, frames, degrees,
//! scale percents, seconds, spring values — is an `i64` count of micro-units
//! (millionths). Arithmetic saturates at `FX_LIMIT`, far beyond anything an
//! icon animation produces, so every operation is total and its result is
//! stated exactly.

use vstd::prelude::*;
use vstd::arithmetic::div_mod::{lemma_div_nonincreasing, lemma_div_pos_is_pos};

verus! {

/// One unit, i.e. 1.0, in micro-units.
pub const FX_ONE: i64 = 1_000_000;

/// Saturation bound of all fixed-point arithmetic.
pub const FX_LIMIT: i64 = 1_000_000_000_000_000_000;

/// `x` pulled back into `[-FX_LIMIT, FX_LIMIT]`.
pub open spec fn clamped(x: int) -> int {
    if x > FX_LIMIT as int {
        FX_LIMIT as int
    } else if x < -(FX_LIMIT as int) {
        -(FX_LIMIT as int)
    } else {
        x
    }
}

/// Division truncating toward zero — the semantics of `/` on Rust's signed
/// integers — for a positive divisor.
pub open spec fn tdiv(a: int, b: int) -> int
    recommends
        b > 0,
{
    if a >= 0 {
        a / b
    } else {
        -((-a) / b)
    }
}

pub open spec fn spec_add(a: int, b: int) -> int {
    clamped(a + b)
}

pub open spec fn spec_sub(a: int, b: int) -> int {
    clamped(a - b)
}

/// Fixed-point product: `a * b` rescaled by one factor of `FX_ONE`.
pub open spec fn spec_mul(a: int, b: int) -> int {
    clamped(tdiv(a * b, FX_ONE as int))
}

/// Fixed-point quotient: `a / b` carried to micro-units; zero divisor gives zero.
pub open spec fn spec_div(a: int, b: int) -> int {
    if b == 0 {
        0
    } else if b > 0 {
        clamped(tdiv(a * (FX_ONE as int), b))
    } else {
        clamped(tdiv(a * -(FX_ONE as int), -b))
    }
}

/// `a * b / d` without intermediate rescaling, for a positive divisor.
pub open spec fn spec_mul_div(a: int, b: int, d: int) -> int
    recommends
        d > 0,
{
    clamped(tdiv(a * b, d))
}

pub proof fn lemma_tdiv_bounds(a: int, b: int)
    requires
        b >= 1,
    ensures
        a >= 0 ==> 0 <= tdiv(a, b) <= a,
        a < 0 ==> a <= tdiv(a, b) <= 0,
{
    if a >= 0 {
        lemma_div_nonincreasing(a, b);
        lemma_div_pos_is_pos(a, b);
    } else {
        lemma_div_nonincreasing(-a, b);
        lemma_div_pos_is_pos(-a, b);
    }
}

/// Widening product of two `i64`s, which always fits an `i128`.
fn mul_i64_wide(a: i64, b: i64) -> (r: i128)
    ensures
        r as int == a as int * b as int,
{
    proof {
        assert((a as int) * (b as int) <= 0x4000_0000_0000_0000_0000_0000_0000_0000int
            && (a as int) * (b as int) >= -0x4000_0000_0000_0000_0000_0000_0000_0000int)
            by (nonlinear_arith)
            requires
                -0x8000_0000_0000_0000int <= a as int <= 0x7FFF_FFFF_FFFF_FFFFint,
                -0x8000_0000_0000_0000int <= b as int <= 0x7FFF_FFFF_FFFF_FFFFint,
        ;
    }
    (a as i128) * (b as i128)
}

/// Truncating division of wide intermediates, exposed over `tdiv`.
fn div_wide(a: i128, b: i128) -> (r: i128)
    requires
        b > 0,
    ensures
        r as int == tdiv(a as int, b as int),
{
    proof {
        lemma_tdiv_bounds(a as int, b as int);
    }
    match a.checked_div(b) {
        Some(q) => q,
        None => {
            proof {
                assert(false);
            }
            0
        },
    }
}

/// Saturation of a wide intermediate back to an `i64`.
fn clamp_wide(x: i128) -> (r: i64)
    ensures
        r as int == clamped(x as int),
{
    if x > FX_LIMIT as i128 {
        FX_LIMIT
    } else if x < -FX_LIMIT as i128 {
        -FX_LIMIT
    } else {
        x as i64
    }
}

pub fn fx_add(a: i64, b: i64) -> (r: i64)
    ensures
        r as int == spec_add(a as int, b as int),
{
    clamp_wide(a as i128 + b as i128)
}

pub fn fx_sub(a: i64, b: i64) -> (r: i64)
    ensures
        r as int == spec_sub(a as int, b as int),
{
    clamp_wide(a as i128 - b as i128)
}

pub fn fx_neg(a: i64) -> (r: i64)
    ensures
        r as int == clamped(-(a as int)),
{
    clamp_wide(-(a as i128))
}

pub fn fx_mul(a: i64, b: i64) -> (r: i64)
    ensures
        r as int == spec_mul(a as int, b as int),
{
    clamp_wide(div_wide(mul_i64_wide(a, b), FX_ONE as i128))
}

pub fn fx_div(a: i64, b: i64) -> (r: i64)
    ensures
        r as int == spec_div(a as int, b as int),
{
    if b == 0 {
        0
    } else if b > 0 {
        clamp_wide(div_wide(mul_i64_wide(a, FX_ONE), b as i128))
    } else {
        clamp_wide(div_wide(mul_i64_wide(a, -FX_ONE), -(b as i128)))
    }
}

pub fn fx_mul_div(a: i64, b: i64, d: i64) -> (r: i64)
    requires
        d > 0,
    ensures
        r as int == spec_mul_div(a as int, b as int, d as int),
{
    clamp_wide(div_wide(mul_i64_wide(a, b), d as i128))
}

/// Remainder of a nonnegative value by a positive modulus.
pub fn fx_rem(a: i64, m: i64) -> (r: i64)
    requires
        a >= 0,
        m > 0,
    ensures
        r as int == (a as int) % (m as int),
{
    proof {
        lemma_tdiv_bounds(a as int, m as int);
        vstd::arithmetic::div_mod::lemma_fundamental_div_mod(a as int, m as int);
        vstd::arithmetic::div_mod::lemma_mod_division_less_than_divisor(a as int, m as int);
        assert(0 <= (a as int) / (m as int) * (m as int) <= a as int) by (nonlinear_arith)
            requires
                a as int >= 0,
                m as int > 0,
                0 <= (a as int) / (m as int) <= a as int,
                (a as int) % (m as int) >= 0,
                a as int == (a as int) / (m as int) * (m as int) + (a as int) % (m as int),
        ;
    }
    let q: i128 = div_wide(a as i128, m as i128);
    let p: i128 = q * (m as i128);
    (a as i128 - p) as i64
}

/// Absolute value, saturated (so `-FX_LIMIT` maps to `FX_LIMIT`).
pub fn fx_abs(a: i64) -> (r: i64)
    ensures
        r as int == clamped(if a as int >= 0 { a as int } else { -(a as int) }),
{
    if a >= 0 {
        clamp_wide(a as i128)
    } else {
        clamp_wide(-(a as i128))
    }
}

} // verus!
