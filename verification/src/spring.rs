//! Spring-based animation: a closed-form damped harmonic oscillator advanced
//! at discrete times, in fixed-point arithmetic.
//!
//! The oscillator solution needs `exp`, `cos` and `sin`; they are computed
//! here in nano-unit (1e-9) precision by range reduction and truncated Taylor
//! series, and every function's contract states its rounding exactly.

use vstd::prelude::*;
use crate::error::SpringBuildError;
use crate::fixed::{
    FX_ONE, clamped, tdiv, spec_add, spec_sub, spec_mul, spec_div, spec_mul_div, fx_add, fx_sub,
    fx_neg, fx_mul, fx_div, fx_mul_div, fx_abs, fx_rem,
};

verus! {

/// One unit in the nano scale used inside the transcendental helpers.
pub const NANO_ONE: i64 = 1_000_000_000;

/// ln 2 in nano-units.
pub const LN2_NANO: i64 = 693_147_181;

/// Pi in nano-units.
pub const PI_NANO: i64 = 3_141_592_654;

/// 2*Pi in nano-units.
pub const TWO_PI_NANO: i64 = 6_283_185_307;

/// Arguments beyond this make `exp(-x)` vanish at nano precision.
pub const EXP_NEG_CUTOFF: i64 = 21_000_000_000;

// --- exp(-x) ---

/// Taylor term `(-r)^k / k!` in nano-units, by the running-product recurrence.
pub open spec fn exp_term(r: int, k: nat) -> int
    decreases k,
{
    if k == 0 {
        NANO_ONE as int
    } else {
        spec_mul_div(exp_term(r, (k - 1) as nat), r, (NANO_ONE as int) * k)
    }
}

/// Partial alternating Taylor sum of `exp(-r)` through term `k`.
pub open spec fn exp_sum(r: int, k: nat) -> int
    decreases k,
{
    if k == 0 {
        NANO_ONE as int
    } else if k % 2 == 0 {
        spec_add(exp_sum(r, (k - 1) as nat), exp_term(r, k))
    } else {
        spec_sub(exp_sum(r, (k - 1) as nat), exp_term(r, k))
    }
}

/// `a` halved `n` times with truncation.
pub open spec fn halved(a: int, n: nat) -> int
    decreases n,
{
    if n == 0 {
        a
    } else {
        halved(spec_mul_div(a, 1, 2), (n - 1) as nat)
    }
}

/// `exp(-x)` for a nano-unit argument (negative arguments are treated as 0):
/// range-reduce by ln 2, take 14 Taylor terms, halve back.
pub open spec fn spec_exp_neg(x: int) -> int {
    let x = if x < 0 {
        0
    } else {
        x
    };
    if x > EXP_NEG_CUTOFF as int {
        0
    } else {
        let n = tdiv(x, LN2_NANO as int);
        let r = x - n * (LN2_NANO as int);
        halved(exp_sum(r, 14), n as nat)
    }
}

/// `exp(-x)` in nano-units.
pub fn exp_neg(x: i64) -> (e: i64)
    ensures
        e as int == spec_exp_neg(x as int),
{
    let x: i64 = if x < 0 {
        0
    } else {
        x
    };
    if x > EXP_NEG_CUTOFF {
        return 0;
    }
    let n = fx_mul_div(x, 1, LN2_NANO);
    proof {
        crate::fixed::lemma_tdiv_bounds(x as int, LN2_NANO as int);
        vstd::arithmetic::div_mod::lemma_fundamental_div_mod(x as int, LN2_NANO as int);
        vstd::arithmetic::div_mod::lemma_mod_division_less_than_divisor(x as int, LN2_NANO as int);
        vstd::arithmetic::div_mod::lemma_div_is_ordered(
            x as int,
            EXP_NEG_CUTOFF as int,
            LN2_NANO as int,
        );
        assert((x as int) / (LN2_NANO as int) * (LN2_NANO as int) == x as int - (x as int) % (
        LN2_NANO as int));
    }
    let r = x - n * LN2_NANO;
    let mut term: i64 = NANO_ONE;
    let mut acc: i64 = NANO_ONE;
    let mut k: usize = 1;
    while k <= 14
        invariant
            1 <= k <= 15,
            0 <= x <= EXP_NEG_CUTOFF,
            n as int == tdiv(x as int, LN2_NANO as int),
            r as int == x as int - n as int * LN2_NANO as int,
            term as int == exp_term(r as int, (k - 1) as nat),
            acc as int == exp_sum(r as int, (k - 1) as nat),
        decreases 15 - k,
    {
        term = fx_mul_div(term, r, NANO_ONE * k as i64);
        if k % 2 == 0 {
            acc = fx_add(acc, term);
        } else {
            acc = fx_sub(acc, term);
        }
        k = k + 1;
    }
    // Divide by 2^n.
    let mut j: i64 = 0;
    while j < n
        invariant
            0 <= j <= n,
            n <= 31,
            acc as int == halved(exp_sum(r as int, 14), j as nat),
        decreases n - j,
    {
        proof {
            lemma_halved_snoc(exp_sum(r as int, 14), j as nat);
        }
        acc = fx_mul_div(acc, 1, 2);
        j = j + 1;
    }
    acc
}

/// One more halving applies the truncating division to the accumulated value.
proof fn lemma_halved_snoc(a: int, n: nat)
    ensures
        halved(a, n + 1) == spec_mul_div(halved(a, n), 1, 2),
    decreases n,
{
    assert(halved(a, n + 1) == halved(spec_mul_div(a, 1, 2), n));
    if n == 0 {
        assert(halved(a, 1) == spec_mul_div(a, 1, 2));
    } else {
        lemma_halved_snoc(spec_mul_div(a, 1, 2), (n - 1) as nat);
        assert(halved(a, n) == halved(spec_mul_div(a, 1, 2), (n - 1) as nat));
    }
}

// --- cos and sin ---

/// Angle folded into `(-pi, pi]`, for a nonnegative nano-unit angle.
pub open spec fn spec_angle_reduce(x: int) -> int {
    let m = x % (TWO_PI_NANO as int);
    if m > PI_NANO as int {
        m - TWO_PI_NANO as int
    } else {
        m
    }
}

/// Taylor term of cos: `m^(2k) / (2k)!` in nano-units, signless.
pub open spec fn cos_term(r2: int, k: nat) -> int
    decreases k,
{
    if k == 0 {
        NANO_ONE as int
    } else {
        spec_mul_div(cos_term(r2, (k - 1) as nat), r2, (NANO_ONE as int) * ((2 * k - 1) * (2 * k)))
    }
}

pub open spec fn cos_sum(r2: int, k: nat) -> int
    decreases k,
{
    if k == 0 {
        NANO_ONE as int
    } else if k % 2 == 0 {
        spec_add(cos_sum(r2, (k - 1) as nat), cos_term(r2, k))
    } else {
        spec_sub(cos_sum(r2, (k - 1) as nat), cos_term(r2, k))
    }
}

/// Taylor term of sin, carrying the sign of the reduced angle `m`.
pub open spec fn sin_term(m: int, r2: int, k: nat) -> int
    decreases k,
{
    if k == 0 {
        m
    } else {
        spec_mul_div(sin_term(m, r2, (k - 1) as nat), r2, (NANO_ONE as int) * ((2 * k) * (2 * k + 1)))
    }
}

pub open spec fn sin_sum(m: int, r2: int, k: nat) -> int
    decreases k,
{
    if k == 0 {
        m
    } else if k % 2 == 0 {
        spec_add(sin_sum(m, r2, (k - 1) as nat), sin_term(m, r2, k))
    } else {
        spec_sub(sin_sum(m, r2, (k - 1) as nat), sin_term(m, r2, k))
    }
}

/// `cos(x)` for a nonnegative nano-unit angle (negative treated as 0): 8
/// Taylor terms on the angle folded into `(-pi, pi]`.
pub open spec fn spec_cos(x: int) -> int {
    let x = if x < 0 {
        0
    } else {
        x
    };
    let m = spec_angle_reduce(x);
    let r2 = spec_mul_div(m, m, NANO_ONE as int);
    cos_sum(r2, 8)
}

pub open spec fn spec_sin(x: int) -> int {
    let x = if x < 0 {
        0
    } else {
        x
    };
    let m = spec_angle_reduce(x);
    let r2 = spec_mul_div(m, m, NANO_ONE as int);
    sin_sum(m, r2, 8)
}

fn angle_reduce(x: i64) -> (m: i64)
    requires
        x >= 0,
    ensures
        m as int == spec_angle_reduce(x as int),
        -(PI_NANO as int) <= m as int <= PI_NANO as int,
{
    let m = fx_rem(x, TWO_PI_NANO);
    if m > PI_NANO {
        m - TWO_PI_NANO
    } else {
        m
    }
}

/// `cos(x)` in nano-units.
pub fn cos_nano(x: i64) -> (c: i64)
    ensures
        c as int == spec_cos(x as int),
{
    let x: i64 = if x < 0 {
        0
    } else {
        x
    };
    let m = angle_reduce(x);
    let r2 = fx_mul_div(m, m, NANO_ONE);
    let mut term: i64 = NANO_ONE;
    let mut acc: i64 = NANO_ONE;
    let mut k: usize = 1;
    while k <= 8
        invariant
            1 <= k <= 9,
            term as int == cos_term(r2 as int, (k - 1) as nat),
            acc as int == cos_sum(r2 as int, (k - 1) as nat),
        decreases 9 - k,
    {
        proof {
            assert(2 <= (2 * k as int - 1) * (2 * k as int) <= 240) by (nonlinear_arith)
                requires
                    1 <= k as int <= 8,
            ;
        }
        let fac = (2 * k as i64 - 1) * (2 * k as i64);
        term = fx_mul_div(term, r2, NANO_ONE * fac);
        if k % 2 == 0 {
            acc = fx_add(acc, term);
        } else {
            acc = fx_sub(acc, term);
        }
        k = k + 1;
    }
    acc
}

/// `sin(x)` in nano-units.
pub fn sin_nano(x: i64) -> (s: i64)
    ensures
        s as int == spec_sin(x as int),
{
    let x: i64 = if x < 0 {
        0
    } else {
        x
    };
    let m = angle_reduce(x);
    let r2 = fx_mul_div(m, m, NANO_ONE);
    let mut term: i64 = m;
    let mut acc: i64 = m;
    let mut k: usize = 1;
    while k <= 8
        invariant
            1 <= k <= 9,
            term as int == sin_term(m as int, r2 as int, (k - 1) as nat),
            acc as int == sin_sum(m as int, r2 as int, (k - 1) as nat),
        decreases 9 - k,
    {
        proof {
            assert(2 <= (2 * k as int) * (2 * k as int + 1) <= 272) by (nonlinear_arith)
                requires
                    1 <= k as int <= 8,
            ;
        }
        let fac = (2 * k as i64) * (2 * k as i64 + 1);
        term = fx_mul_div(term, r2, NANO_ONE * fac);
        if k % 2 == 0 {
            acc = fx_add(acc, term);
        } else {
            acc = fx_sub(acc, term);
        }
        k = k + 1;
    }
    acc
}

// --- square root ---

/// `r` is the floor square root of `sq`.
pub open spec fn is_sqrt_of(r: int, sq: int) -> bool {
    0 <= r && r * r <= sq && sq < (r + 1) * (r + 1)
}

/// Floor square root of a fixed-point value: `sqrt(x / 1e6) * 1e6`, i.e. the
/// floor square root of `x * 1e6`.
pub fn sqrt_micro(x: i64) -> (r: i64)
    requires
        x >= 0,
    ensures
        is_sqrt_of(r as int, x as int * FX_ONE as int),
        0 <= r <= 4_000_000_000_000i64,
{
    proof {
        assert((x as int) * (FX_ONE as int) < 4_000_000_000_001int * 4_000_000_000_001int)
            by (nonlinear_arith)
            requires
                0 <= x as int <= 0x7FFF_FFFF_FFFF_FFFFint,
                FX_ONE as int == 1_000_000int,
        ;
    }
    let n: u128 = (x as u128) * (FX_ONE as u128);
    let mut lo: u128 = 0;
    let mut hi: u128 = 4_000_000_000_001;
    while lo + 1 < hi
        invariant
            lo < hi <= 4_000_000_000_001,
            n == (x as int) * (FX_ONE as int),
            (lo * lo) as int <= n as int,
            (n as int) < (hi * hi) as int,
        decreases hi - lo,
    {
        let mid = lo + (hi - lo) / 2;
        proof {
            assert(mid * mid < 0x1_0000_0000_0000_0000_0000_0000_0000_0000int) by (nonlinear_arith)
                requires
                    0 <= mid as int <= 4_000_000_000_001int,
            ;
        }
        if mid * mid <= n {
            lo = mid;
        } else {
            hi = mid;
        }
    }
    proof {
        assert(lo * lo <= n < (lo + 1) * (lo + 1));
    }
    lo as i64
}

// --- the spring itself ---

/// A damped harmonic oscillator, split at construction into its regime.
/// All fields are micro-unit fixed-point values.
#[derive(Debug, Copy, Clone, PartialEq, Eq, Structural)]
pub enum Spring {
    Overdamped { gamma_plus: i64, gamma_minus: i64 },
    CriticallyDamped { natural_freq: i64 },
    Underdamped { damping: i64, natural_freq: i64, damped_freq: i64 },
}

/// Signs the update formulas rely on: decay rates are nonpositive,
/// frequencies nonnegative.
pub open spec fn spring_wf(s: Spring) -> bool {
    match s {
        Spring::Overdamped { gamma_plus, gamma_minus } => gamma_minus <= gamma_plus <= 0,
        Spring::CriticallyDamped { natural_freq } => natural_freq >= 0,
        Spring::Underdamped { damping, natural_freq, damped_freq } => damping >= 0 && natural_freq
            >= 0 && damped_freq >= 0,
    }
}

/// `-(a * b)` over the saturating product.
pub open spec fn spec_neg_mul(a: int, b: int) -> int {
    clamped(-spec_mul(a, b))
}

/// The faster decay rate, kept nonpositive against rounding.
pub open spec fn spec_gamma_plus(damping: int, w0: int, sd: int) -> int {
    let raw = spec_add(spec_neg_mul(damping, w0), spec_mul(w0, sd));
    if raw > 0 {
        0
    } else {
        raw
    }
}

/// The slower decay rate, kept below the faster one against rounding.
pub open spec fn spec_gamma_minus(damping: int, w0: int, sd: int) -> int {
    let raw = spec_sub(spec_neg_mul(damping, w0), spec_mul(w0, sd));
    let gp = spec_gamma_plus(damping, w0, sd);
    if raw > gp {
        gp
    } else {
        raw
    }
}

/// What `Spring::new_internal` builds from `(damping, stiffness)`.
pub open spec fn spring_built_from(s: Spring, damping: int, stiffness: int) -> bool {
    exists|w0: int|
        #![trigger is_sqrt_of(w0, stiffness * (FX_ONE as int))]
        is_sqrt_of(w0, stiffness * (FX_ONE as int)) && if damping > FX_ONE as int {
            exists|sd: int|
                #![trigger spec_gamma_plus(damping, w0, sd)]
                is_sqrt_of(sd, spec_sub(spec_mul(damping, damping), FX_ONE as int) * (
                FX_ONE as int)) && s == (Spring::Overdamped {
                    gamma_plus: spec_gamma_plus(damping, w0, sd) as i64,
                    gamma_minus: spec_gamma_minus(damping, w0, sd) as i64,
                })
        } else if damping < FX_ONE as int {
            exists|sd: int|
                #![trigger spec_mul(w0, sd)]
                is_sqrt_of(sd, spec_sub(FX_ONE as int, spec_mul(damping, damping)) * (
                FX_ONE as int)) && s == (Spring::Underdamped {
                    damping: damping as i64,
                    natural_freq: w0 as i64,
                    damped_freq: spec_mul(w0, sd) as i64,
                })
        } else {
            s == (Spring::CriticallyDamped { natural_freq: w0 as i64 })
        }
}

impl Spring {
    /// The value of the `standard` preset (also `smooth-non-spatial` and
    /// `expressive-non-spatial`): sqrt(380) in micro-units.
    pub open spec fn spec_standard() -> Spring {
        Spring::CriticallyDamped { natural_freq: 19_493_588i64 }
    }

    /// The value of the `smooth-spatial` preset: sqrt(190) in micro-units.
    pub open spec fn spec_smooth_spatial() -> Spring {
        Spring::CriticallyDamped { natural_freq: 13_784_048i64 }
    }

    /// The value of the `expressive-spatial` preset.
    pub open spec fn spec_expressive_spatial() -> Spring {
        Spring::Underdamped {
            damping: 800_000i64,
            natural_freq: 19_493_588i64,
            damped_freq: 11_696_152i64,
        }
    }

    /// Builds a spring, refusing negative damping.
    pub fn new(damping: i64, stiffness: i64) -> (r: Result<Spring, SpringBuildError>)
        requires
            stiffness >= 0,
        ensures
            match r {
                Ok(s) => damping >= 0 && spring_built_from(s, damping as int, stiffness as int)
                    && spring_wf(s),
                Err(e) => damping < 0 && e == SpringBuildError::InvalidDamping,
            },
    {
        if damping < 0 {
            return Err(SpringBuildError::InvalidDamping);
        }
        Ok(Self::new_internal(damping, stiffness))
    }

    /// Precomputes the per-regime coefficients.
    fn new_internal(damping: i64, stiffness: i64) -> (s: Spring)
        requires
            damping >= 0,
            stiffness >= 0,
        ensures
            spring_built_from(s, damping as int, stiffness as int),
            spring_wf(s),
    {
        let natural_freq = sqrt_micro(stiffness);
        if damping > FX_ONE {
            let d2 = fx_mul(damping, damping);
            proof {
                assert(damping as int * damping as int >= FX_ONE as int * FX_ONE as int)
                    by (nonlinear_arith)
                    requires
                        damping as int > FX_ONE as int,
                        FX_ONE as int > 0,
                ;
                vstd::arithmetic::div_mod::lemma_div_is_ordered(
                    FX_ONE as int * FX_ONE as int,
                    damping as int * damping as int,
                    FX_ONE as int,
                );
                crate::fixed::lemma_tdiv_bounds(damping as int * damping as int, FX_ONE as int);
            }
            let under = fx_sub(d2, FX_ONE);
            let sd = sqrt_micro(under);
            let a = fx_mul(damping, natural_freq);
            let b = fx_mul(natural_freq, sd);
            let gp_raw = fx_add(fx_neg(a), b);
            let gm_raw = fx_sub(fx_neg(a), b);
            let gamma_plus = if gp_raw > 0 {
                0
            } else {
                gp_raw
            };
            let gamma_minus = if gm_raw > gamma_plus {
                gamma_plus
            } else {
                gm_raw
            };
            let s = Spring::Overdamped { gamma_plus, gamma_minus };
            proof {
                assert(is_sqrt_of(
                    natural_freq as int,
                    stiffness as int * (FX_ONE as int),
                ));
                assert(is_sqrt_of(
                    sd as int,
                    spec_sub(spec_mul(damping as int, damping as int), FX_ONE as int) * (
                    FX_ONE as int),
                ));
                assert(gamma_plus as int == spec_gamma_plus(
                    damping as int,
                    natural_freq as int,
                    sd as int,
                ));
                assert(gamma_minus as int == spec_gamma_minus(
                    damping as int,
                    natural_freq as int,
                    sd as int,
                ));
            }
            s
        } else if damping < FX_ONE {
            let d2 = fx_mul(damping, damping);
            proof {
                assert(0 <= damping as int * damping as int <= FX_ONE as int * FX_ONE as int)
                    by (nonlinear_arith)
                    requires
                        0 <= damping as int <= FX_ONE as int,
                ;
                vstd::arithmetic::div_mod::lemma_div_is_ordered(
                    damping as int * damping as int,
                    FX_ONE as int * FX_ONE as int,
                    FX_ONE as int,
                );
                crate::fixed::lemma_tdiv_bounds(damping as int * damping as int, FX_ONE as int);
            }
            let under = fx_sub(FX_ONE, d2);
            let sd = sqrt_micro(under);
            proof {
                assert(natural_freq as int * sd as int >= 0) by (nonlinear_arith)
                    requires
                        natural_freq as int >= 0,
                        sd as int >= 0,
                ;
                crate::fixed::lemma_tdiv_bounds(natural_freq as int * sd as int, FX_ONE as int);
            }
            let damped_freq = fx_mul(natural_freq, sd);
            let s = Spring::Underdamped { damping, natural_freq, damped_freq };
            proof {
                assert(is_sqrt_of(
                    natural_freq as int,
                    stiffness as int * (FX_ONE as int),
                ));
                assert(is_sqrt_of(
                    sd as int,
                    spec_sub(FX_ONE as int, spec_mul(damping as int, damping as int)) * (
                    FX_ONE as int),
                ));
                assert(damped_freq as int == spec_mul(natural_freq as int, sd as int));
            }
            s
        } else {
            let s = Spring::CriticallyDamped { natural_freq };
            proof {
                assert(is_sqrt_of(
                    natural_freq as int,
                    stiffness as int * (FX_ONE as int),
                ));
            }
            s
        }
    }

    /// The `standard` preset: damping 1, stiffness 380.
    #[verifier::when_used_as_spec(spec_standard)]
    pub fn standard() -> (s: Spring)
        ensures
            s == (Spring::CriticallyDamped { natural_freq: 19_493_588i64 }),
    {
        Spring::CriticallyDamped { natural_freq: 19_493_588 }
    }

    /// The `smooth-spatial` preset: damping 1, stiffness 190.
    #[verifier::when_used_as_spec(spec_smooth_spatial)]
    pub fn smooth_spatial() -> (s: Spring)
        ensures
            s == (Spring::CriticallyDamped { natural_freq: 13_784_048i64 }),
    {
        Spring::CriticallyDamped { natural_freq: 13_784_048 }
    }

    /// The `smooth-non-spatial` preset: damping 1, stiffness 380.
    #[verifier::when_used_as_spec(spec_standard)]
    pub fn smooth_non_spatial() -> (s: Spring)
        ensures
            s == (Spring::CriticallyDamped { natural_freq: 19_493_588i64 }),
    {
        Spring::CriticallyDamped { natural_freq: 19_493_588 }
    }

    /// The `expressive-spatial` preset: damping 0.8, stiffness 380.
    #[verifier::when_used_as_spec(spec_expressive_spatial)]
    pub fn expressive_spatial() -> (s: Spring)
        ensures
            s == (Spring::Underdamped {
                damping: 800_000i64,
                natural_freq: 19_493_588i64,
                damped_freq: 11_696_152i64,
            }),
    {
        Spring::Underdamped { damping: 800_000, natural_freq: 19_493_588, damped_freq: 11_696_152 }
    }

    /// The `expressive-non-spatial` preset: damping 1, stiffness 380.
    #[verifier::when_used_as_spec(spec_standard)]
    pub fn expressive_non_spatial() -> (s: Spring)
        ensures
            s == (Spring::CriticallyDamped { natural_freq: 19_493_588i64 }),
    {
        Spring::CriticallyDamped { natural_freq: 19_493_588 }
    }
}


// --- animated values and the update step ---

/// Picks the equilibrium thresholds; a custom threshold carries its own.
#[derive(Debug, Copy, Clone, PartialEq, Eq, Structural)]
pub enum AnimatedValueType {
    Rotation,
    Scale,
    Position,
    Custom { value_threshold: i64 },
}

/// Equilibrium threshold on the distance to the final value, per value kind,
/// scaled by 3/4.
pub open spec fn spec_value_threshold(t: AnimatedValueType) -> int {
    match t {
        AnimatedValueType::Position => 7_500,
        AnimatedValueType::Rotation => 75_000,
        AnimatedValueType::Scale => 1_500,
        AnimatedValueType::Custom { value_threshold } => spec_mul_div(value_threshold as int, 3, 4),
    }
}

/// Equilibrium threshold on the velocity: the value threshold per frame,
/// i.e. times 1000/16.
pub open spec fn spec_velocity_threshold(t: AnimatedValueType) -> int {
    spec_mul_div(spec_value_threshold(t), 125, 2)
}

/// The pair of equilibrium thresholds.
#[derive(Debug, Copy, Clone, PartialEq, Eq, Structural)]
pub struct ValueThresholds {
    pub value_threshold: i64,
    pub velocity_threshold: i64,
}

impl AnimatedValueType {
    pub fn thresholds(&self) -> (t: ValueThresholds)
        ensures
            t.value_threshold as int == spec_value_threshold(*self),
            t.velocity_threshold as int == spec_velocity_threshold(*self),
    {
        let value_threshold: i64 = match *self {
            AnimatedValueType::Position => 7_500,
            AnimatedValueType::Rotation => 75_000,
            AnimatedValueType::Scale => 1_500,
            AnimatedValueType::Custom { value_threshold } => fx_mul_div(value_threshold, 3, 4),
        };
        let velocity_threshold = fx_mul_div(value_threshold, 125, 2);
        ValueThresholds { value_threshold, velocity_threshold }
    }
}

/// The state of something being animated by a spring.
#[derive(Debug, Copy, Clone, PartialEq, Eq, Structural)]
pub struct AnimatedValue {
    pub value: i64,
    pub value_type: AnimatedValueType,
    pub velocity: i64,
    pub final_value: i64,
    pub time: i64,
}

/// Saturated absolute value.
pub open spec fn spec_abs(a: int) -> int {
    clamped(
        if a >= 0 {
            a
        } else {
            -a
        },
    )
}

/// Both the velocity and the distance to the final value are under their
/// thresholds.
pub open spec fn spec_at_equilibrium(v: AnimatedValue) -> bool {
    &&& spec_abs(v.velocity as int) < spec_velocity_threshold(v.value_type)
    &&& spec_abs(spec_sub(v.value as int, v.final_value as int)) < spec_value_threshold(
        v.value_type,
    )
}

impl AnimatedValue {
    pub fn new(from: i64, to: i64, value_type: AnimatedValueType) -> (v: AnimatedValue)
        ensures
            v == (AnimatedValue {
                value: from,
                value_type,
                velocity: 0i64,
                final_value: to,
                time: 0i64,
            }),
    {
        AnimatedValue { value: from, value_type, velocity: 0, final_value: to, time: 0 }
    }

    pub fn is_at_equilibrium(&self) -> (b: bool)
        ensures
            b == spec_at_equilibrium(*self),
    {
        let t = self.value_type.thresholds();
        let av = fx_abs(self.velocity);
        let ad = fx_abs(fx_sub(self.value, self.final_value));
        av < t.velocity_threshold && ad < t.value_threshold
    }
}

/// A decay rate and a time step turned into the nano-unit argument of
/// `exp(-x)`: `-g * dt`, carried from micro to nano.
pub open spec fn spec_decay_arg(g: int, dt: int) -> int {
    spec_mul_div(spec_mul_div(clamped(-g), dt, FX_ONE as int), 1000, 1)
}

/// A frequency and a time step turned into the nano-unit angle `w * dt`.
pub open spec fn spec_angle_arg(w: int, dt: int) -> int {
    spec_mul_div(spec_mul_div(w, dt, FX_ONE as int), 1000, 1)
}

/// Displacement and velocity after `dt` for an overdamped spring.
pub open spec fn spec_overdamped_step(gp: int, gm: int, dt: int, x: int, v: int) -> (int, int) {
    let frac = spec_div(spec_sub(spec_mul(gm, x), v), spec_sub(gm, gp));
    let ca = spec_sub(x, frac);
    let cb = frac;
    let em = spec_exp_neg(spec_decay_arg(gm, dt));
    let ep = spec_exp_neg(spec_decay_arg(gp, dt));
    let disp = spec_add(spec_mul_div(ca, em, NANO_ONE as int), spec_mul_div(cb, ep, NANO_ONE as int));
    let vel = spec_add(
        spec_mul_div(spec_mul(ca, gm), em, NANO_ONE as int),
        spec_mul_div(spec_mul(cb, gp), ep, NANO_ONE as int),
    );
    (disp, vel)
}

/// Displacement and velocity after `dt` for a critically damped spring.
pub open spec fn spec_critical_step(w0: int, dt: int, x: int, v: int) -> (int, int) {
    let ca = x;
    let cb = spec_add(v, spec_mul(w0, x));
    let e = spec_exp_neg(spec_decay_arg(clamped(-w0), dt));
    let disp = spec_mul_div(spec_add(ca, spec_mul(cb, dt)), e, NANO_ONE as int);
    let vel = spec_add(clamped(-spec_mul(disp, w0)), spec_mul_div(cb, e, NANO_ONE as int));
    (disp, vel)
}

/// Displacement and velocity after `dt` for an underdamped spring.
pub open spec fn spec_underdamped_step(
    z: int,
    w0: int,
    wd: int,
    dt: int,
    x: int,
    v: int,
) -> (int, int) {
    let zw0 = spec_mul(z, w0);
    let cc = x;
    let sc = spec_div(spec_add(spec_mul(zw0, x), v), wd);
    let e = spec_exp_neg(spec_decay_arg(clamped(-zw0), dt));
    let c = spec_cos(spec_angle_arg(wd, dt));
    let sn = spec_sin(spec_angle_arg(wd, dt));
    let osc = spec_add(spec_mul_div(cc, c, NANO_ONE as int), spec_mul_div(sc, sn, NANO_ONE as int));
    let disp = spec_mul_div(osc, e, NANO_ONE as int);
    let dosc = spec_add(clamped(-spec_mul_div(cc, sn, NANO_ONE as int)), spec_mul_div(sc, c, NANO_ONE as int));
    let vel = spec_add(
        clamped(-spec_mul(disp, zw0)),
        spec_mul_div(spec_mul(wd, dosc), e, NANO_ONE as int),
    );
    (disp, vel)
}

/// The state advanced from `last` to `time`.
#[verifier::opaque]
pub open spec fn spec_update(s: Spring, time: int, last: AnimatedValue) -> AnimatedValue {
    let dt = spec_sub(time, last.time as int);
    let x = spec_sub(last.value as int, last.final_value as int);
    let step = match s {
        Spring::Overdamped { gamma_plus, gamma_minus } => spec_overdamped_step(
            gamma_plus as int,
            gamma_minus as int,
            dt,
            x,
            last.velocity as int,
        ),
        Spring::CriticallyDamped { natural_freq } => spec_critical_step(
            natural_freq as int,
            dt,
            x,
            last.velocity as int,
        ),
        Spring::Underdamped { damping, natural_freq, damped_freq } => spec_underdamped_step(
            damping as int,
            natural_freq as int,
            damped_freq as int,
            dt,
            x,
            last.velocity as int,
        ),
    };
    AnimatedValue {
        value: spec_add(step.0, last.final_value as int) as i64,
        value_type: last.value_type,
        velocity: step.1 as i64,
        final_value: last.final_value,
        time: time as i64,
    }
}

impl Spring {
    /// Computes the state for a new time, such as a new frame.
    pub fn update(&self, time: i64, last: AnimatedValue) -> (r: AnimatedValue)
        ensures
            r == spec_update(*self, time as int, last),
    {
        proof {
            reveal(spec_update);
        }
        let dt = fx_sub(time, last.time);
        let x = fx_sub(last.value, last.final_value);
        let (disp, velocity): (i64, i64) = match *self {
            Spring::Overdamped { gamma_plus, gamma_minus } => {
                let frac = fx_div(fx_sub(fx_mul(gamma_minus, x), last.velocity), fx_sub(gamma_minus, gamma_plus));
                let ca = fx_sub(x, frac);
                let cb = frac;
                let em = exp_neg(fx_mul_div(fx_mul_div(fx_neg(gamma_minus), dt, FX_ONE), 1000, 1));
                let ep = exp_neg(fx_mul_div(fx_mul_div(fx_neg(gamma_plus), dt, FX_ONE), 1000, 1));
                let disp = fx_add(fx_mul_div(ca, em, NANO_ONE), fx_mul_div(cb, ep, NANO_ONE));
                let vel = fx_add(
                    fx_mul_div(fx_mul(ca, gamma_minus), em, NANO_ONE),
                    fx_mul_div(fx_mul(cb, gamma_plus), ep, NANO_ONE),
                );
                (disp, vel)
            },
            Spring::CriticallyDamped { natural_freq } => {
                let ca = x;
                let cb = fx_add(last.velocity, fx_mul(natural_freq, x));
                let e = exp_neg(fx_mul_div(fx_mul_div(fx_neg(fx_neg(natural_freq)), dt, FX_ONE), 1000, 1));
                let disp = fx_mul_div(fx_add(ca, fx_mul(cb, dt)), e, NANO_ONE);
                let vel = fx_add(fx_neg(fx_mul(disp, natural_freq)), fx_mul_div(cb, e, NANO_ONE));
                (disp, vel)
            },
            Spring::Underdamped { damping, natural_freq, damped_freq } => {
                let zw0 = fx_mul(damping, natural_freq);
                let cc = x;
                let sc = fx_div(fx_add(fx_mul(zw0, x), last.velocity), damped_freq);
                let e = exp_neg(fx_mul_div(fx_mul_div(fx_neg(fx_neg(zw0)), dt, FX_ONE), 1000, 1));
                let ang = fx_mul_div(fx_mul_div(damped_freq, dt, FX_ONE), 1000, 1);
                let c = cos_nano(ang);
                let sn = sin_nano(ang);
                let osc = fx_add(fx_mul_div(cc, c, NANO_ONE), fx_mul_div(sc, sn, NANO_ONE));
                let disp = fx_mul_div(osc, e, NANO_ONE);
                let dosc = fx_add(fx_neg(fx_mul_div(cc, sn, NANO_ONE)), fx_mul_div(sc, c, NANO_ONE));
                let vel = fx_add(
                    fx_neg(fx_mul(disp, zw0)),
                    fx_mul_div(fx_mul(damped_freq, dosc), e, NANO_ONE),
                );
                (disp, vel)
            },
        };
        AnimatedValue {
            value: fx_add(disp, last.final_value),
            value_type: last.value_type,
            velocity,
            final_value: last.final_value,
            time,
        }
    }
}

} // verus!
