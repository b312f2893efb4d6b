//! Trigonometric primitives in fixed point: a rational sine approximation
//! on the half-turn, cosine by phase shift, and a rational arctangent used
//! by the limb-darkening chord integral. Angles are fixed-point degrees,
//! arctangent results are fixed-point radians.

use vstd::prelude::*;

verus! {

use crate::fx::FX_ONE;
use crate::fx::absi;
use crate::fx::fx_mul_spec;
use crate::fx::fx_div_spec;
use crate::fx::fx_mul;
use crate::fx::fx_div;
use crate::fx::lemma_fx_mul_bound;
use crate::fx::lemma_fx_div_bound;

pub const DEG_90: i64 = 90_000_000;

pub const DEG_180: i64 = 180_000_000;

pub const DEG_360: i64 = 360_000_000;

/// Half pi in fixed-point radians.
pub const HALF_PI_FX: i64 = 1_570_796;

/// Quarter pi in fixed-point radians.
pub const QUARTER_PI_FX: i64 = 785_398;

/// Correction weight of the rational arctangent approximation.
pub const ATAN_TUNE_FX: i64 = 273_000;

/// Rational sine approximation on `[0, 180]` degrees.
pub open spec fn sin_half_spec(d: int) -> int {
    let p = fx_mul_spec(d, DEG_180 as int - d);
    fx_div_spec(4 * p, 40_500_000_000 - p)
}

/// Sine of a fixed-point angle in `[0, 360)` degrees.
pub open spec fn sin_deg_spec(d: int) -> int {
    if d <= DEG_180 as int {
        sin_half_spec(d)
    } else {
        -sin_half_spec(d - DEG_180 as int)
    }
}

/// Bring an angle of `[-360, 720)` degrees into `[0, 360)`.
pub open spec fn norm_deg_spec(d: int) -> int {
    if d < 0 {
        d + DEG_360 as int
    } else if d >= DEG_360 as int {
        d - DEG_360 as int
    } else {
        d
    }
}

/// Cosine of a fixed-point angle in `[-360, 360]` degrees.
pub open spec fn cos_deg_spec(d: int) -> int {
    sin_deg_spec(norm_deg_spec(norm_deg_spec(d) + DEG_90 as int))
}

proof fn lemma_sin_half_bounds(d: int)
    requires
        0 <= d <= DEG_180 as int,
    ensures
        0 <= sin_half_spec(d) <= FX_ONE as int,
        fx_mul_spec(d, DEG_180 as int - d) <= 8_100_000_000int,
{
    let p = fx_mul_spec(d, DEG_180 as int - d);
    assert(d * (DEG_180 as int - d) <= 8_100_000_000_000_000int) by (nonlinear_arith)
        requires
            0 <= d <= 180_000_000int,
    ;
    lemma_fx_mul_bound(d, DEG_180 as int - d, d, DEG_180 as int - d);
    vstd::arithmetic::div_mod::lemma_div_is_ordered(
        d * (DEG_180 as int - d),
        8_100_000_000_000_000int,
        1_000_000,
    );
    vstd::arithmetic::mul::lemma_mul_nonnegative(d, DEG_180 as int - d);
    vstd::arithmetic::div_mod::lemma_div_pos_is_pos(d * (DEG_180 as int - d), 1_000_000);
    assert(0 <= p <= 8_100_000_000int);
    assert(absi(4 * p) <= 1 * absi(40_500_000_000 - p));
    lemma_fx_div_bound(4 * p, 40_500_000_000 - p, 1);
    vstd::arithmetic::mul::lemma_mul_nonnegative(4 * p, 1_000_000);
    vstd::arithmetic::div_mod::lemma_div_pos_is_pos(4 * p * 1_000_000, 40_500_000_000 - p);
}

fn sin_half(d: i64) -> (r: i64)
    requires
        0 <= d <= DEG_180,
    ensures
        r == sin_half_spec(d as int),
        0 <= r <= FX_ONE,
{
    proof {
        lemma_sin_half_bounds(d as int);
    }
    let p = fx_mul(d, DEG_180 - d);
    fx_div(4 * p, 40_500_000_000 - p)
}

pub fn sin_deg(d: i64) -> (r: i64)
    requires
        0 <= d < DEG_360,
    ensures
        r == sin_deg_spec(d as int),
        -FX_ONE <= r <= FX_ONE,
{
    if d <= DEG_180 {
        sin_half(d)
    } else {
        -sin_half(d - DEG_180)
    }
}

pub fn cos_deg(d: i64) -> (r: i64)
    requires
        -DEG_360 <= d <= DEG_360,
    ensures
        r == cos_deg_spec(d as int),
        -FX_ONE <= r <= FX_ONE,
{
    let n0 = if d < 0 {
        d + DEG_360
    } else if d >= DEG_360 {
        d - DEG_360
    } else {
        d
    };
    let n1 = n0 + DEG_90;
    let n2 = if n1 >= DEG_360 {
        n1 - DEG_360
    } else {
        n1
    };
    sin_deg(n2)
}

/// Rational arctangent approximation on `[-1, 1]`, in fixed-point radians.
pub open spec fn atan_core_spec(u: int) -> int {
    fx_mul_spec(QUARTER_PI_FX as int, u) + fx_mul_spec(
        ATAN_TUNE_FX as int,
        fx_mul_spec(u, FX_ONE as int - absi(u)),
    )
}

/// Arctangent of `num / den` for `den >= 0`, in fixed-point radians.
pub open spec fn atan_ratio_spec(num: int, den: int) -> int {
    if den == 0 {
        if num >= 0 {
            HALF_PI_FX as int
        } else {
            -HALF_PI_FX as int
        }
    } else if absi(num) <= den {
        atan_core_spec(fx_div_spec(num, den))
    } else if num >= 0 {
        HALF_PI_FX as int - atan_core_spec(fx_div_spec(den, num))
    } else {
        -HALF_PI_FX as int + atan_core_spec(fx_div_spec(den, -num))
    }
}

proof fn lemma_atan_core_bound(u: int)
    requires
        absi(u) <= FX_ONE as int,
    ensures
        absi(atan_core_spec(u)) <= HALF_PI_FX as int,
{
    lemma_fx_mul_bound(u, FX_ONE as int - absi(u), 1_000_000, 1_000_000);
    let inner = fx_mul_spec(u, FX_ONE as int - absi(u));
    lemma_fx_mul_bound(ATAN_TUNE_FX as int, inner, ATAN_TUNE_FX as int, 1_000_000);
    lemma_fx_mul_bound(QUARTER_PI_FX as int, u, QUARTER_PI_FX as int, 1_000_000);
}

fn atan_core(u: i64) -> (r: i64)
    requires
        -FX_ONE <= u <= FX_ONE,
    ensures
        r == atan_core_spec(u as int),
        -HALF_PI_FX <= r <= HALF_PI_FX,
{
    proof {
        lemma_atan_core_bound(u as int);
        lemma_fx_mul_bound(u as int, FX_ONE as int - absi(u as int), 1_000_000, 1_000_000);
    }
    let au = if u < 0 {
        -u
    } else {
        u
    };
    let inner = fx_mul(u, FX_ONE - au);
    fx_mul(QUARTER_PI_FX, u) + fx_mul(ATAN_TUNE_FX, inner)
}

pub fn atan_ratio(num: i64, den: i64) -> (r: i64)
    requires
        0 <= den <= crate::fx::FX_DIV_NUM_MAX,
        -crate::fx::FX_DIV_NUM_MAX <= num <= crate::fx::FX_DIV_NUM_MAX,
    ensures
        r == atan_ratio_spec(num as int, den as int),
        -2 * HALF_PI_FX <= r <= 2 * HALF_PI_FX,
{
    let anum = if num < 0 {
        -num
    } else {
        num
    };
    if den == 0 {
        if num >= 0 {
            HALF_PI_FX
        } else {
            -HALF_PI_FX
        }
    } else if anum <= den {
        proof {
            lemma_fx_div_bound(num as int, den as int, 1);
        }
        atan_core(fx_div(num, den))
    } else if num >= 0 {
        proof {
            lemma_fx_div_bound(den as int, num as int, 1);
        }
        HALF_PI_FX - atan_core(fx_div(den, num))
    } else {
        proof {
            lemma_fx_div_bound(den as int, -(num as int), 1);
        }
        -HALF_PI_FX + atan_core(fx_div(den, -num))
    }
}

} // verus!
