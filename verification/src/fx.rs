//! Fixed-point arithmetic: every quantity of the simulator is an integer
//! number of millionths, so a stored value `v` stands for the real number
//! `v / 1_000_000`. All operations carry exact contracts over `int`.

use vstd::prelude::*;

verus! {

use vstd::arithmetic::mul::lemma_mul_upper_bound;
use vstd::arithmetic::div_mod::lemma_div_is_ordered;
use vstd::arithmetic::div_mod::lemma_div_multiples_vanish;

/// One unit of measure: a fixed-point value `v` stands for `v / FX_ONE`.
pub const FX_ONE: i64 = 1_000_000;

/// Largest magnitude accepted by `fx_mul`.
pub const FX_MUL_IN_MAX: i64 = 2_000_000_000_000;

/// Largest numerator magnitude accepted by `fx_div`.
pub const FX_DIV_NUM_MAX: i64 = 4_000_000_000_000;

/// Saturation bound of `fx_div_wide`.
pub const FX_DIV_CLAMP: i64 = 4_000_000_000_000_000;

pub open spec fn absi(a: int) -> int {
    if a < 0 {
        -a
    } else {
        a
    }
}

/// Fixed-point product, truncating toward zero.
pub open spec fn fx_mul_spec(a: int, b: int) -> int {
    if (a < 0) == (b < 0) {
        (absi(a) * absi(b)) / 1_000_000
    } else {
        -((absi(a) * absi(b)) / 1_000_000)
    }
}

/// Fixed-point quotient, truncating toward zero.
pub open spec fn fx_div_spec(a: int, b: int) -> int {
    if (a < 0) == (b < 0) {
        (absi(a) * 1_000_000) / absi(b)
    } else {
        -((absi(a) * 1_000_000) / absi(b))
    }
}

/// Integer quotient, truncating toward zero.
pub open spec fn tdiv_spec(a: int, b: int) -> int {
    if (a < 0) == (b < 0) {
        absi(a) / absi(b)
    } else {
        -(absi(a) / absi(b))
    }
}

/// Clamp `x` to the interval `[-m, m]`.
pub open spec fn clampi(x: int, m: int) -> int {
    if x > m {
        m
    } else if x < -m {
        -m
    } else {
        x
    }
}

pub fn abs_u(a: i64) -> (r: u64)
    ensures
        r == absi(a as int),
{
    if a < 0 {
        (-(a as i128)) as u64
    } else {
        a as u64
    }
}

pub fn clamp128(x: i128, m: i64) -> (r: i64)
    requires
        m > 0,
    ensures
        r == clampi(x as int, m as int),
{
    if x > m as i128 {
        m
    } else if x < -(m as i128) {
        -m
    } else {
        x as i64
    }
}

pub proof fn lemma_fx_mul_bound(a: int, b: int, abound: int, bbound: int)
    requires
        absi(a) <= abound,
        absi(b) <= bbound,
        0 <= abound,
        0 <= bbound,
    ensures
        absi(fx_mul_spec(a, b)) <= (abound * bbound) / 1_000_000,
{
    lemma_mul_upper_bound(absi(a), abound, absi(b), bbound);
    lemma_div_is_ordered(absi(a) * absi(b), abound * bbound, 1_000_000);
    vstd::arithmetic::mul::lemma_mul_nonnegative(absi(a), absi(b));
    vstd::arithmetic::div_mod::lemma_div_pos_is_pos(absi(a) * absi(b), 1_000_000);
}

pub proof fn lemma_fx_div_bound(a: int, b: int, abound: int)
    requires
        absi(a) <= abound * absi(b),
        0 <= abound,
        b != 0,
    ensures
        absi(fx_div_spec(a, b)) <= abound * 1_000_000,
{
    lemma_mul_upper_bound(absi(a), abound * absi(b), 1_000_000, 1_000_000);
    assert((abound * absi(b)) * 1_000_000 == (abound * 1_000_000) * absi(b)) by (nonlinear_arith);
    lemma_div_is_ordered(absi(a) * 1_000_000, (abound * 1_000_000) * absi(b), absi(b));
    lemma_div_multiples_vanish(abound * 1_000_000, absi(b));
    vstd::arithmetic::mul::lemma_mul_nonnegative(absi(a), 1_000_000);
    vstd::arithmetic::div_mod::lemma_div_pos_is_pos(absi(a) * 1_000_000, absi(b));
}

pub fn fx_mul(a: i64, b: i64) -> (r: i64)
    requires
        -FX_MUL_IN_MAX <= a <= FX_MUL_IN_MAX,
        -FX_MUL_IN_MAX <= b <= FX_MUL_IN_MAX,
    ensures
        r == fx_mul_spec(a as int, b as int),
{
    let ua = abs_u(a) as u128;
    let ub = abs_u(b) as u128;
    proof {
        lemma_mul_upper_bound(ua as int, FX_MUL_IN_MAX as int, ub as int, FX_MUL_IN_MAX as int);
        lemma_div_is_ordered(
            ua as int * ub as int,
            FX_MUL_IN_MAX as int * FX_MUL_IN_MAX as int,
            1_000_000,
        );
        vstd::arithmetic::mul::lemma_mul_nonnegative(ua as int, ub as int);
        vstd::arithmetic::div_mod::lemma_div_pos_is_pos(ua as int * ub as int, 1_000_000);
    }
    let m = (ua * ub) / 1_000_000;
    let mi = m as i64;
    if (a < 0) != (b < 0) {
        -mi
    } else {
        mi
    }
}

pub fn fx_div(a: i64, b: i64) -> (r: i64)
    requires
        b != 0,
        -FX_DIV_NUM_MAX <= a <= FX_DIV_NUM_MAX,
    ensures
        r == fx_div_spec(a as int, b as int),
{
    let ua = abs_u(a) as u128;
    let ub = abs_u(b) as u128;
    proof {
        lemma_mul_upper_bound(ua as int, FX_DIV_NUM_MAX as int, 1_000_000, 1_000_000);
        lemma_div_is_ordered(
            ua as int * 1_000_000,
            FX_DIV_NUM_MAX as int * 1_000_000,
            ub as int,
        );
        lemma_div_multiples_vanish(FX_DIV_NUM_MAX as int * 1_000_000, ub as int);
        assert((FX_DIV_NUM_MAX as int * 1_000_000) / (ub as int) <= FX_DIV_NUM_MAX as int
            * 1_000_000) by {
            vstd::arithmetic::div_mod::lemma_div_nonincreasing(
                FX_DIV_NUM_MAX as int * 1_000_000,
                ub as int,
            );
        }
        vstd::arithmetic::mul::lemma_mul_nonnegative(ua as int, 1_000_000);
        vstd::arithmetic::div_mod::lemma_div_pos_is_pos(ua as int * 1_000_000, ub as int);
    }
    let m = (ua * 1_000_000) / ub;
    let mi = m as i64;
    if (a < 0) != (b < 0) {
        -mi
    } else {
        mi
    }
}

/// Wide fixed-point quotient with saturation at `FX_DIV_CLAMP`.
pub open spec fn fx_div_wide_spec(a: int, b: int) -> int {
    clampi(fx_div_spec(a, b), FX_DIV_CLAMP as int)
}

pub fn fx_div_wide(a: i128, b: i128) -> (r: i64)
    requires
        b != 0,
        -0x1000_0000_0000_0000_0000_0000_0000 <= a <= 0x1000_0000_0000_0000_0000_0000_0000,
        -0x1000_0000_0000_0000_0000_0000_0000 <= b <= 0x1000_0000_0000_0000_0000_0000_0000,
    ensures
        r == fx_div_wide_spec(a as int, b as int),
{
    let ua: u128 = if a < 0 {
        ((-a) as u128)
    } else {
        a as u128
    };
    let ub: u128 = if b < 0 {
        ((-b) as u128)
    } else {
        b as u128
    };
    proof {
        lemma_mul_upper_bound(
            ua as int,
            0x1000_0000_0000_0000_0000_0000_0000,
            1_000_000,
            1_000_000,
        );
        vstd::arithmetic::mul::lemma_mul_nonnegative(ua as int, 1_000_000);
        vstd::arithmetic::div_mod::lemma_div_pos_is_pos(ua as int * 1_000_000, ub as int);
    }
    let m = (ua * 1_000_000) / ub;
    let clamped: i64 = if m > FX_DIV_CLAMP as u128 {
        FX_DIV_CLAMP
    } else {
        proof {
            vstd::arithmetic::div_mod::lemma_div_nonincreasing(ua as int * 1_000_000, ub as int);
        }
        m as i64
    };
    if (a < 0) != (b < 0) {
        -clamped
    } else {
        clamped
    }
}

/// Floor of the square root of a natural number.
pub open spec fn isqrt_spec(n: nat) -> nat
    decreases n,
{
    if n == 0 {
        0
    } else {
        let p = isqrt_spec((n - 1) as nat);
        if (p + 1) * (p + 1) <= n {
            p + 1
        } else {
            p
        }
    }
}

pub proof fn lemma_isqrt_bounds(n: nat)
    ensures
        isqrt_spec(n) * isqrt_spec(n) <= n,
        n < (isqrt_spec(n) + 1) * (isqrt_spec(n) + 1),
    decreases n,
{
    reveal_with_fuel(isqrt_spec, 2);
    if n == 0 {
        assert(isqrt_spec(n) == 0);
        assert(n < (isqrt_spec(n) + 1) * (isqrt_spec(n) + 1)) by (nonlinear_arith)
            requires
                n == 0,
                isqrt_spec(n) == 0,
        ;
    } else {
        lemma_isqrt_bounds((n - 1) as nat);
        let p = isqrt_spec((n - 1) as nat);
        if (p + 1) * (p + 1) <= n {
            assert(isqrt_spec(n) == p + 1);
            assert(n == (p + 1) * (p + 1));
            assert((p + 2) * (p + 2) > (p + 1) * (p + 1)) by (nonlinear_arith);
            assert(n < (isqrt_spec(n) + 1) * (isqrt_spec(n) + 1));
        } else {
            assert(isqrt_spec(n) == p);
            assert(n < (p + 1) * (p + 1));
        }
    }
}

pub proof fn lemma_isqrt_unique(n: nat, r: nat)
    requires
        r * r <= n,
        n < (r + 1) * (r + 1),
    ensures
        r == isqrt_spec(n),
{
    lemma_isqrt_bounds(n);
    let s = isqrt_spec(n);
    assert(r == s) by (nonlinear_arith)
        requires
            r * r <= n,
            n < (r + 1) * (r + 1),
            s * s <= n,
            n < (s + 1) * (s + 1),
    ;
}

/// Floor of the square root, by bisection.
pub fn isqrt_u64(n: u64) -> (r: u64)
    ensures
        r == isqrt_spec(n as nat),
{
    let mut lo: u64 = 0;
    let mut hi: u64 = 0x1_0000_0000;
    proof {
        assert((0x1_0000_0000 as int) * (0x1_0000_0000 as int) == 0x1_0000_0000_0000_0000int)
            by (nonlinear_arith);
    }
    while lo + 1 < hi
        invariant
            lo < hi,
            (lo as int) * (lo as int) <= n as int,
            (hi as int) * (hi as int) > n as int,
            hi <= 0x1_0000_0000,
        decreases hi - lo,
    {
        let mid = lo + (hi - lo) / 2;
        proof {
            assert((mid as int) * (mid as int) <= 0x1_0000_0000_0000_0000int) by (nonlinear_arith)
                requires
                    0 <= mid as int <= 0x1_0000_0000int,
            ;
        }
        let sq: u128 = (mid as u128) * (mid as u128);
        if sq <= n as u128 {
            lo = mid;
        } else {
            hi = mid;
        }
    }
    proof {
        lemma_isqrt_unique(n as nat, lo as nat);
    }
    lo
}

/// Square root in fixed point: `fx_sqrt_spec(x)` stands for `sqrt(x / FX_ONE)`.
pub open spec fn fx_sqrt_spec(x: int) -> int {
    isqrt_spec((x * 1_000_000) as nat) as int
}

pub fn fx_sqrt(x: i64) -> (r: i64)
    requires
        0 <= x <= FX_MUL_IN_MAX,
    ensures
        r == fx_sqrt_spec(x as int),
        0 <= r <= 2_000_000_000,
        x <= FX_ONE ==> r <= FX_ONE,
{
    let n: u64 = (x as u64) * 1_000_000;
    let r = isqrt_u64(n);
    proof {
        lemma_isqrt_bounds(n as nat);
        assert(isqrt_spec(n as nat) <= 2_000_000_000) by (nonlinear_arith)
            requires
                isqrt_spec(n as nat) * isqrt_spec(n as nat) <= n as nat,
                n as nat <= 2_000_000_000_000_000_000,
        ;
        if x <= FX_ONE {
            assert(isqrt_spec(n as nat) <= 1_000_000) by (nonlinear_arith)
                requires
                    isqrt_spec(n as nat) * isqrt_spec(n as nat) <= n as nat,
                    n as nat <= 1_000_000_000_000,
            ;
        }
    }
    r as i64
}

/// Halve a value, truncating toward zero.
pub open spec fn half_spec(a: int) -> int {
    if a < 0 {
        -(absi(a) / 2)
    } else {
        a / 2
    }
}

pub fn half(a: i64) -> (r: i64)
    ensures
        r == half_spec(a as int),
{
    let ua = abs_u(a);
    let h = (ua / 2) as i64;
    if a < 0 {
        -h
    } else {
        h
    }
}

} // verus!
