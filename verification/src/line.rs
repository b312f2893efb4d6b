//! Measurements on an observed line profile: continuum normalization, a
//! deterministic depth-weighted centroid standing in for a least-squares
//! line fit, and a depth-weighted bisector extractor. All are exact
//! functions of their inputs, so two measurements of equal profiles are
//! equal — the property behind the radial-velocity zero-point.

use vstd::prelude::*;

verus! {

use crate::fx::absi;
use crate::fx::clampi;
use crate::fx::tdiv_spec;
use crate::fx::fx_div_wide_spec;
use crate::fx::fx_div_wide;
use crate::fx::half_spec;
use crate::fx::half;
use crate::profile::RV_MAX;
use crate::profile::PROF_LEN_MAX;

/// Largest amplitude magnitude accepted by the measurement routines.
pub const AMP_MAX: i64 = 4_000_000_000_000_000;

/// Saturation bound of a reported centroid or bisector velocity.
pub const CENT_CLAMP: i64 = 100_000_000_000;

pub open spec fn amps_ok(s: Seq<i64>) -> bool {
    forall|j: int| 0 <= j < s.len() ==> -AMP_MAX <= #[trigger] s[j] <= AMP_MAX
}

pub open spec fn rv_ok(s: Seq<i64>) -> bool {
    forall|j: int| 0 <= j < s.len() ==> -RV_MAX <= #[trigger] s[j] <= RV_MAX
}

/// Amplitude of the profile normalized against its first sample, which
/// plays the continuum; a zero continuum leaves the profile unchanged.
pub open spec fn normalize_at(s: Seq<i64>, j: int) -> int {
    if s[0] == 0 {
        s[j] as int
    } else {
        fx_div_wide_spec(s[j] as int, s[0] as int)
    }
}

pub fn normalize(p: &Vec<i64>) -> (r: Vec<i64>)
    requires
        1 <= p@.len() <= PROF_LEN_MAX,
        amps_ok(p@),
    ensures
        r@.len() == p@.len(),
        forall|j: int| 0 <= j < r@.len() ==> #[trigger] r@[j] == normalize_at(p@, j),
        amps_ok(r@),
{
    let n = p.len();
    let base = p[0];
    let mut r: Vec<i64> = Vec::new();
    let mut j: usize = 0;
    while j < n
        invariant
            n == p@.len(),
            1 <= n <= PROF_LEN_MAX,
            amps_ok(p@),
            base == p@[0],
            j <= n,
            r@.len() == j,
            forall|q: int| 0 <= q < j ==> #[trigger] r@[q] == normalize_at(p@, q),
            forall|q: int| 0 <= q < j ==> -AMP_MAX <= #[trigger] r@[q] <= AMP_MAX,
        decreases n - j,
    {
        let v = if base == 0 {
            p[j]
        } else {
            fx_div_wide(p[j] as i128, base as i128)
        };
        r.push(v);
        j += 1;
    }
    r
}

/// Line depth at sample `j`: how far the amplitude lies below the first
/// sample, floored at zero.
pub open spec fn depth_at(s: Seq<i64>, j: int) -> int {
    let d = s[0] - s[j];
    if d < 0 {
        0
    } else {
        d
    }
}

pub open spec fn cent_num_rec(rv: Seq<i64>, s: Seq<i64>, j: int) -> int
    decreases j + 1,
{
    if j < 0 {
        0
    } else {
        cent_num_rec(rv, s, j - 1) + rv[j] * depth_at(s, j)
    }
}

pub open spec fn cent_den_rec(s: Seq<i64>, j: int) -> int
    decreases j + 1,
{
    if j < 0 {
        0
    } else {
        cent_den_rec(s, j - 1) + depth_at(s, j)
    }
}

/// Depth-weighted centroid of the velocity grid: the stand-in line fit.
/// A flat profile (no depth anywhere) reports velocity zero.
pub open spec fn centroid_spec(rv: Seq<i64>, s: Seq<i64>) -> int {
    let num = cent_num_rec(rv, s, s.len() - 1);
    let den = cent_den_rec(s, s.len() - 1);
    if den == 0 {
        0
    } else {
        clampi(tdiv_spec(num, den), CENT_CLAMP as int)
    }
}

proof fn lemma_cent_bounds(rv: Seq<i64>, s: Seq<i64>, j: int)
    requires
        rv_ok(rv),
        amps_ok(s),
        s.len() >= 1,
        rv.len() == s.len(),
        -1 <= j < s.len(),
    ensures
        absi(cent_num_rec(rv, s, j)) <= (j + 1) * 800_000_000_000_000_000_000_000_000,
        0 <= cent_den_rec(s, j) <= (j + 1) * 8_000_000_000_000_000,
    decreases j + 1,
{
    if j < 0 {
    } else {
        lemma_cent_bounds(rv, s, j - 1);
        assert(absi(rv[j] * depth_at(s, j)) <= 800_000_000_000_000_000_000_000_000int)
            by (nonlinear_arith)
            requires
                -100_000_000_000int <= rv[j] <= 100_000_000_000int,
                0 <= depth_at(s, j) <= 8_000_000_000_000_000int,
        ;
    }
}

pub fn centroid(rv: &Vec<i64>, p: &Vec<i64>) -> (r: i64)
    requires
        rv@.len() == p@.len(),
        1 <= p@.len() <= PROF_LEN_MAX,
        amps_ok(p@),
        rv_ok(rv@),
    ensures
        r == centroid_spec(rv@, p@),
        -CENT_CLAMP <= r <= CENT_CLAMP,
{
    let n = p.len();
    let base = p[0];
    let mut num: i128 = 0;
    let mut den: i128 = 0;
    let mut j: usize = 0;
    while j < n
        invariant
            n == p@.len() == rv@.len(),
            1 <= n <= PROF_LEN_MAX,
            amps_ok(p@),
            rv_ok(rv@),
            base == p@[0],
            j <= n,
            num == cent_num_rec(rv@, p@, j - 1),
            den == cent_den_rec(p@, j - 1),
            absi(num as int) <= (j as int) * 800_000_000_000_000_000_000_000_000,
            0 <= den <= (j as int) * 8_000_000_000_000_000,
        decreases n - j,
    {
        proof {
            lemma_cent_bounds(rv@, p@, j as int);
            assert(absi(rv@[j as int] * depth_at(p@, j as int)) <= 800_000_000_000_000_000_000_000_000int) by (nonlinear_arith)
                requires
                    -100_000_000_000int <= rv@[j as int] <= 100_000_000_000int,
                    0 <= depth_at(p@, j as int) <= 8_000_000_000_000_000int,
            ;
        }
        let d0 = p[j];
        let d: i64 = if (base as i128) - (d0 as i128) < 0i128 {
            0
        } else {
            base - d0
        };
        proof {
            assert(absi(rv@[j as int] * (d as int)) <= 800_000_000_000_000_000_000_000_000int)
                by (nonlinear_arith)
                requires
                    -100_000_000_000int <= rv@[j as int] <= 100_000_000_000int,
                    0 <= d as int <= 8_000_000_000_000_000int,
            ;
        }
        num = num + (rv[j] as i128) * (d as i128);
        den = den + (d as i128);
        j += 1;
    }
    if den == 0 {
        0
    } else {
        let neg = num < 0;
        let mag: u128 = if num < 0 {
            (-num) as u128
        } else {
            num as u128
        };
        let q = mag / (den as u128);
        let qc: i64 = if q > CENT_CLAMP as u128 {
            CENT_CLAMP
        } else {
            q as i64
        };
        proof {
            vstd::arithmetic::div_mod::lemma_div_nonincreasing(mag as int, den as int);
            vstd::arithmetic::div_mod::lemma_div_pos_is_pos(mag as int, den as int);
        }
        if neg {
            -qc
        } else {
            qc
        }
    }
}

/// One bisector point: the depth-weighted midpoint of a symmetric pair of
/// grid velocities; with no depth on either wing, the plain midpoint.
pub open spec fn bisect_at(rv: Seq<i64>, s: Seq<i64>, k: int) -> int {
    let m = rv.len() - 1 - k;
    let w1 = depth_at(s, k);
    let w2 = depth_at(s, m);
    if w1 + w2 == 0 {
        half_spec(rv[k] + rv[m])
    } else {
        clampi(tdiv_spec(rv[k] * w1 + rv[m] * w2, w1 + w2), CENT_CLAMP as int)
    }
}

pub fn bisector(rv: &Vec<i64>, p: &Vec<i64>) -> (r: Vec<i64>)
    requires
        rv@.len() == p@.len(),
        1 <= p@.len() <= PROF_LEN_MAX,
        amps_ok(p@),
        rv_ok(rv@),
    ensures
        r@.len() == p@.len() / 2,
        forall|k: int| 0 <= k < r@.len() ==> #[trigger] r@[k] == bisect_at(rv@, p@, k),
        forall|k: int| 0 <= k < r@.len() ==> -CENT_CLAMP <= #[trigger] r@[k] <= CENT_CLAMP,
{
    let n = p.len();
    let mut r: Vec<i64> = Vec::new();
    let mut k: usize = 0;
    while k < n / 2
        invariant
            n == p@.len() == rv@.len(),
            1 <= n <= PROF_LEN_MAX,
            amps_ok(p@),
            rv_ok(rv@),
            k <= n / 2,
            r@.len() == k,
            forall|q: int| 0 <= q < k ==> #[trigger] r@[q] == bisect_at(rv@, p@, q),
            forall|q: int| 0 <= q < k ==> -CENT_CLAMP <= #[trigger] r@[q] <= CENT_CLAMP,
        decreases n / 2 - k,
    {
        let m = n - 1 - k;
        let base = p[0];
        let w1: i64 = if (base as i128) - (p[k] as i128) < 0i128 {
            0
        } else {
            base - p[k]
        };
        let w2: i64 = if (base as i128) - (p[m] as i128) < 0i128 {
            0
        } else {
            base - p[m]
        };
        let b: i64 = if w1 == 0 && w2 == 0 {
            half(rv[k] + rv[m])
        } else {
            proof {
                assert(absi(rv@[k as int] * w1 + rv@[m as int] * w2) <= 1_600_000_000_000_000_000_000_000_000int) by (nonlinear_arith)
                    requires
                        -100_000_000_000int <= rv@[k as int] <= 100_000_000_000int,
                        -100_000_000_000int <= rv@[m as int] <= 100_000_000_000int,
                        0 <= w1 as int <= 8_000_000_000_000_000int,
                        0 <= w2 as int <= 8_000_000_000_000_000int,
                ;
            }
            proof {
                assert(absi(rv@[k as int] * (w1 as int)) <= 800_000_000_000_000_000_000_000_000int)
                    by (nonlinear_arith)
                    requires
                        -100_000_000_000int <= rv@[k as int] <= 100_000_000_000int,
                        0 <= w1 as int <= 8_000_000_000_000_000int,
                ;
                assert(absi(rv@[m as int] * (w2 as int)) <= 800_000_000_000_000_000_000_000_000int)
                    by (nonlinear_arith)
                    requires
                        -100_000_000_000int <= rv@[m as int] <= 100_000_000_000int,
                        0 <= w2 as int <= 8_000_000_000_000_000int,
                ;
            }
            let num: i128 = (rv[k] as i128) * (w1 as i128) + (rv[m] as i128) * (w2 as i128);
            let den: i128 = (w1 as i128) + (w2 as i128);
            let neg = num < 0;
            let mag: u128 = if num < 0 {
                (-num) as u128
            } else {
                num as u128
            };
            let q = mag / (den as u128);
            let qc: i64 = if q > CENT_CLAMP as u128 {
                CENT_CLAMP
            } else {
                q as i64
            };
            proof {
                vstd::arithmetic::div_mod::lemma_div_nonincreasing(mag as int, den as int);
                vstd::arithmetic::div_mod::lemma_div_pos_is_pos(mag as int, den as int);
            }
            if neg {
                -qc
            } else {
                qc
            }
        };
        proof {
            assert(-CENT_CLAMP as int <= half_spec(rv@[k as int] + rv@[m as int])
                <= CENT_CLAMP as int);
        }
        r.push(b);
        k += 1;
    }
    r
}

} // verus!
