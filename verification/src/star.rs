//! The quiet stellar disk: limb-darkened chord integration of the
//! reference line profile over the visible disk, the total quiet flux,
//! and the velocity zero-point measured from the integrated profile.

use vstd::prelude::*;

verus! {

use crate::fx::FX_ONE;
use crate::fx::absi;
use crate::fx::clampi;
use crate::fx::fx_mul_spec;
use crate::fx::fx_div_spec;
use crate::fx::fx_div_wide_spec;
use crate::fx::fx_sqrt_spec;
use crate::fx::fx_mul;
use crate::fx::fx_div;
use crate::fx::fx_div_wide;
use crate::fx::fx_sqrt;
use crate::fx::clamp128;
use crate::fx::lemma_fx_mul_bound;
use crate::trig::atan_ratio_spec;
use crate::trig::atan_ratio;
use crate::trig::sin_deg_spec;
use crate::trig::sin_deg;
use crate::profile::Profile;
use crate::profile::shift_index_spec;
use crate::line::centroid_spec;
use crate::line::normalize_at;
use crate::line::normalize;
use crate::line::centroid;
use crate::line::CENT_CLAMP;

/// Largest accepted grid resolution.
pub const GRID_MAX: usize = 10_000;

/// Largest accepted magnitude of a limb-darkening coefficient.
pub const LIMB_MAX: i64 = 2_000_000;

/// Saturation bound of one chord integral.
pub const LI_CLAMP: i64 = 100_000_000;

/// Saturation bound of the equatorial velocity.
pub const EV_CLAMP: i64 = 2_000_000_000_000;

/// Largest accepted photospheric temperature.
pub const TEMP_MAX: i64 = 100_000_000_000;

pub const PERIOD_MIN: i64 = 1_000;

pub const PERIOD_MAX: i64 = 1_000_000_000_000;

pub const RADIUS_MAX: i64 = 100_000_000;

/// Two pi, fixed point.
pub const TWO_PI_FX: i64 = 6_283_185;

/// The solar radius in kilometres, fixed point.
pub const SOLAR_RADIUS_FX: i64 = 696_000_000_000;

/// Seconds per day, fixed point.
pub const DAY_SECONDS_FX: i64 = 86_400_000_000;

/// The smaller of two values.
pub fn min(a: i64, b: i64) -> (r: i64)
    ensures
        r == if a < b {
            a as int
        } else {
            b as int
        },
{
    if a < b {
        a
    } else {
        b
    }
}

/// Quadratic limb-darkening law at line-of-sight cosine `u`.
pub open spec fn limb_brightness_spec(u: int, l1: int, l2: int) -> int {
    FX_ONE as int - fx_mul_spec(l1, FX_ONE as int - u) - fx_mul_spec(
        l2,
        fx_mul_spec(FX_ONE as int - u, FX_ONE as int - u),
    )
}

/// One endpoint term of the closed-form antiderivative of the quadratic
/// limb-darkening law along a chord of the projected disk.
pub open spec fn limb_term_spec(z: int, y: int, l1: int, l2: int) -> int {
    let s = fx_mul_spec(z, z) + fx_mul_spec(y, y);
    let smin = if s > FX_ONE as int {
        FX_ONE as int
    } else {
        s
    };
    let x = fx_sqrt_spec(FX_ONE as int - smin);
    let a = fx_mul_spec(3 * l1, x - 2 * FX_ONE as int);
    let b = fx_mul_spec(2 * l2, 3 * x + 3 * fx_mul_spec(y, y) + fx_mul_spec(z, z) - 6 * (
    FX_ONE as int)) + 6 * FX_ONE as int;
    let t1 = fx_mul_spec(z, a + b);
    let c = fx_mul_spec(3 * (fx_mul_spec(y, y) - FX_ONE as int), l1 + 2 * l2);
    let t2 = fx_mul_spec(c, atan_ratio_spec(z, x));
    fx_div_spec(t1 - t2, 6 * FX_ONE as int)
}

/// Chord integral of the limb-darkening law over `z` in
/// `[z_lower, z_upper]` at disk ordinate `y`; exactly zero on a
/// degenerate bound, saturated at `LI_CLAMP`.
pub open spec fn limb_integral_spec(z_lower: int, z_upper: int, y: int, l1: int, l2: int) -> int {
    if z_lower == z_upper {
        0
    } else {
        clampi(
            limb_term_spec(z_upper, y, l1, l2) - limb_term_spec(z_lower, y, l1, l2),
            LI_CLAMP as int,
        )
    }
}

fn limb_term(z: i64, y: i64, l1: i64, l2: i64) -> (r: i64)
    requires
        -FX_ONE <= z <= FX_ONE,
        -FX_ONE <= y <= FX_ONE,
        -LIMB_MAX <= l1 <= LIMB_MAX,
        -LIMB_MAX <= l2 <= LIMB_MAX,
    ensures
        r == limb_term_spec(z as int, y as int, l1 as int, l2 as int),
        -700_000_000 <= r <= 700_000_000,
{
    let zz = fx_mul(z, z);
    let yy = fx_mul(y, y);
    proof {
        lemma_fx_mul_bound(z as int, z as int, 1_000_000, 1_000_000);
        lemma_fx_mul_bound(y as int, y as int, 1_000_000, 1_000_000);
        vstd::arithmetic::mul::lemma_mul_nonnegative(absi(z as int), absi(z as int));
        vstd::arithmetic::div_mod::lemma_div_pos_is_pos(absi(z as int) * absi(z as int), 1_000_000);
        vstd::arithmetic::mul::lemma_mul_nonnegative(absi(y as int), absi(y as int));
        vstd::arithmetic::div_mod::lemma_div_pos_is_pos(absi(y as int) * absi(y as int), 1_000_000);
    }
    let s = zz + yy;
    let smin = if s > FX_ONE {
        FX_ONE
    } else {
        s
    };
    let x = fx_sqrt(FX_ONE - smin);
    let a = fx_mul(3 * l1, x - 2 * FX_ONE);
    proof {
        lemma_fx_mul_bound(3 * l1 as int, x as int - 2 * FX_ONE as int, 6_000_000, 2_000_000);
    }
    let inner = 3 * x + 3 * yy + zz - 6 * FX_ONE;
    let bm = fx_mul(2 * l2, inner);
    proof {
        lemma_fx_mul_bound(2 * l2 as int, inner as int, 4_000_000, 13_000_000);
    }
    let b = bm + 6 * FX_ONE;
    let t1 = fx_mul(z, a + b);
    proof {
        lemma_fx_mul_bound(z as int, a as int + b as int, 1_000_000, 70_000_000);
    }
    let c = fx_mul(3 * (yy - FX_ONE), l1 + 2 * l2);
    proof {
        lemma_fx_mul_bound(3 * (yy as int - FX_ONE as int), l1 as int + 2 * l2 as int, 3_000_000, 6_000_000);
    }
    let at = atan_ratio(z, x);
    let t2 = fx_mul(c, at);
    proof {
        lemma_fx_mul_bound(c as int, at as int, 18_000_000, 3_141_592);
        crate::fx::lemma_fx_div_bound(t1 as int - t2 as int, 6_000_000, 700);
    }
    fx_div(t1 - t2, 6 * FX_ONE)
}

/// Chord integral of the limb-darkening law; the original formula, with a
/// degenerate bound contributing exactly zero.
pub fn limb_integral(z_lower: i64, z_upper: i64, y: i64, limb_linear: i64, limb_quadratic: i64) -> (r: i64)
    requires
        -FX_ONE <= z_lower <= FX_ONE,
        -FX_ONE <= z_upper <= FX_ONE,
        -FX_ONE <= y <= FX_ONE,
        -LIMB_MAX <= limb_linear <= LIMB_MAX,
        -LIMB_MAX <= limb_quadratic <= LIMB_MAX,
    ensures
        r == limb_integral_spec(
            z_lower as int,
            z_upper as int,
            y as int,
            limb_linear as int,
            limb_quadratic as int,
        ),
        -LI_CLAMP <= r <= LI_CLAMP,
{
    if z_lower == z_upper {
        return 0;
    }
    let tu = limb_term(z_upper, y, limb_linear, limb_quadratic);
    let tl = limb_term(z_lower, y, limb_linear, limb_quadratic);
    let d: i64 = tu - tl;
    if d > LI_CLAMP {
        LI_CLAMP
    } else if d < -LI_CLAMP {
        -LI_CLAMP
    } else {
        d
    }
}

/// Disk ordinate of grid row `a` out of `g`: `2a/g - 1` in fixed point.
pub open spec fn grid_y_spec(a: int, g: int) -> int {
    (a * 2_000_000) / g - 1_000_000
}

fn grid_y(a: usize, g: usize) -> (r: i64)
    requires
        0 < g <= GRID_MAX,
        a <= g,
    ensures
        r == grid_y_spec(a as int, g as int),
        -FX_ONE <= r <= FX_ONE,
{
    proof {
        vstd::arithmetic::mul::lemma_mul_inequality(a as int, g as int, 2_000_000);
        vstd::arithmetic::div_mod::lemma_div_is_ordered(
            a as int * 2_000_000,
            g as int * 2_000_000,
            g as int,
        );
        vstd::arithmetic::div_mod::lemma_div_multiples_vanish(2_000_000, g as int);
        vstd::arithmetic::mul::lemma_mul_nonnegative(a as int, 2_000_000);
        vstd::arithmetic::div_mod::lemma_div_pos_is_pos(a as int * 2_000_000, g as int);
        vstd::arithmetic::mul::lemma_mul_is_commutative(a as int, 2_000_000);
        vstd::arithmetic::mul::lemma_mul_is_commutative(g as int, 2_000_000);
    }
    (((a as u64) * 2_000_000) / (g as u64)) as i64 - 1_000_000
}

/// Chord integral of grid row `a`.
pub open spec fn li_at(a: int, g: int, l1: int, l2: int) -> int {
    let y = grid_y_spec(a, g);
    let zb = fx_sqrt_spec(FX_ONE as int - fx_mul_spec(y, y));
    limb_integral_spec(-zb, zb, y, l1, l2)
}

/// Total quiet flux after the grid rows `0 ..= a`.
pub open spec fn flux_rec(a: int, g: int, l1: int, l2: int) -> int
    decreases a + 1,
{
    if a < 0 {
        0
    } else {
        flux_rec(a - 1, g, l1, l2) + li_at(a, g, l1, l2)
    }
}

/// Amplitude `j` of the disk-integrated profile after grid rows `0 ..= a`:
/// each row contributes its Doppler-shifted profile weighted by its chord
/// integral.
pub open spec fn integ_at(prof: Profile, ev: int, a: int, j: int, g: int, l1: int, l2: int) -> int
    decreases a + 1,
{
    if a < 0 {
        0
    } else {
        integ_at(prof, ev, a - 1, j, g, l1, l2) + fx_mul_spec(
            prof.shifted_at(
                shift_index_spec(fx_mul_spec(grid_y_spec(a, g), ev), prof.step_spec()),
                j,
            ),
            li_at(a, g, l1, l2),
        )
    }
}

proof fn lemma_flux_rec_bound(a: int, g: int, l1: int, l2: int)
    requires
        -1 <= a,
    ensures
        absi(flux_rec(a, g, l1, l2)) <= (a + 1) * 100_000_000,
    decreases a + 1,
{
    if a >= 0 {
        lemma_flux_rec_bound(a - 1, g, l1, l2);
    }
}

proof fn lemma_integ_bound(prof: Profile, ev: int, a: int, j: int, g: int, l1: int, l2: int)
    requires
        -1 <= a,
        prof.wf(),
        0 <= j < prof.len_spec(),
    ensures
        absi(integ_at(prof, ev, a, j, g, l1, l2)) <= (a + 1) * 100_000_000_000,
    decreases a + 1,
{
    if a >= 0 {
        lemma_integ_bound(prof, ev, a - 1, j, g, l1, l2);
        let sh = prof.shifted_at(
            shift_index_spec(fx_mul_spec(grid_y_spec(a, g), ev), prof.step_spec()),
            j,
        );
        assert(-1_000_000_000 <= sh <= 1_000_000_000);
        lemma_fx_mul_bound(sh, li_at(a, g, l1, l2), 1_000_000_000, 100_000_000);
    }
}

/// The equatorial projected rotational velocity:
/// `2 pi radius / period`, scaled to the star, times the sine of the
/// inclination, saturated at `EV_CLAMP`.
pub open spec fn ev_spec(radius: int, period: int, inclination: int) -> int {
    let num = fx_mul_spec(fx_mul_spec(TWO_PI_FX as int, radius), SOLAR_RADIUS_FX as int);
    let den = fx_mul_spec(period, DAY_SECONDS_FX as int);
    let edge = clampi(fx_div_wide_spec(num, den), EV_CLAMP as int);
    fx_mul_spec(edge, sin_deg_spec(inclination))
}

/// The disk-integrated profile normalized against its first amplitude.
pub open spec fn norm_seq(s: Seq<i64>) -> Seq<i64> {
    Seq::new(s.len(), |j: int| normalize_at(s, j) as i64)
}

#[derive(Debug)]
pub struct Star {
    /// Rotation period in fixed-point days.
    pub period: i64,
    /// Inclination in fixed-point degrees, in `[0, 360)`.
    pub inclination: i64,
    /// Photospheric temperature in fixed-point kelvin.
    pub temperature: i64,
    /// Temperature offset of a dark region, in fixed-point kelvin.
    pub spot_temp_diff: i64,
    pub limb_linear: i64,
    pub limb_quadratic: i64,
    /// Number of grid rows of the disk integration.
    pub grid_size: usize,
    /// Total limb-darkened quiet flux; positive for an accepted star.
    pub flux_quiet: i64,
    /// Velocity zero-point: the centroid measured on the quiet profile.
    pub zero_rv: i64,
    pub equatorial_velocity: i64,
    /// The disk-integrated quiet line profile.
    pub integrated_ccf: Vec<i64>,
    pub profile_quiet: Profile,
    pub profile_active: Profile,
}

impl Star {
    pub open spec fn wf(self) -> bool {
        &&& self.profile_quiet.wf()
        &&& self.profile_active.wf()
        &&& self.profile_active.len_spec() == self.profile_quiet.len_spec()
        &&& 0 < self.grid_size <= GRID_MAX
        &&& PERIOD_MIN <= self.period <= PERIOD_MAX
        &&& 0 <= self.inclination < 360_000_000
        &&& 0 < self.temperature <= TEMP_MAX
        &&& 0 <= self.spot_temp_diff < self.temperature
        &&& -LIMB_MAX <= self.limb_linear <= LIMB_MAX
        &&& -LIMB_MAX <= self.limb_quadratic <= LIMB_MAX
        &&& 0 < self.flux_quiet <= 1_000_100_000_000
        &&& -EV_CLAMP <= self.equatorial_velocity <= EV_CLAMP
        &&& -CENT_CLAMP <= self.zero_rv <= CENT_CLAMP
        &&& self.integrated_ccf@.len() == self.profile_quiet.len_spec()
        &&& self.zero_rv == centroid_spec(self.profile_quiet.rv@, norm_seq(self.integrated_ccf@))
        &&& forall|j: int|
            0 <= j < self.integrated_ccf@.len() ==> -1_000_100_000_000_000
                <= #[trigger] self.integrated_ccf@[j] <= 1_000_100_000_000_000
    }

    /// The chord integral with this star's limb coefficients.
    pub fn limb_integral(&self, z_lower: i64, z_upper: i64, y: i64) -> (r: i64)
        requires
            self.wf(),
            -FX_ONE <= z_lower <= FX_ONE,
            -FX_ONE <= z_upper <= FX_ONE,
            -FX_ONE <= y <= FX_ONE,
        ensures
            r == limb_integral_spec(
                z_lower as int,
                z_upper as int,
                y as int,
                self.limb_linear as int,
                self.limb_quadratic as int,
            ),
            -LI_CLAMP <= r <= LI_CLAMP,
    {
        limb_integral(z_lower, z_upper, y, self.limb_linear, self.limb_quadratic)
    }

    /// The limb-darkening law with this star's coefficients.
    pub fn limb_brightness(&self, u: i64) -> (r: i64)
        requires
            self.wf(),
            0 <= u <= FX_ONE,
        ensures
            r == limb_brightness_spec(u as int, self.limb_linear as int, self.limb_quadratic as int),
            -5_000_000 <= r <= 5_000_000,
    {
        let w = FX_ONE - u;
        let ww = fx_mul(w, w);
        proof {
            lemma_fx_mul_bound(w as int, w as int, 1_000_000, 1_000_000);
            vstd::arithmetic::mul::lemma_mul_nonnegative(absi(w as int), absi(w as int));
            vstd::arithmetic::div_mod::lemma_div_pos_is_pos(
                absi(w as int) * absi(w as int),
                1_000_000,
            );
            lemma_fx_mul_bound(self.limb_linear as int, w as int, 2_000_000, 1_000_000);
            lemma_fx_mul_bound(self.limb_quadratic as int, ww as int, 2_000_000, 1_000_000);
        }
        FX_ONE - fx_mul(self.limb_linear, w) - fx_mul(self.limb_quadratic, ww)
    }

    /// Build the quiet disk: integrate the Doppler-shifted reference
    /// profile over the limb-darkened disk, total the quiet flux, and
    /// measure the velocity zero-point on the normalized result. Returns
    /// `None` exactly when the accumulated quiet flux is not positive.
    pub fn new(
        radius: i64,
        period: i64,
        inclination: i64,
        temperature: i64,
        spot_temp_diff: i64,
        limb_linear: i64,
        limb_quadratic: i64,
        grid_size: usize,
        profile_quiet: Profile,
        profile_active: Profile,
    ) -> (r: Option<Star>)
        requires
            0 < radius <= RADIUS_MAX,
            PERIOD_MIN <= period <= PERIOD_MAX,
            0 <= inclination < 360_000_000,
            0 < temperature <= TEMP_MAX,
            0 <= spot_temp_diff < temperature,
            -LIMB_MAX <= limb_linear <= LIMB_MAX,
            -LIMB_MAX <= limb_quadratic <= LIMB_MAX,
            0 < grid_size <= GRID_MAX,
            profile_quiet.wf(),
            profile_active.wf(),
            profile_quiet.len_spec() == profile_active.len_spec(),
        ensures
            (r is None) <==> flux_rec(
                grid_size as int,
                grid_size as int,
                limb_linear as int,
                limb_quadratic as int,
            ) <= 0,
            r is Some ==> {
                let s = r->0;
                &&& s.wf()
                &&& s.period == period
                &&& s.inclination == inclination
                &&& s.temperature == temperature
                &&& s.spot_temp_diff == spot_temp_diff
                &&& s.limb_linear == limb_linear
                &&& s.limb_quadratic == limb_quadratic
                &&& s.grid_size == grid_size
                &&& s.profile_quiet == profile_quiet
                &&& s.profile_active == profile_active
                &&& s.equatorial_velocity == ev_spec(radius as int, period as int, inclination as int)
                &&& s.flux_quiet == flux_rec(
                    grid_size as int,
                    grid_size as int,
                    limb_linear as int,
                    limb_quadratic as int,
                )
                &&& (forall|j: int|
                    0 <= j < s.integrated_ccf@.len() ==> #[trigger] s.integrated_ccf@[j] == integ_at(
                        profile_quiet,
                        ev_spec(radius as int, period as int, inclination as int),
                        grid_size as int,
                        j,
                        grid_size as int,
                        limb_linear as int,
                        limb_quadratic as int,
                    ))
                &&& s.zero_rv == centroid_spec(
                    profile_quiet.rv@,
                    norm_seq(s.integrated_ccf@),
                )
            },
    {
        let ghost gi: int = grid_size as int;
        let ghost l1i: int = limb_linear as int;
        let ghost l2i: int = limb_quadratic as int;

        // Equatorial velocity.
        let a0 = fx_mul(TWO_PI_FX, radius);
        proof {
            lemma_fx_mul_bound(TWO_PI_FX as int, radius as int, 6_283_185, 100_000_000);
        }
        let num = fx_mul(a0, SOLAR_RADIUS_FX);
        let den = fx_mul(period, DAY_SECONDS_FX);
        proof {
            lemma_fx_mul_bound(period as int, DAY_SECONDS_FX as int, 1_000_000_000_000, 86_400_000_000);
            assert(absi(period as int) * absi(DAY_SECONDS_FX as int) >= 86_400_000_000_000int)
                by (nonlinear_arith)
                requires
                    absi(period as int) >= 1_000,
                    absi(DAY_SECONDS_FX as int) == 86_400_000_000,
            ;
            vstd::arithmetic::div_mod::lemma_div_is_ordered(
                86_400_000_000_000int,
                absi(period as int) * absi(DAY_SECONDS_FX as int),
                1_000_000,
            );
        }
        let edge = fx_div_wide(num as i128, den as i128);
        let edge_c = clamp128(edge as i128, EV_CLAMP);
        let si = sin_deg(inclination);
        let ev = fx_mul(edge_c, si);
        proof {
            lemma_fx_mul_bound(edge_c as int, si as int, 2_000_000_000_000, 1_000_000);
        }

        let n = profile_quiet.len();
        let mut integ: Vec<i64> = Vec::new();
        let mut j0: usize = 0;
        while j0 < n
            invariant
                j0 <= n,
                integ@.len() == j0,
                forall|q: int| 0 <= q < j0 ==> #[trigger] integ@[q] == 0,
            decreases n - j0,
        {
            integ.push(0);
            j0 += 1;
        }

        let mut flux: i64 = 0;
        let mut a: usize = 0;
        proof {
            assert(forall|q: int|
                0 <= q < n ==> #[trigger] integ@[q] == integ_at(
                    profile_quiet,
                    ev as int,
                    -1,
                    q,
                    gi,
                    l1i,
                    l2i,
                ));
        }
        while a <= grid_size
            invariant
                profile_quiet.wf(),
                0 < grid_size <= GRID_MAX,
                -LIMB_MAX <= limb_linear <= LIMB_MAX,
                -LIMB_MAX <= limb_quadratic <= LIMB_MAX,
                -EV_CLAMP <= ev <= EV_CLAMP,
                gi == grid_size as int,
                l1i == limb_linear as int,
                l2i == limb_quadratic as int,
                a <= grid_size + 1,
                n == profile_quiet.len_spec(),
                integ@.len() == n,
                flux == flux_rec(a - 1, gi, l1i, l2i),
                absi(flux as int) <= (a as int) * 100_000_000,
                forall|q: int|
                    0 <= q < n ==> #[trigger] integ@[q] == integ_at(
                        profile_quiet,
                        ev as int,
                        a - 1,
                        q,
                        gi,
                        l1i,
                        l2i,
                    ),
                forall|q: int|
                    0 <= q < n ==> -1_000_100_000_000_000 <= #[trigger] integ@[q]
                        <= 1_000_100_000_000_000,
            decreases grid_size + 1 - a,
        {
            let y = grid_y(a, grid_size);
            let yy = fx_mul(y, y);
            proof {
                lemma_fx_mul_bound(y as int, y as int, 1_000_000, 1_000_000);
                vstd::arithmetic::mul::lemma_mul_nonnegative(absi(y as int), absi(y as int));
                vstd::arithmetic::div_mod::lemma_div_pos_is_pos(
                    absi(y as int) * absi(y as int),
                    1_000_000,
                );
            }
            let zb = fx_sqrt(FX_ONE - yy);
            let li = limb_integral(-zb, zb, y, limb_linear, limb_quadratic);
            let v = fx_mul(y, ev);
            proof {
                lemma_fx_mul_bound(y as int, ev as int, 1_000_000, 2_000_000_000_000);
            }
            let shifted = profile_quiet.shift(v);
            let mut j: usize = 0;
            while j < n
                invariant
                    profile_quiet.wf(),
                    0 < grid_size <= GRID_MAX,
                    a <= grid_size,
                    gi == grid_size as int,
                    n == profile_quiet.len_spec(),
                    integ@.len() == n,
                    shifted@.len() == n,
                    -LI_CLAMP <= li <= LI_CLAMP,
                    li == li_at(a as int, gi, l1i, l2i),
                    forall|q: int|
                        0 <= q < n ==> #[trigger] shifted@[q] == profile_quiet.shifted_at(
                            shift_index_spec(
                                fx_mul_spec(grid_y_spec(a as int, gi), ev as int),
                                profile_quiet.step_spec(),
                            ),
                            q,
                        ),
                    j <= n,
                    forall|q: int|
                        j <= q < n ==> #[trigger] integ@[q] == integ_at(
                            profile_quiet,
                            ev as int,
                            a - 1,
                            q,
                            gi,
                            l1i,
                            l2i,
                        ),
                    forall|q: int|
                        0 <= q < j ==> #[trigger] integ@[q] == integ_at(
                            profile_quiet,
                            ev as int,
                            a as int,
                            q,
                            gi,
                            l1i,
                            l2i,
                        ),
                    forall|q: int|
                        0 <= q < n ==> -1_000_200_000_000_000 <= #[trigger] integ@[q]
                            <= 1_000_200_000_000_000,
                decreases n - j,
            {
                proof {
                    lemma_integ_bound(profile_quiet, ev as int, a - 1, j as int, gi, l1i, l2i);
                    assert(-1_000_000_000 <= shifted@[j as int] <= 1_000_000_000);
                    lemma_fx_mul_bound(shifted@[j as int] as int, li as int, 1_000_000_000, 100_000_000);
                }
                let add = fx_mul(shifted[j], li);
                let old_v = integ[j];
                integ.set(j, old_v + add);
                j += 1;
            }
            proof {
                lemma_flux_rec_bound(a - 1, gi, l1i, l2i);
            }
            flux = flux + li;
            a += 1;
            proof {
                assert forall|q: int| 0 <= q < n implies -1_000_100_000_000_000
                    <= #[trigger] integ@[q] <= 1_000_100_000_000_000 by {
                    lemma_integ_bound(profile_quiet, ev as int, a - 1, q, gi, l1i, l2i);
                }
            }
        }
        if flux <= 0 {
            proof {
                assert(flux_rec(gi, gi, l1i, l2i) <= 0);
            }
            return None;
        }
        let norm = normalize(&integ);
        proof {
            assert(norm@ =~= norm_seq(integ@));
        }
        let zrv = centroid(&profile_quiet.rv, &norm);
        Some(
            Star {
                period,
                inclination,
                temperature,
                spot_temp_diff,
                limb_linear,
                limb_quadratic,
                grid_size,
                flux_quiet: flux,
                zero_rv: zrv,
                equatorial_velocity: ev,
                integrated_ccf: integ,
                profile_quiet,
                profile_active,
            },
        )
    }
}

} // verus!
