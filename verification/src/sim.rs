//! The simulator: owns the quiet disk and the growable region
//! population, maintains the configured fill factor by rejection-sampled
//! random packing, and runs the per-time observation pipelines in
//! parallel over the time grid.

use vstd::prelude::*;

verus! {

use crate::fx::FX_ONE;
use crate::fx::absi;
use crate::fx::clampi;
use crate::fx::fx_mul_spec;
use crate::fx::fx_div_wide_spec;
use crate::fx::fx_mul;
use crate::fx::fx_div_wide;
use crate::fx::clamp128;
use crate::fx::lemma_fx_mul_bound;
use crate::trig::cos_deg_spec;
use crate::trig::sin_deg_spec;
use crate::trig::norm_deg_spec;
use crate::trig::cos_deg;
use crate::trig::sin_deg;
use crate::trig::DEG_360;
use crate::region::Region;
use crate::region::LIFETIME;
use crate::region::TIME_HORIZON;
use crate::region::INTENSITY_MAX;
use crate::region::lemma_overlap_hits_endpoint;
use crate::star::Star;
use crate::star::limb_brightness_spec;
use crate::star::norm_seq;
use crate::line::centroid_spec;
use crate::line::bisect_at;
use crate::line::normalize;
use crate::line::centroid;
use crate::line::bisector;
use crate::line::AMP_MAX;
use crate::line::CENT_CLAMP;
use crate::profile::shift_index_spec;
use rayon::iter::IntoParallelRefIterator;
use rayon::iter::ParallelIterator;

/// Largest accepted observation time.
pub const TIME_MAX: i64 = 985_000_000_000_000;

/// Largest accepted fill-factor target.
pub const FILL_MAX: i64 = 1_000_000;

/// A sampled candidate size is rejected at or above this cutoff.
pub const SIZE_CUTOFF: i64 = 1_000;

/// Retry budget of one maintenance call.
pub const GROW_ATTEMPTS: usize = 100_000;

/// An observed radial velocity and line bisector.
#[derive(Debug)]
pub struct Observation {
    /// The radial velocity, relative to the quiet-star zero-point.
    pub rv: i64,
    /// The line bisector velocities, relative to the same zero-point.
    pub bisector: Vec<i64>,
}

#[verifier::external_type_specification]
#[verifier::external_body]
pub struct ExStdRng(rand::rngs::StdRng);

/// Relies on rand's `SeedableRng::from_entropy`: a generator seeded from
/// the operating system; nothing is promised of its state.
#[verifier::external_body]
fn rng_from_entropy() -> rand::rngs::StdRng {
    rand::SeedableRng::from_entropy()
}

/// The shape of every region the maintenance process appends: a dark
/// region of bounded size inside the sampling latitude band, with a life
/// window of exactly `LIFETIME` and an intensity not yet computed.
pub open spec fn grown(r: Region) -> bool {
    &&& r.time_disappear - r.time_appear == LIFETIME
    &&& !r.plage
    &&& r.intensity == 0
    &&& 2 <= r.size < SIZE_CUTOFF
    &&& -30_000_000 <= r.latitude <= 30_000_000
}

/// A region appended by the maintenance process at `time`.
pub open spec fn grown_at(r: Region, time: int) -> bool {
    grown(r) && r.time_appear == time
}

/// One region's pair obligation: if ever simultaneously alive, they do
/// not collide.
pub open spec fn pair_ok(a: Region, b: Region) -> bool {
    a.windows_overlap(b) ==> !a.collides_spec(b)
}

pub open spec fn pairwise_ok(s: Seq<Region>) -> bool {
    forall|i: int, j: int| 0 <= i < j < s.len() ==> #[trigger] pair_ok(s[i], s[j])
}

pub open spec fn all_wf(s: Seq<Region>) -> bool {
    forall|i: int| 0 <= i < s.len() ==> #[trigger] s[i].wf()
}

/// Summed covered area of the regions alive at `t`, in squared units.
pub open spec fn coverage_rec(s: Seq<Region>, t: int) -> int
    decreases s.len(),
{
    if s.len() == 0 {
        0
    } else {
        coverage_rec(s.drop_last(), t) + if s.last().alive_spec(t) {
            s.last().area_spec()
        } else {
            0
        }
    }
}

proof fn lemma_area_bounds(r: Region)
    requires
        r.wf(),
    ensures
        0 <= r.area_spec() <= 500_000_000_000,
{
    assert(0 <= r.size * r.size <= 1_000_000_000_000int) by (nonlinear_arith)
        requires
            0 <= r.size <= 1_000_000int,
    ;
}

proof fn lemma_coverage_bounds(s: Seq<Region>, t: int)
    requires
        all_wf(s),
    ensures
        0 <= coverage_rec(s, t) <= s.len() * 500_000_000_000,
    decreases s.len(),
{
    if s.len() > 0 {
        assert(all_wf(s.drop_last()));
        lemma_coverage_bounds(s.drop_last(), t);
        lemma_area_bounds(s.last());
    }
}

proof fn lemma_coverage_take(s: Seq<Region>, t: int, i: int)
    requires
        0 <= i < s.len(),
    ensures
        coverage_rec(s.take(i + 1), t) == coverage_rec(s.take(i), t) + if s[i].alive_spec(t) {
            s[i].area_spec()
        } else {
            0
        },
{
    assert(s.take(i + 1).drop_last() =~= s.take(i));
    assert(s.take(i + 1).last() == s[i]);
}

proof fn lemma_coverage_push(s: Seq<Region>, c: Region, t: int)
    ensures
        coverage_rec(s.push(c), t) == coverage_rec(s, t) + if c.alive_spec(t) {
            c.area_spec()
        } else {
            0
        },
{
    assert(s.push(c).drop_last() =~= s);
    assert(s.push(c).last() == c);
}

proof fn lemma_pairwise_push(s: Seq<Region>, c: Region, t: int)
    requires
        pairwise_ok(s),
        all_wf(s),
        c.wf(),
        c.time_appear == t,
        c.time_disappear == t + LIFETIME,
        0 <= t <= TIME_HORIZON - LIFETIME,
        forall|k: int|
            0 <= k < s.len() ==> ((#[trigger] s[k].alive_spec(t) || s[k].alive_spec(
                t + LIFETIME,
            )) ==> !c.collides_spec(s[k])),
    ensures
        pairwise_ok(s.push(c)),
{
    assert forall|i: int, j: int| 0 <= i < j < s.push(c).len() implies #[trigger] pair_ok(
        s.push(c)[i],
        s.push(c)[j],
    ) by {
        if j < s.len() {
            assert(pair_ok(s[i], s[j]));
        } else {
            let e = s[i];
            if e.windows_overlap(c) {
                lemma_overlap_hits_endpoint(e, t);
                assert(!c.collides_spec(e));
                assert(!e.collides_spec(c));
            }
        }
    }
}

/// Relative brightness of a region against the quiet photosphere for the
/// current band: the fourth power of the temperature ratio, saturated.
pub open spec fn intensity_spec(star: Star, plage: bool) -> int {
    let tr = if plage {
        star.temperature + star.spot_temp_diff
    } else {
        star.temperature - star.spot_temp_diff
    };
    let ratio = clampi(crate::fx::fx_div_spec(tr, star.temperature as int), 10_000_000);
    let r2 = fx_mul_spec(ratio, ratio);
    clampi(fx_mul_spec(r2, r2), INTENSITY_MAX as int)
}

fn intensity_exec(star: &Star, plage: bool) -> (r: i64)
    requires
        star.wf(),
    ensures
        r == intensity_spec(*star, plage),
        0 <= r <= INTENSITY_MAX,
{
    let tr = if plage {
        star.temperature + star.spot_temp_diff
    } else {
        star.temperature - star.spot_temp_diff
    };
    let rat = crate::fx::fx_div(tr, star.temperature);
    let rat_c = clamp128(rat as i128, 10_000_000);
    let r2 = fx_mul(rat_c, rat_c);
    proof {
        lemma_fx_mul_bound(rat_c as int, rat_c as int, 10_000_000, 10_000_000);
        lemma_fx_mul_bound(r2 as int, r2 as int, 100_000_000, 100_000_000);
        vstd::arithmetic::mul::lemma_mul_nonnegative(absi(rat_c as int), absi(rat_c as int));
        vstd::arithmetic::div_mod::lemma_div_pos_is_pos(
            absi(rat_c as int) * absi(rat_c as int),
            1_000_000,
        );
        vstd::arithmetic::mul::lemma_mul_nonnegative(absi(r2 as int), absi(r2 as int));
        vstd::arithmetic::div_mod::lemma_div_pos_is_pos(
            absi(r2 as int) * absi(r2 as int),
            1_000_000,
        );
    }
    let i4 = fx_mul(r2, r2);
    if i4 > INTENSITY_MAX {
        INTENSITY_MAX
    } else {
        i4
    }
}

/// Rotation angle of the disk at time `t`, in fixed-point degrees.
pub open spec fn rot_deg_spec(t: int, period: int) -> int {
    ((360_000_000 * t) / period) % 360_000_000
}

/// Longitude at which a region faces the observer at time `t`.
pub open spec fn long_now_spec(r: Region, t: int, period: int) -> int {
    norm_deg_spec(r.longitude + rot_deg_spec(t, period))
}

/// Line-of-sight cosine of a region's center.
pub open spec fn mu_spec(r: Region, star: Star, t: int) -> int {
    fx_mul_spec(
        cos_deg_spec(r.latitude as int),
        cos_deg_spec(long_now_spec(r, t, star.period as int)),
    )
}

/// The limb-darkened brightness deficit of a region, relative units.
pub open spec fn weight_spec(r: Region, star: Star, t: int) -> int {
    if !r.alive_spec(t) {
        0
    } else {
        let mu = mu_spec(r, star, t);
        if mu <= 0 {
            0
        } else {
            let deficit = fx_mul_spec(FX_ONE as int - r.intensity, r.area_spec() / 1_000_000);
            fx_mul_spec(
                deficit,
                limb_brightness_spec(mu, star.limb_linear as int, star.limb_quadratic as int),
            )
        }
    }
}

/// A region's absolute flux deficit at time `t`.
pub open spec fn spot_flux_spec(r: Region, star: Star, t: int) -> int {
    fx_mul_spec(weight_spec(r, star, t), star.flux_quiet as int)
}

fn rot_deg(t: i64, period: i64) -> (r: i64)
    requires
        0 <= t,
        period > 0,
    ensures
        r == rot_deg_spec(t as int, period as int),
        0 <= r < DEG_360,
{
    let n: u128 = 360_000_000u128 * (t as u128);
    let q = (n / (period as u128)) % 360_000_000;
    proof {
        vstd::arithmetic::mul::lemma_mul_nonnegative(360_000_000, t as int);
        vstd::arithmetic::div_mod::lemma_div_pos_is_pos(360_000_000 * (t as int), period as int);
        vstd::arithmetic::div_mod::lemma_mod_bound(
            (360_000_000 * (t as int)) / (period as int),
            360_000_000,
        );
    }
    q as i64
}

fn mu_exec(r: &Region, star: &Star, t: i64) -> (m: i64)
    requires
        r.wf(),
        star.wf(),
        0 <= t,
    ensures
        m == mu_spec(*r, *star, t as int),
        -FX_ONE <= m <= FX_ONE,
{
    let rot = rot_deg(t, star.period);
    let sum = r.longitude + rot;
    let ln = if sum >= DEG_360 {
        sum - DEG_360
    } else {
        sum
    };
    let c1 = cos_deg(r.latitude);
    let c2 = cos_deg(ln);
    proof {
        lemma_fx_mul_bound(c1 as int, c2 as int, 1_000_000, 1_000_000);
    }
    fx_mul(c1, c2)
}

fn weight_exec(r: &Region, star: &Star, t: i64) -> (w: i64)
    requires
        r.wf(),
        star.wf(),
        0 <= t,
    ensures
        w == weight_spec(*r, *star, t as int),
        -300_000_000 <= w <= 300_000_000,
{
    proof {
        assert(0 <= r.size * r.size <= 1_000_000_000_000int) by (nonlinear_arith)
            requires
                0 <= r.size <= 1_000_000int,
        ;
        vstd::arithmetic::div_mod::lemma_div_is_ordered(
            r.size * r.size,
            1_000_000_000_000int,
            2,
        );
        vstd::arithmetic::div_mod::lemma_div_pos_is_pos(r.size * r.size, 2);
        vstd::arithmetic::div_mod::lemma_div_is_ordered(
            r.area_spec(),
            500_000_000_000int,
            1_000_000,
        );
        vstd::arithmetic::div_mod::lemma_div_pos_is_pos(r.area_spec(), 1_000_000);
        lemma_fx_mul_bound(
            FX_ONE as int - r.intensity,
            r.area_spec() / 1_000_000,
            102_000_000,
            500_000,
        );
    }
    if !r.alive(t) {
        return 0;
    }
    let mu = mu_exec(r, star, t);
    if mu <= 0 {
        return 0;
    }
    let area = r.area_sq();
    let deficit = fx_mul(FX_ONE - r.intensity, area / 1_000_000);
    let lb = star.limb_brightness(mu);
    proof {
        lemma_fx_mul_bound(deficit as int, lb as int, 51_000_000, 5_000_000);
    }
    fx_mul(deficit, lb)
}

fn spot_flux(r: &Region, star: &Star, t: i64) -> (f: i64)
    requires
        r.wf(),
        star.wf(),
        0 <= t,
    ensures
        f == spot_flux_spec(*r, *star, t as int),
        -400_000_000_000_000 <= f <= 400_000_000_000_000,
{
    let w = weight_exec(r, star, t);
    proof {
        lemma_fx_mul_bound(w as int, star.flux_quiet as int, 300_000_000, 1_000_100_000_000);
    }
    fx_mul(w, star.flux_quiet)
}

/// Summed flux deficits of all regions at time `t`.
pub open spec fn sum_flux_rec(star: Star, s: Seq<Region>, t: int) -> int
    decreases s.len(),
{
    if s.len() == 0 {
        0
    } else {
        sum_flux_rec(star, s.drop_last(), t) + spot_flux_spec(s.last(), star, t)
    }
}

proof fn lemma_sum_flux_take(star: Star, s: Seq<Region>, t: int, i: int)
    requires
        0 <= i < s.len(),
    ensures
        sum_flux_rec(star, s.take(i + 1), t) == sum_flux_rec(star, s.take(i), t) + spot_flux_spec(
            s[i],
            star,
            t,
        ),
{
    assert(s.take(i + 1).drop_last() =~= s.take(i));
    assert(s.take(i + 1).last() == s[i]);
}

proof fn lemma_sum_flux_zero(star: Star, s: Seq<Region>, t: int)
    requires
        forall|i: int| 0 <= i < s.len() ==> !(#[trigger] s[i].alive_spec(t)),
    ensures
        sum_flux_rec(star, s, t) == 0,
    decreases s.len(),
{
    if s.len() > 0 {
        assert forall|i: int| 0 <= i < s.len() - 1 implies !(#[trigger] s.drop_last()[i].alive_spec(
            t,
        )) by {
            assert(s.drop_last()[i] == s[i]);
        }
        lemma_sum_flux_zero(star, s.drop_last(), t);
        assert(!s.last().alive_spec(t));
        assert(weight_spec(s.last(), star, t) == 0);
        let q = star.flux_quiet as int;
        assert(absi(0int) == 0);
        assert(0int * absi(q) == 0) by (nonlinear_arith);
        assert(absi(0int) * absi(q) == 0);
        vstd::arithmetic::div_mod::lemma_div_of0(1_000_000);
        assert(fx_mul_spec(0, q) == 0);
        assert(spot_flux_spec(s.last(), star, t) == 0);
    }
}

/// Relative flux at time `t`: the quiet flux less every region's deficit,
/// normalized by the quiet flux.
pub open spec fn flux_at_spec(star: Star, s: Seq<Region>, t: int) -> int {
    fx_div_wide_spec(star.flux_quiet as int - sum_flux_rec(star, s, t), star.flux_quiet as int)
}

/// Relative flux of the whole system at one time.
pub fn flux_at(star: &Star, spots: &Vec<Region>, t: i64) -> (f: i64)
    requires
        star.wf(),
        all_wf(spots@),
        spots@.len() <= 1_000_000_000,
        0 <= t,
    ensures
        f == flux_at_spec(*star, spots@, t as int),
        spots@.len() == 0 ==> f == FX_ONE,
        (forall|i: int| 0 <= i < spots@.len() ==> !(#[trigger] spots@[i].alive_spec(t as int)))
            ==> f == FX_ONE,
{
    let n = spots.len();
    let mut sum: i128 = 0;
    let mut i: usize = 0;
    proof {
        assert(spots@.take(0) =~= Seq::<Region>::empty());
    }
    while i < n
        invariant
            star.wf(),
            all_wf(spots@),
            0 <= t,
            n == spots@.len(),
            i <= n,
            sum == sum_flux_rec(*star, spots@.take(i as int), t as int),
            absi(sum as int) <= (i as int) * 400_000_000_000_000,
        decreases n - i,
    {
        proof {
            lemma_sum_flux_take(*star, spots@, t as int, i as int);
        }
        let sf = spot_flux(&spots[i], star, t);
        sum = sum + (sf as i128);
        i += 1;
    }
    proof {
        assert(spots@.take(n as int) =~= spots@);
    }
    let q = star.flux_quiet;
    let net: i128 = (q as i128) - sum;
    let f = fx_div_wide(net, q as i128);
    proof {
        if sum == 0 {
            vstd::arithmetic::div_mod::lemma_div_multiples_vanish(1_000_000, q as int);
            assert(absi(q as int) * 1_000_000 == (q as int) * 1_000_000);
            assert(fx_div_wide_spec(q as int, q as int) == FX_ONE as int);
        }
        if spots@.len() == 0 {
            assert(sum_flux_rec(*star, spots@, t as int) == 0);
        }
        if forall|k: int| 0 <= k < spots@.len() ==> !(#[trigger] spots@[k].alive_spec(t as int)) {
            lemma_sum_flux_zero(*star, spots@, t as int);
        }
    }
    f
}

/// A region's profile contribution index: its Doppler shift in grid steps.
pub open spec fn spot_shift_spec(r: Region, star: Star, t: int) -> int {
    let ypos = fx_mul_spec(
        cos_deg_spec(r.latitude as int),
        sin_deg_spec(long_now_spec(r, t, star.period as int)),
    );
    shift_index_spec(
        fx_mul_spec(ypos, star.equatorial_velocity as int),
        star.profile_quiet.step_spec(),
    )
}

/// Amplitude `j` of the summed region line-profile contributions.
pub open spec fn sum_ccf_rec(star: Star, s: Seq<Region>, t: int, j: int) -> int
    decreases s.len(),
{
    if s.len() == 0 {
        0
    } else {
        sum_ccf_rec(star, s.drop_last(), t, j) + fx_mul_spec(
            weight_spec(s.last(), star, t),
            star.profile_quiet.shifted_at(spot_shift_spec(s.last(), star, t), j),
        )
    }
}

proof fn lemma_sum_ccf_take(star: Star, s: Seq<Region>, t: int, j: int, i: int)
    requires
        0 <= i < s.len(),
    ensures
        sum_ccf_rec(star, s.take(i + 1), t, j) == sum_ccf_rec(star, s.take(i), t, j) + fx_mul_spec(
            weight_spec(s[i], star, t),
            star.profile_quiet.shifted_at(spot_shift_spec(s[i], star, t), j),
        ),
{
    assert(s.take(i + 1).drop_last() =~= s.take(i));
    assert(s.take(i + 1).last() == s[i]);
}

proof fn lemma_sum_ccf_zero(star: Star, s: Seq<Region>, t: int, j: int)
    requires
        forall|i: int| 0 <= i < s.len() ==> !(#[trigger] s[i].alive_spec(t)),
    ensures
        sum_ccf_rec(star, s, t, j) == 0,
    decreases s.len(),
{
    if s.len() > 0 {
        assert forall|i: int| 0 <= i < s.len() - 1 implies !(#[trigger] s.drop_last()[i].alive_spec(
            t,
        )) by {
            assert(s.drop_last()[i] == s[i]);
        }
        lemma_sum_ccf_zero(star, s.drop_last(), t, j);
        assert(!s.last().alive_spec(t));
        assert(weight_spec(s.last(), star, t) == 0);
        let sh = star.profile_quiet.shifted_at(spot_shift_spec(s.last(), star, t), j);
        assert(absi(0int) == 0);
        assert(0int * absi(sh) == 0) by (nonlinear_arith);
        assert(absi(0int) * absi(sh) == 0);
        vstd::arithmetic::div_mod::lemma_div_of0(1_000_000);
        assert(fx_mul_spec(0, sh) == 0);
    }
}

/// The net observed profile at time `t`: the quiet integrated profile
/// less the region contributions, saturated into measurement range.
pub open spec fn net_at(star: Star, s: Seq<Region>, t: int, j: int) -> int {
    clampi(star.integrated_ccf@[j] - sum_ccf_rec(star, s, t, j), AMP_MAX as int)
}

pub open spec fn net_seq(star: Star, s: Seq<Region>, t: int) -> Seq<i64> {
    Seq::new(star.integrated_ccf@.len(), |j: int| net_at(star, s, t, j) as i64)
}

/// The reported radial velocity: the centroid measured on the normalized
/// net profile, less the quiet zero-point.
pub open spec fn rv_spec(star: Star, s: Seq<Region>, t: int) -> int {
    centroid_spec(star.profile_quiet.rv@, norm_seq(net_seq(star, s, t))) - star.zero_rv
}

/// One reported bisector velocity, less the same zero-point.
pub open spec fn bis_spec(star: Star, s: Seq<Region>, t: int, k: int) -> int {
    bisect_at(star.profile_quiet.rv@, norm_seq(net_seq(star, s, t)), k) - star.zero_rv
}

/// Radial velocity and bisector of the whole system at one time.
pub fn rv_at(star: &Star, spots: &Vec<Region>, t: i64) -> (o: Observation)
    requires
        star.wf(),
        all_wf(spots@),
        spots@.len() <= 1_000_000_000,
        0 <= t,
    ensures
        o.rv == rv_spec(*star, spots@, t as int),
        o.bisector@.len() == star.profile_quiet.len_spec() / 2,
        forall|k: int|
            0 <= k < o.bisector@.len() ==> #[trigger] o.bisector@[k] == bis_spec(
                *star,
                spots@,
                t as int,
                k,
            ),
        (forall|i: int| 0 <= i < spots@.len() ==> !(#[trigger] spots@[i].alive_spec(t as int)))
            ==> o.rv == 0,
{
    let n = star.integrated_ccf.len();
    let nspots = spots.len();
    let mut buf: Vec<i128> = Vec::new();
    let mut j0: usize = 0;
    while j0 < n
        invariant
            j0 <= n,
            buf@.len() == j0,
            forall|q: int| 0 <= q < j0 ==> #[trigger] buf@[q] == 0,
        decreases n - j0,
    {
        buf.push(0);
        j0 += 1;
    }
    proof {
        assert(spots@.take(0) =~= Seq::<Region>::empty());
        assert(forall|q: int|
            0 <= q < n ==> #[trigger] buf@[q] == sum_ccf_rec(*star, spots@.take(0), t as int, q));
    }
    let mut i: usize = 0;
    while i < nspots
        invariant
            star.wf(),
            all_wf(spots@),
            0 <= t,
            nspots == spots@.len(),
            n == star.integrated_ccf@.len(),
            n == star.profile_quiet.len_spec(),
            i <= nspots,
            buf@.len() == n,
            forall|q: int|
                0 <= q < n ==> #[trigger] buf@[q] == sum_ccf_rec(
                    *star,
                    spots@.take(i as int),
                    t as int,
                    q,
                ),
            forall|q: int|
                0 <= q < n ==> absi(#[trigger] buf@[q] as int) <= (i as int) * 300_000_000_000,
        decreases nspots - i,
    {
        proof {
            assert(spots@[i as int].wf());
        }
        let w = weight_exec(&spots[i], star, t);
        let ypos_c1 = cos_deg(spots[i].latitude);
        let rot = rot_deg(t, star.period);
        let sum_l = spots[i].longitude + rot;
        let ln = if sum_l >= DEG_360 {
            sum_l - DEG_360
        } else {
            sum_l
        };
        let s2 = sin_deg(ln);
        proof {
            lemma_fx_mul_bound(ypos_c1 as int, s2 as int, 1_000_000, 1_000_000);
        }
        let ypos = fx_mul(ypos_c1, s2);
        proof {
            lemma_fx_mul_bound(ypos as int, star.equatorial_velocity as int, 1_000_000, 2_000_000_000_000);
        }
        let v = fx_mul(ypos, star.equatorial_velocity);
        let shifted = star.profile_quiet.shift(v);
        let mut j: usize = 0;
        while j < n
            invariant
                star.wf(),
                all_wf(spots@),
                0 <= t,
                nspots == spots@.len(),
                i < nspots,
                n == star.integrated_ccf@.len(),
                n == star.profile_quiet.len_spec(),
                buf@.len() == n,
                shifted@.len() == n,
                -300_000_000 <= w <= 300_000_000,
                w == weight_spec(spots@[i as int], *star, t as int),
                forall|q: int|
                    0 <= q < n ==> #[trigger] shifted@[q] == star.profile_quiet.shifted_at(
                        spot_shift_spec(spots@[i as int], *star, t as int),
                        q,
                    ),
                j <= n,
                forall|q: int|
                    j <= q < n ==> #[trigger] buf@[q] == sum_ccf_rec(
                        *star,
                        spots@.take(i as int),
                        t as int,
                        q,
                    ),
                forall|q: int|
                    0 <= q < j ==> #[trigger] buf@[q] == sum_ccf_rec(
                        *star,
                        spots@.take(i as int + 1),
                        t as int,
                        q,
                    ),
                forall|q: int|
                    j <= q < n ==> absi(#[trigger] buf@[q] as int) <= (i as int) * 300_000_000_000,
                forall|q: int|
                    0 <= q < j ==> absi(#[trigger] buf@[q] as int) <= (i as int + 1)
                        * 300_000_000_000,
            decreases n - j,
        {
            proof {
                lemma_sum_ccf_take(*star, spots@, t as int, j as int, i as int);
                assert(-1_000_000_000 <= shifted@[j as int] <= 1_000_000_000);
                lemma_fx_mul_bound(w as int, shifted@[j as int] as int, 300_000_000, 1_000_000_000);
            }
            let add = fx_mul(w, shifted[j]);
            let old_v = buf[j];
            buf.set(j, old_v + (add as i128));
            j += 1;
        }
        i += 1;
    }
    proof {
        assert(spots@.take(nspots as int) =~= spots@);
    }
    // Net profile: quiet integrated profile minus the contributions.
    let mut net: Vec<i64> = Vec::new();
    let mut j: usize = 0;
    while j < n
        invariant
            star.wf(),
            n == star.integrated_ccf@.len(),
            buf@.len() == n,
            forall|q: int|
                0 <= q < n ==> #[trigger] buf@[q] == sum_ccf_rec(*star, spots@, t as int, q),
            forall|q: int| 0 <= q < n ==> absi(#[trigger] buf@[q] as int) <= 6_000_000_000_000_000_000_000_000_000_000,
            j <= n,
            net@.len() == j,
            forall|q: int| 0 <= q < j ==> #[trigger] net@[q] == net_at(*star, spots@, t as int, q),
            forall|q: int| 0 <= q < j ==> -AMP_MAX <= #[trigger] net@[q] <= AMP_MAX,
        decreases n - j,
    {
        let raw: i128 = (star.integrated_ccf[j] as i128) - buf[j];
        let c = clamp128(raw, AMP_MAX);
        net.push(c);
        j += 1;
    }
    let norm = normalize(&net);
    proof {
        assert(net@ =~= net_seq(*star, spots@, t as int));
        assert(norm@ =~= norm_seq(net_seq(*star, spots@, t as int)));
    }
    let c = centroid(&star.profile_quiet.rv, &norm);
    let rv = c - star.zero_rv;
    let bis_raw = bisector(&star.profile_quiet.rv, &norm);
    let mut bis: Vec<i64> = Vec::new();
    let mut k: usize = 0;
    let nb = bis_raw.len();
    while k < nb
        invariant
            nb == bis_raw@.len(),
            k <= nb,
            bis@.len() == k,
            -CENT_CLAMP <= star.zero_rv <= CENT_CLAMP,
            forall|q: int| 0 <= q < nb ==> -CENT_CLAMP <= #[trigger] bis_raw@[q] <= CENT_CLAMP,
            forall|q: int|
                0 <= q < k ==> #[trigger] bis@[q] == bis_raw@[q] - star.zero_rv,
        decreases nb - k,
    {
        bis.push(bis_raw[k] - star.zero_rv);
        k += 1;
    }
    proof {
        if forall|q: int| 0 <= q < spots@.len() ==> !(#[trigger] spots@[q].alive_spec(t as int)) {
            assert forall|q: int| 0 <= q < n implies #[trigger] net_seq(*star, spots@, t as int)[q]
                == star.integrated_ccf@[q] by {
                lemma_sum_ccf_zero(*star, spots@, t as int, q);
            }
            assert(net_seq(*star, spots@, t as int) =~= star.integrated_ccf@);
        }
    }
    Observation { rv, bisector: bis }
}

/// The regions with their intensity recomputed for the current band.
pub open spec fn region_with_intensity(r: Region, v: int) -> Region {
    Region {
        latitude: r.latitude,
        longitude: r.longitude,
        size: r.size,
        plage: r.plage,
        time_appear: r.time_appear,
        time_disappear: r.time_disappear,
        intensity: v as i64,
    }
}

pub open spec fn with_band(s: Seq<Region>, star: Star) -> Seq<Region> {
    Seq::new(s.len(), |i: int| region_with_intensity(s[i], intensity_spec(star, s[i].plage)))
}

/// The disk built from one configuration is deterministic: two disks
/// whose quiet flux and zero-point satisfy the construction equations of
/// the same inputs agree on both.
pub proof fn lemma_disk_deterministic(
    s1: Star,
    s2: Star,
    g: int,
    l1: int,
    l2: int,
    prof: crate::profile::Profile,
    ev: int,
)
    requires
        s1.flux_quiet == crate::star::flux_rec(g, g, l1, l2),
        s2.flux_quiet == crate::star::flux_rec(g, g, l1, l2),
        s1.zero_rv == centroid_spec(prof.rv@, norm_seq(s1.integrated_ccf@)),
        s2.zero_rv == centroid_spec(prof.rv@, norm_seq(s2.integrated_ccf@)),
        s1.integrated_ccf@ == s2.integrated_ccf@,
    ensures
        s1.flux_quiet == s2.flux_quiet,
        s1.zero_rv == s2.zero_rv,
{
}

/// With no region ever alive at `t`, the net profile is the quiet
/// integrated profile, so the reported radial velocity is exactly the
/// zero-point difference: zero.
pub proof fn lemma_rv_spec_quiet(star: Star, s: Seq<Region>, t: int)
    requires
        star.wf(),
        forall|i: int| 0 <= i < s.len() ==> !(#[trigger] s[i].alive_spec(t)),
    ensures
        rv_spec(star, s, t) == 0,
{
    let n = star.integrated_ccf@.len() as int;
    assert forall|q: int| 0 <= q < n implies #[trigger] net_seq(star, s, t)[q]
        == star.integrated_ccf@[q] by {
        lemma_sum_ccf_zero(star, s, t, q);
        assert(-1_000_100_000_000_000 <= star.integrated_ccf@[q] <= 1_000_100_000_000_000);
    }
    assert(net_seq(star, s, t) =~= star.integrated_ccf@);
}

/// With no region ever alive at `t`, the observed flux is exactly the
/// quiet flux normalized against itself: one.
pub proof fn lemma_flux_spec_quiet(star: Star, s: Seq<Region>, t: int)
    requires
        star.wf(),
        forall|i: int| 0 <= i < s.len() ==> !(#[trigger] s[i].alive_spec(t)),
    ensures
        flux_at_spec(star, s, t) == FX_ONE,
{
    lemma_sum_flux_zero(star, s, t);
    let q = star.flux_quiet as int;
    vstd::arithmetic::div_mod::lemma_div_multiples_vanish(1_000_000, q);
    assert(absi(q) * 1_000_000 == q * 1_000_000);
}

/// Recomputing intensities for the same band twice is the same as doing
/// it once, so an observation after either is the same: the pipelines
/// are idempotent when the fill target asks for no growth.
pub proof fn lemma_observe_idempotent(star: Star, s: Seq<Region>, t: int)
    ensures
        with_band(with_band(s, star), star) == with_band(s, star),
        flux_at_spec(star, with_band(with_band(s, star), star), t) == flux_at_spec(
            star,
            with_band(s, star),
            t,
        ),
        rv_spec(star, with_band(with_band(s, star), star), t) == rv_spec(
            star,
            with_band(s, star),
            t,
        ),
{
    assert(with_band(with_band(s, star), star) =~= with_band(s, star));
}

pub struct Simulation {
    pub star: Star,
    pub spots: Vec<Region>,
    /// The covered-area fraction the maintenance process must keep.
    pub dynamic_fill_factor: i64,
    /// The pseudo-random generator of the maintenance process; touched
    /// only under exclusive access, before any parallel pass.
    pub generator: rand::rngs::StdRng,
}

/// Relies on rand's `Rng::gen_range`, applied to the simulator's own
/// generator: a sample of the half-open range, which panics only on an
/// empty range; no other field is touched.
#[verifier::external_body]
fn sim_rng_range(sim: &mut Simulation, lo: i64, hi: i64) -> (v: i64)
    requires
        lo < hi,
    ensures
        lo <= v < hi,
        final(sim).star == old(sim).star,
        final(sim).spots@ == old(sim).spots@,
        final(sim).dynamic_fill_factor == old(sim).dynamic_fill_factor,
{
    rand::Rng::gen_range(&mut sim.generator, lo..hi)
}

/// Relies on rayon's `par_iter().map().collect()`: one result per time,
/// collected in input order; every worker calls the verified per-time
/// flux observation on the frozen, immutable state.
#[verifier::external_body]
fn par_map_flux(star: &Star, spots: &Vec<Region>, times: &Vec<i64>) -> (r: Vec<i64>)
    requires
        star.wf(),
        all_wf(spots@),
        spots@.len() <= 1_000_000_000,
        forall|i: int| 0 <= i < times@.len() ==> 0 <= #[trigger] times@[i],
    ensures
        r@.len() == times@.len(),
        forall|i: int|
            0 <= i < r@.len() ==> #[trigger] r@[i] == flux_at_spec(
                *star,
                spots@,
                times@[i] as int,
            ),
{
    times.par_iter().map(|t| flux_at(star, spots, *t)).collect()
}

/// Relies on rayon's `par_iter().map().collect()`: one observation per
/// time, collected in input order; every worker calls the verified
/// per-time radial-velocity observation on the frozen, immutable state.
#[verifier::external_body]
fn par_map_rv(star: &Star, spots: &Vec<Region>, times: &Vec<i64>) -> (r: Vec<Observation>)
    requires
        star.wf(),
        all_wf(spots@),
        spots@.len() <= 1_000_000_000,
        forall|i: int| 0 <= i < times@.len() ==> 0 <= #[trigger] times@[i],
    ensures
        r@.len() == times@.len(),
        forall|i: int|
            0 <= i < r@.len() ==> (#[trigger] r@[i]).rv == rv_spec(*star, spots@, times@[i] as int),
        forall|i: int|
            0 <= i < r@.len() ==> (#[trigger] r@[i]).bisector@.len()
                == star.profile_quiet.len_spec() / 2,
        forall|i: int, k: int|
            0 <= i < r@.len() && 0 <= k < star.profile_quiet.len_spec() / 2
                ==> (#[trigger] r@[i].bisector@[k]) == bis_spec(*star, spots@, times@[i] as int, k),
{
    times.par_iter().map(|t| rv_at(star, spots, *t)).collect()
}

impl Simulation {
    pub open spec fn wf(self) -> bool {
        &&& self.star.wf()
        &&& all_wf(self.spots@)
        &&& pairwise_ok(self.spots@)
        &&& self.spots@.len() <= 1_000_000_000
        &&& 0 <= self.dynamic_fill_factor <= FILL_MAX
    }

    /// The covered-area target, in squared fixed-point units.
    pub open spec fn target_area(self) -> int {
        self.dynamic_fill_factor * 1_000_000
    }

    /// Assemble a simulator from a built disk and a static region set.
    pub fn new(star: Star, spots: Vec<Region>, dynamic_fill_factor: i64) -> (r: Simulation)
        requires
            star.wf(),
            all_wf(spots@),
            pairwise_ok(spots@),
            spots@.len() <= 1_000_000_000,
            0 <= dynamic_fill_factor <= FILL_MAX,
        ensures
            r.wf(),
            r.star == star,
            r.spots@ == spots@,
            r.dynamic_fill_factor == dynamic_fill_factor,
    {
        Simulation { star, spots, dynamic_fill_factor, generator: rng_from_entropy() }
    }

    /// Grow the region population until the regions alive at `time`
    /// cover the configured fill target, by random packing with a bounded
    /// retry budget: candidate sizes are drawn uniformly and rejected at
    /// the `SIZE_CUTOFF`, latitudes uniformly within thirty degrees of
    /// the equator, longitudes uniformly around the circle. Returns
    /// whether the target is covered on return. The collection only
    /// grows; every accepted candidate is tested against every region
    /// alive at either endpoint of its life window, which preserves the
    /// no-overlap invariant.
    pub fn check_fill_factor(&mut self, time: i64) -> (reached: bool)
        requires
            old(self).wf(),
            0 <= time <= TIME_MAX,
        ensures
            final(self).wf(),
            final(self).star == old(self).star,
            final(self).dynamic_fill_factor == old(self).dynamic_fill_factor,
            final(self).spots@.len() >= old(self).spots@.len(),
            forall|i: int|
                0 <= i < old(self).spots@.len()
                    ==> #[trigger] final(self).spots@[i] == old(self).spots@[i],
            forall|i: int|
                old(self).spots@.len() <= i < final(self).spots@.len()
                    ==> (#[trigger] final(self).spots@[i]).alive_spec(time as int) && grown_at(
                    final(self).spots@[i],
                    time as int,
                ),
            coverage_rec(final(self).spots@, time as int) >= coverage_rec(
                old(self).spots@,
                time as int,
            ),
            reached <==> coverage_rec(final(self).spots@, time as int) >= old(
                self,
            ).target_area(),
            coverage_rec(old(self).spots@, time as int) >= old(self).target_area() ==> reached,
            coverage_rec(final(self).spots@, time as int) < old(self).target_area() + 500_000
                || coverage_rec(final(self).spots@, time as int) == coverage_rec(
                old(self).spots@,
                time as int,
            ),
            coverage_rec(old(self).spots@, time as int) >= old(self).target_area()
                ==> final(self).spots@ == old(self).spots@,
    {
        let n0 = self.spots.len();
        let mut cov: i128 = 0;
        let mut i: usize = 0;
        proof {
            assert(self.spots@.take(0) =~= Seq::<Region>::empty());
        }
        while i < n0
            invariant
                *self == *old(self),
                old(self).wf(),
                n0 == self.spots@.len(),
                i <= n0,
                cov == coverage_rec(self.spots@.take(i as int), time as int),
                0 <= cov <= (i as int) * 500_000_000_000,
            decreases n0 - i,
        {
            proof {
                lemma_coverage_take(self.spots@, time as int, i as int);
                assert(self.spots@[i as int].wf());
                lemma_area_bounds(self.spots@[i as int]);
            }
            if self.spots[i].alive(time) {
                let a = self.spots[i].area_sq();
                cov = cov + (a as i128);
            }
            i += 1;
        }
        proof {
            assert(self.spots@.take(n0 as int) =~= self.spots@);
        }
        let target: i128 = (self.dynamic_fill_factor as i128) * 1_000_000;
        let ghost cov0: i128 = cov;
        let mut attempts: usize = 0;
        while cov < target && attempts < GROW_ATTEMPTS
            invariant
                self.star == old(self).star,
                self.dynamic_fill_factor == old(self).dynamic_fill_factor,
                old(self).wf(),
                self.star.wf(),
                all_wf(self.spots@),
                pairwise_ok(self.spots@),
                self.spots@.len() <= 1_000_000_000,
                0 <= self.dynamic_fill_factor <= FILL_MAX,
                0 <= time <= TIME_MAX,
                n0 == old(self).spots@.len(),
                self.spots@.len() >= n0,
                forall|k: int|
                    0 <= k < n0 ==> #[trigger] self.spots@[k] == old(self).spots@[k],
                forall|k: int|
                    n0 <= k < self.spots@.len() ==> (#[trigger] self.spots@[k]).alive_spec(
                        time as int,
                    ) && grown_at(self.spots@[k], time as int),
                cov == coverage_rec(self.spots@, time as int),
                cov >= cov0,
                cov0 == coverage_rec(old(self).spots@, time as int),
                target == old(self).target_area(),
                cov0 >= target ==> self.spots@ == old(self).spots@,
                cov < target + 500_000 || cov == cov0,
                attempts <= GROW_ATTEMPTS,
            decreases GROW_ATTEMPTS - attempts,
        {
            attempts += 1;
            let size = sim_rng_range(self, 2, 4 * SIZE_CUTOFF);
            if size < SIZE_CUTOFF {
                let lat = sim_rng_range(self, -30_000_000, 30_000_001);
                let long = sim_rng_range(self, 0, 360_000_000);
                let cand = Region::new_dynamic(lat, long, size, time);
                let m = self.spots.len();
                let mut collides = false;
                let mut k: usize = 0;
                while k < m
                    invariant
                        m == self.spots@.len(),
                        all_wf(self.spots@),
                        cand.wf(),
                        k <= m,
                        !collides ==> forall|q: int|
                            0 <= q < k ==> ((#[trigger] self.spots@[q].alive_spec(
                                cand.time_appear as int,
                            ) || self.spots@[q].alive_spec(cand.time_disappear as int))
                                ==> !cand.collides_spec(self.spots@[q])),
                    decreases m - k,
                {
                    proof {
                        assert(self.spots@[k as int].wf());
                    }
                    let endpoint_alive = self.spots[k].alive(cand.time_appear)
                        || self.spots[k].alive(cand.time_disappear);
                    if endpoint_alive && cand.collides_with(&self.spots[k]) {
                        collides = true;
                    }
                    k += 1;
                }
                if !collides && self.spots.len() < 1_000_000_000 {
                    proof {
                        lemma_coverage_push(self.spots@, cand, time as int);
                        lemma_pairwise_push(self.spots@, cand, time as int);
                        lemma_area_bounds(cand);
                        assert(cand.area_spec() < 500_000) by (nonlinear_arith)
                            requires
                                0 <= cand.size < 1_000int,
                                cand.area_spec() == (cand.size * cand.size) / 2,
                        ;
                    }
                    let a = cand.area_sq();
                    self.spots.push(cand);
                    cov = cov + (a as i128);
                }
            }
        }
        cov >= target
    }

    /// Recompute every region's relative intensity for the band.
    fn set_band(&mut self, wavelength_min: i64, wavelength_max: i64)
        requires
            old(self).wf(),
            0 < wavelength_min <= wavelength_max,
        ensures
            final(self).wf(),
            final(self).star == old(self).star,
            final(self).dynamic_fill_factor == old(self).dynamic_fill_factor,
            final(self).spots@ == with_band(old(self).spots@, old(self).star),
    {
        let n = self.spots.len();
        let mut i: usize = 0;
        while i < n
            invariant
                self.star == old(self).star,
                self.dynamic_fill_factor == old(self).dynamic_fill_factor,
                old(self).wf(),
                self.star.wf(),
                n == self.spots@.len(),
                n == old(self).spots@.len(),
                i <= n,
                forall|k: int| i <= k < n ==> #[trigger] self.spots@[k] == old(self).spots@[k],
                forall|k: int|
                    0 <= k < i ==> #[trigger] self.spots@[k] == with_band(
                        old(self).spots@,
                        old(self).star,
                    )[k],
            decreases n - i,
        {
            proof {
                assert(old(self).spots@[i as int].wf());
            }
            let v = intensity_exec(&self.star, self.spots[i].plage);
            let nr = Region {
                latitude: self.spots[i].latitude,
                longitude: self.spots[i].longitude,
                size: self.spots[i].size,
                plage: self.spots[i].plage,
                time_appear: self.spots[i].time_appear,
                time_disappear: self.spots[i].time_disappear,
                intensity: v,
            };
            self.spots.set(i, nr);
            i += 1;
        }
        proof {
            assert(self.spots@ =~= with_band(old(self).spots@, old(self).star));
            assert forall|a: int| 0 <= a < self.spots@.len() implies #[trigger] self.spots@[a].wf()
                by {
                assert(old(self).spots@[a].wf());
            }
            assert forall|a: int, b: int| 0 <= a < b < self.spots@.len() implies #[trigger] pair_ok(
                self.spots@[a],
                self.spots@[b],
            ) by {
                assert(pair_ok(old(self).spots@[a], old(self).spots@[b]));
            }
        }
    }

    /// The relative flux of the system at each time, one value per time
    /// and in input order. Region intensities are recomputed first (the
    /// stand-in intensity is the full-spectrum temperature ratio, so the
    /// band arguments bound the request but do not change the value),
    /// the population is grown for every requested time, and the frozen
    /// state is then observed in parallel.
    pub fn observe_flux(&mut self, time: &Vec<i64>, wavelength_min: i64, wavelength_max: i64) -> (r:
        Vec<i64>)
        requires
            old(self).wf(),
            0 < wavelength_min <= wavelength_max,
            forall|i: int| 0 <= i < time@.len() ==> 0 <= #[trigger] time@[i] <= TIME_MAX,
        ensures
            final(self).wf(),
            final(self).star == old(self).star,
            final(self).dynamic_fill_factor == old(self).dynamic_fill_factor,
            r@.len() == time@.len(),
            forall|i: int|
                0 <= i < r@.len() ==> #[trigger] r@[i] == flux_at_spec(
                    old(self).star,
                    final(self).spots@,
                    time@[i] as int,
                ),
            final(self).spots@.len() == 0 ==> forall|i: int|
                0 <= i < r@.len() ==> #[trigger] r@[i] == FX_ONE,
            final(self).spots@.len() >= old(self).spots@.len(),
            forall|i: int|
                0 <= i < old(self).spots@.len() ==> #[trigger] final(self).spots@[i] == with_band(
                    old(self).spots@,
                    old(self).star,
                )[i],
            forall|i: int|
                old(self).spots@.len() <= i < final(self).spots@.len() ==> grown(
                    #[trigger] final(self).spots@[i],
                ),
            old(self).dynamic_fill_factor == 0 ==> final(self).spots@ == with_band(
                old(self).spots@,
                old(self).star,
            ),
    {
        self.set_band(wavelength_min, wavelength_max);
        let nt = time.len();
        let mut i: usize = 0;
        while i < nt
            invariant
                self.wf(),
                self.star == old(self).star,
                self.dynamic_fill_factor == old(self).dynamic_fill_factor,
                nt == time@.len(),
                i <= nt,
                forall|k: int| 0 <= k < nt ==> 0 <= #[trigger] time@[k] <= TIME_MAX,
                self.spots@.len() >= old(self).spots@.len(),
                forall|k: int|
                    0 <= k < old(self).spots@.len() ==> #[trigger] self.spots@[k] == with_band(
                        old(self).spots@,
                        old(self).star,
                    )[k],
                forall|k: int|
                    old(self).spots@.len() <= k < self.spots@.len() ==> grown(
                        #[trigger] self.spots@[k],
                    ),
                old(self).dynamic_fill_factor == 0 ==> self.spots@ == with_band(
                    old(self).spots@,
                    old(self).star,
                ),
            decreases nt - i,
        {
            let t = time[i];
            proof {
                if self.dynamic_fill_factor == 0 {
                    lemma_coverage_bounds(self.spots@, t as int);
                }
            }
            let _ = self.check_fill_factor(t);
            i += 1;
        }
        let r = par_map_flux(&self.star, &self.spots, time);
        proof {
            if self.spots@.len() == 0 {
                assert forall|k: int| 0 <= k < r@.len() implies #[trigger] r@[k] == FX_ONE by {
                    lemma_flux_spec_quiet(self.star, self.spots@, time@[k] as int);
                }
            }
        }
        r
    }

    /// The radial velocity and line bisector of the system at each time,
    /// one observation per time and in input order. Region intensities
    /// are recomputed first (the stand-in intensity is the full-spectrum
    /// temperature ratio, so the band arguments bound the request but do
    /// not change the value); the grown, frozen state is observed in
    /// parallel.
    pub fn observe_rv(&mut self, time: &Vec<i64>, wavelength_min: i64, wavelength_max: i64) -> (r:
        Vec<Observation>)
        requires
            old(self).wf(),
            0 < wavelength_min <= wavelength_max,
            forall|i: int| 0 <= i < time@.len() ==> 0 <= #[trigger] time@[i] <= TIME_MAX,
        ensures
            final(self).wf(),
            final(self).star == old(self).star,
            final(self).dynamic_fill_factor == old(self).dynamic_fill_factor,
            r@.len() == time@.len(),
            forall|i: int|
                0 <= i < r@.len() ==> (#[trigger] r@[i]).rv == rv_spec(
                    old(self).star,
                    final(self).spots@,
                    time@[i] as int,
                ),
            forall|i: int, k: int|
                0 <= i < r@.len() && 0 <= k < old(self).star.profile_quiet.len_spec() / 2 ==> (
                #[trigger] r@[i].bisector@[k]) == bis_spec(
                    old(self).star,
                    final(self).spots@,
                    time@[i] as int,
                    k,
                ),
            forall|i: int|
                0 <= i < r@.len() ==> (#[trigger] r@[i]).bisector@.len() == old(
                    self,
                ).star.profile_quiet.len_spec() / 2,
            final(self).spots@.len() == 0 ==> forall|i: int|
                0 <= i < r@.len() ==> (#[trigger] r@[i]).rv == 0,
            final(self).spots@.len() >= old(self).spots@.len(),
            forall|i: int|
                0 <= i < old(self).spots@.len() ==> #[trigger] final(self).spots@[i] == with_band(
                    old(self).spots@,
                    old(self).star,
                )[i],
            forall|i: int|
                old(self).spots@.len() <= i < final(self).spots@.len() ==> grown(
                    #[trigger] final(self).spots@[i],
                ),
            old(self).dynamic_fill_factor == 0 ==> final(self).spots@ == with_band(
                old(self).spots@,
                old(self).star,
            ),
    {
        self.set_band(wavelength_min, wavelength_max);
        let nt = time.len();
        let mut i: usize = 0;
        while i < nt
            invariant
                self.wf(),
                self.star == old(self).star,
                self.dynamic_fill_factor == old(self).dynamic_fill_factor,
                nt == time@.len(),
                i <= nt,
                forall|k: int| 0 <= k < nt ==> 0 <= #[trigger] time@[k] <= TIME_MAX,
                self.spots@.len() >= old(self).spots@.len(),
                forall|k: int|
                    0 <= k < old(self).spots@.len() ==> #[trigger] self.spots@[k] == with_band(
                        old(self).spots@,
                        old(self).star,
                    )[k],
                forall|k: int|
                    old(self).spots@.len() <= k < self.spots@.len() ==> grown(
                        #[trigger] self.spots@[k],
                    ),
                old(self).dynamic_fill_factor == 0 ==> self.spots@ == with_band(
                    old(self).spots@,
                    old(self).star,
                ),
            decreases nt - i,
        {
            let t = time[i];
            proof {
                if self.dynamic_fill_factor == 0 {
                    lemma_coverage_bounds(self.spots@, t as int);
                }
            }
            let _ = self.check_fill_factor(t);
            i += 1;
        }
        let r = par_map_rv(&self.star, &self.spots, time);
        proof {
            if self.spots@.len() == 0 {
                assert forall|k: int| 0 <= k < r@.len() implies (#[trigger] r@[k]).rv == 0 by {
                    lemma_rv_spec_quiet(self.star, self.spots@, time@[k] as int);
                }
            }
        }
        r
    }
}


/// A pixel of the raster is untouched between two buffer states.
pub open spec fn unchanged_pixel(a: Seq<u8>, b: Seq<u8>, p: int) -> bool {
    &&& b[4 * p] == a[4 * p]
    &&& b[4 * p + 1] == a[4 * p + 1]
    &&& b[4 * p + 2] == a[4 * p + 2]
    &&& b[4 * p + 3] == a[4 * p + 3]
}

/// The projected horizontal center of a region at `time`.
pub open spec fn region_yc(star: Star, r: Region, time: int) -> int {
    fx_mul_spec(
        cos_deg_spec(r.latitude as int),
        sin_deg_spec(long_now_spec(r, time, star.period as int)),
    )
}

/// The projected vertical center of a region.
pub open spec fn region_zc(r: Region) -> int {
    sin_deg_spec(norm_deg_spec(r.latitude as int))
}

/// The brightness of a raster point inside a region: the limb-darkening
/// law at the point's line-of-sight cosine, weighted by the region's
/// relative intensity and floored at zero.
pub open spec fn draw_shade_spec(star: Star, intensity: int, y: int, z: int) -> int {
    let x0 = FX_ONE as int - fx_mul_spec(y, y) - fx_mul_spec(z, z);
    let xm = if x0 < 0 {
        0
    } else {
        x0
    };
    let v = fx_mul_spec(
        limb_brightness_spec(xm, star.limb_linear as int, star.limb_quadratic as int),
        intensity,
    );
    if v < 0 {
        0
    } else {
        v
    }
}

/// One channel of the two-channel color ramp, saturated at full scale.
pub open spec fn ramp_byte(shade: int, weight: int) -> int {
    let v = (shade * weight) / 1_000_000;
    if v > 255 {
        255
    } else {
        v
    }
}

/// The raster pixel a disk point falls on: a thousand steps across the
/// unit disk on each axis, clamped at the border rows and columns.
pub open spec fn pix_of(y: int, z: int) -> int {
    let yi = (y + 1_000_000) / 2_000;
    let yq = if yi < 0 {
        0
    } else if yi > 999 {
        999
    } else {
        yi
    };
    let zi = (1_000_000 - z) / 2_000;
    let zq = if zi < 0 {
        0
    } else if zi > 999 {
        999
    } else {
        zi
    };
    zq * 1_000 + yq
}

/// The pixel at `p` carries the color of some raster point of some
/// region alive at `time`: the point lies within the region's projected
/// bounding circle, it maps to `p`, and the four bytes are exactly the
/// point's two-channel ramp (red full weight, green reduced, blue zero,
/// alpha opaque). Among regions covering a shared pixel the bytes are
/// one region's ramp: the last writer's.
pub open spec fn drawn_pixel(star: Star, spots: Seq<Region>, time: int, b: Seq<u8>, p: int) -> bool {
    exists|i: int, y: int, z: int|
        #![trigger spots[i].alive_spec(time), pix_of(y, z)]
        {
            &&& 0 <= i < spots.len()
            &&& spots[i].alive_spec(time)
            &&& -1_000_000 <= y <= 1_000_000
            &&& -1_000_000 <= z <= 1_000_000
            &&& fx_mul_spec(y - region_yc(star, spots[i], time), y - region_yc(star, spots[i], time))
                <= fx_mul_spec(spots[i].size as int, spots[i].size as int)
            &&& absi(z - region_zc(spots[i])) <= spots[i].size
            &&& p == pix_of(y, z)
            &&& b[4 * p] == ramp_byte(draw_shade_spec(star, spots[i].intensity as int, y, z), 255)
            &&& b[4 * p + 1] == ramp_byte(draw_shade_spec(star, spots[i].intensity as int, y, z), 131)
            &&& b[4 * p + 2] == 0
            &&& b[4 * p + 3] == 255
        }
}

/// The first raster point of a region's scan: the left edge of its
/// projected bounding circle at its center height.
pub open spec fn scan_origin_pix(star: Star, r: Region, time: int) -> int {
    pix_of(region_yc(star, r, time) - r.size, region_zc(r))
}

/// The region's scan origin lies on the raster.
pub open spec fn origin_on_disk(star: Star, r: Region, time: int) -> bool {
    region_yc(star, r, time) - r.size >= -1_000_000
}

/// A drawn pixel stays drawn while its four bytes are untouched.
proof fn lemma_drawn_transfer(
    star: Star,
    spots: Seq<Region>,
    time: int,
    a: Seq<u8>,
    b: Seq<u8>,
    p: int,
)
    requires
        drawn_pixel(star, spots, time, a, p),
        b[4 * p] == a[4 * p],
        b[4 * p + 1] == a[4 * p + 1],
        b[4 * p + 2] == a[4 * p + 2],
        b[4 * p + 3] == a[4 * p + 3],
    ensures
        drawn_pixel(star, spots, time, b, p),
{
    let (iw, yw, zw): (int, int, int) = choose|iw: int, yw: int, zw: int|
        #![trigger spots[iw].alive_spec(time), pix_of(yw, zw)]
        {
            &&& 0 <= iw < spots.len()
            &&& spots[iw].alive_spec(time)
            &&& -1_000_000 <= yw <= 1_000_000
            &&& -1_000_000 <= zw <= 1_000_000
            &&& fx_mul_spec(
                yw - region_yc(star, spots[iw], time),
                yw - region_yc(star, spots[iw], time),
            ) <= fx_mul_spec(spots[iw].size as int, spots[iw].size as int)
            &&& absi(zw - region_zc(spots[iw])) <= spots[iw].size
            &&& p == pix_of(yw, zw)
            &&& a[4 * p] == ramp_byte(
                draw_shade_spec(star, spots[iw].intensity as int, yw, zw),
                255,
            )
            &&& a[4 * p + 1] == ramp_byte(
                draw_shade_spec(star, spots[iw].intensity as int, yw, zw),
                131,
            )
            &&& a[4 * p + 2] == 0
            &&& a[4 * p + 3] == 255
        };
    assert(b[4 * p] == ramp_byte(draw_shade_spec(star, spots[iw].intensity as int, yw, zw), 255));
    assert(p == pix_of(yw, zw));
    assert(drawn_pixel(star, spots, time, b, p));
}

impl Simulation {
    /// Render the regions alive at `time` into a square thousand-by-
    /// thousand row-major RGBA raster, one region after another with
    /// last-writer-wins at shared boundary pixels. Every pixel is either
    /// left exactly as it was, or carries the exact color ramp of a
    /// raster point of a covering region alive at `time`; with no region
    /// alive the raster is untouched. Intensities are recomputed for the
    /// visible band first (the stand-in intensity is band-independent).
    #[verifier::rlimit(80)]
    pub fn draw_rgba(&mut self, time: i64, image: &mut Vec<u8>)
        requires
            old(self).wf(),
            0 <= time <= TIME_MAX,
            old(image)@.len() == 4_000_000,
        ensures
            final(self).wf(),
            final(self).star == old(self).star,
            final(self).dynamic_fill_factor == old(self).dynamic_fill_factor,
            final(image)@.len() == 4_000_000,
            forall|p: int|
                0 <= p < 1_000_000 ==> (unchanged_pixel(old(image)@, final(image)@, p)
                    || drawn_pixel(
                    final(self).star,
                    final(self).spots@,
                    time as int,
                    final(image)@,
                    p,
                )),
            forall|i: int|
                0 <= i < final(self).spots@.len()
                    && (#[trigger] final(self).spots@[i]).alive_spec(time as int)
                    && origin_on_disk(
                    final(self).star,
                    final(self).spots@[i],
                    time as int,
                ) ==> drawn_pixel(
                    final(self).star,
                    final(self).spots@,
                    time as int,
                    final(image)@,
                    scan_origin_pix(final(self).star, final(self).spots@[i], time as int),
                ),
            (forall|q: int|
                0 <= q < final(self).spots@.len()
                    ==> !((#[trigger] final(self).spots@[q]).alive_spec(time as int)))
                ==> final(image)@ == old(image)@,
    {
        let _ = self.check_fill_factor(time);
        self.set_band(400_000_000, 700_000_000);
        let n = self.spots.len();
        let mut si: usize = 0;
        while si < n
            invariant
                self.wf(),
                self.star == old(self).star,
                self.dynamic_fill_factor == old(self).dynamic_fill_factor,
                0 <= time <= TIME_MAX,
                n == self.spots@.len(),
                si <= n,
                image@.len() == 4_000_000,
                forall|p: int|
                    0 <= p < 1_000_000 ==> (unchanged_pixel(old(image)@, image@, p)
                        || drawn_pixel(self.star, self.spots@, time as int, image@, p)),
                forall|ii: int|
                    0 <= ii < si && (#[trigger] self.spots@[ii]).alive_spec(time as int)
                        && origin_on_disk(self.star, self.spots@[ii], time as int) ==> drawn_pixel(
                        self.star,
                        self.spots@,
                        time as int,
                        image@,
                        scan_origin_pix(self.star, self.spots@[ii], time as int),
                    ),
                (forall|q: int|
                    0 <= q < n ==> !(#[trigger] self.spots@[q]).alive_spec(time as int))
                    ==> image@ == old(image)@,
            decreases n - si,
        {
            proof {
                assert(self.spots@[si as int].wf());
            }
            if self.spots[si].alive(time) {
                let lat = self.spots[si].latitude;
                let intensity = self.spots[si].intensity;
                let rot = rot_deg(time, self.star.period);
                let suml = self.spots[si].longitude + rot;
                let ln = if suml >= DEG_360 {
                    suml - DEG_360
                } else {
                    suml
                };
                let yc = fx_mul(cos_deg(lat), sin_deg(ln));
                let zc = sin_deg(
                    if lat < 0 {
                        lat + DEG_360
                    } else {
                        lat
                    },
                );
                let rr = self.spots[si].size;
                proof {
                    lemma_fx_mul_bound(
                        cos_deg_spec(lat as int),
                        sin_deg_spec(ln as int),
                        1_000_000,
                        1_000_000,
                    );
                    lemma_fx_mul_bound(rr as int, rr as int, 1_000_000, 1_000_000);
                    vstd::arithmetic::mul::lemma_mul_nonnegative(
                        crate::fx::absi(rr as int),
                        crate::fx::absi(rr as int),
                    );
                    vstd::arithmetic::div_mod::lemma_div_pos_is_pos(
                        crate::fx::absi(rr as int) * crate::fx::absi(rr as int),
                        1_000_000,
                    );
                    assert(yc == region_yc(self.star, self.spots@[si as int], time as int));
                    assert(zc == region_zc(self.spots@[si as int]));
                }
                let gstep: i64 = 2_000_000 / (self.star.grid_size as i64);
                let gstep = if gstep < 1 {
                    1
                } else {
                    gstep
                };
                let rr2 = fx_mul(rr, rr);
                let mut ky: usize = 0;
                let steps: usize = (2 * rr / gstep) as usize + 1;
                while ky < steps
                    invariant
                        self.wf(),
                        si < n,
                        n == self.spots@.len(),
                        0 <= time <= TIME_MAX,
                        self.spots@[si as int].alive_spec(time as int),
                        rr == self.spots@[si as int].size,
                        intensity == self.spots@[si as int].intensity,
                        yc == region_yc(self.star, self.spots@[si as int], time as int),
                        zc == region_zc(self.spots@[si as int]),
                        -1_000_000 <= yc <= 1_000_000,
                        -1_000_000 <= zc <= 1_000_000,
                        0 <= rr <= 1_000_000,
                        rr2 == fx_mul_spec(rr as int, rr as int),
                        0 <= rr2 <= 1_000_000,
                        0 <= intensity <= 100_000_000,
                        1 <= gstep <= 2_000_000,
                        steps <= 2_000_001,
                        ky <= steps,
                        image@.len() == 4_000_000,
                        forall|p: int|
                            0 <= p < 1_000_000 ==> (unchanged_pixel(old(image)@, image@, p)
                                || drawn_pixel(self.star, self.spots@, time as int, image@, p)),
                forall|ii: int|
                    0 <= ii < si && (#[trigger] self.spots@[ii]).alive_spec(time as int)
                        && origin_on_disk(self.star, self.spots@[ii], time as int) ==> drawn_pixel(
                        self.star,
                        self.spots@,
                        time as int,
                        image@,
                        scan_origin_pix(self.star, self.spots@[ii], time as int),
                    ),
                        (1 <= ky && origin_on_disk(self.star, self.spots@[si as int], time as int))
                            ==> drawn_pixel(
                            self.star,
                            self.spots@,
                            time as int,
                            image@,
                            scan_origin_pix(self.star, self.spots@[si as int], time as int),
                        ),
                    decreases steps - ky,
                {
                    proof {
                        assert((ky as int) * (gstep as int) <= 4_000_002_000_000int)
                            by (nonlinear_arith)
                            requires
                                0 <= ky as int <= 2_000_001,
                                0 <= gstep as int <= 2_000_000,
                        ;
                    }
                    let y: i64 = yc - rr + (ky as i64) * gstep;
                    if -1_000_000 <= y && y <= 1_000_000 {
                        let dy = y - yc;
                        proof {
                            lemma_fx_mul_bound(dy as int, dy as int, 2_000_000, 2_000_000);
                            vstd::arithmetic::mul::lemma_mul_nonnegative(
                                crate::fx::absi(dy as int),
                                crate::fx::absi(dy as int),
                            );
                            vstd::arithmetic::div_mod::lemma_div_pos_is_pos(
                                crate::fx::absi(dy as int) * crate::fx::absi(dy as int),
                                1_000_000,
                            );
                        }
                        let dy2 = fx_mul(dy, dy);
                        if dy2 <= rr2 {
                            let dz = crate::fx::fx_sqrt(rr2 - dy2);
                            proof {
                                // dz stays within the region's radius.
                                crate::fx::lemma_isqrt_bounds(((rr2 - dy2) * 1_000_000) as nat);
                                vstd::arithmetic::div_mod::lemma_fundamental_div_mod(
                                    (rr as int) * (rr as int),
                                    1_000_000,
                                );
                                vstd::arithmetic::mul::lemma_mul_nonnegative(rr as int, rr as int);
                                vstd::arithmetic::div_mod::lemma_mod_bound(
                                    (rr as int) * (rr as int),
                                    1_000_000,
                                );
                                assert((rr2 as int) * 1_000_000 <= (rr as int) * (rr as int));
                                assert((dz as int) * (dz as int) <= (rr as int) * (rr as int));
                                assert(dz <= rr) by (nonlinear_arith)
                                    requires
                                        0 <= dz,
                                        0 <= rr,
                                        (dz as int) * (dz as int) <= (rr as int) * (rr as int),
                                ;
                            }
                            let zsteps: usize = (2 * dz / gstep) as usize + 1;
                            let mut kz: usize = 0;
                            while kz < zsteps
                                invariant
                                    self.wf(),
                                    si < n,
                                    n == self.spots@.len(),
                                    0 <= time <= TIME_MAX,
                                    self.spots@[si as int].alive_spec(time as int),
                                    rr == self.spots@[si as int].size,
                                    intensity == self.spots@[si as int].intensity,
                                    yc == region_yc(self.star, self.spots@[si as int], time as int),
                                    zc == region_zc(self.spots@[si as int]),
                                    -1_000_000 <= y <= 1_000_000,
                                    -1_000_000 <= zc <= 1_000_000,
                                    0 <= rr <= 1_000_000,
                                    rr2 == fx_mul_spec(rr as int, rr as int),
                                    fx_mul_spec(y as int - yc as int, y as int - yc as int)
                                        <= fx_mul_spec(rr as int, rr as int),
                                    0 <= dz <= rr,
                                    0 <= intensity <= 100_000_000,
                                    1 <= gstep <= 2_000_000,
                                    zsteps as int == (2 * (dz as int)) / (gstep as int) + 1,
                                    zsteps <= 2_000_001,
                                    kz <= zsteps,
                                    image@.len() == 4_000_000,
                                    forall|p: int|
                                        0 <= p < 1_000_000 ==> (unchanged_pixel(
                                            old(image)@,
                                            image@,
                                            p,
                                        ) || drawn_pixel(
                                            self.star,
                                            self.spots@,
                                            time as int,
                                            image@,
                                            p,
                                        )),
                forall|ii: int|
                    0 <= ii < si && (#[trigger] self.spots@[ii]).alive_spec(time as int)
                        && origin_on_disk(self.star, self.spots@[ii], time as int) ==> drawn_pixel(
                        self.star,
                        self.spots@,
                        time as int,
                        image@,
                        scan_origin_pix(self.star, self.spots@[ii], time as int),
                    ),
                                    ky == 0 ==> y == yc - rr && dz == 0,
                                    ((1 <= ky || 1 <= kz) && origin_on_disk(
                                        self.star,
                                        self.spots@[si as int],
                                        time as int,
                                    )) ==> drawn_pixel(
                                        self.star,
                                        self.spots@,
                                        time as int,
                                        image@,
                                        scan_origin_pix(self.star, self.spots@[si as int], time as int),
                                    ),
                                decreases zsteps - kz,
                            {
                                proof {
                                    assert((kz as int) * (gstep as int) <= 4_000_002_000_000int)
                                        by (nonlinear_arith)
                                        requires
                                            0 <= kz as int <= 2_000_001,
                                            0 <= gstep as int <= 2_000_000,
                                    ;
                                    // kz * gstep <= 2 * dz, so z stays within dz of the center.
                                    vstd::arithmetic::mul::lemma_mul_inequality(
                                        kz as int,
                                        (2 * (dz as int)) / (gstep as int),
                                        gstep as int,
                                    );
                                    vstd::arithmetic::div_mod::lemma_fundamental_div_mod(
                                        2 * (dz as int),
                                        gstep as int,
                                    );
                                    vstd::arithmetic::div_mod::lemma_mod_bound(
                                        2 * (dz as int),
                                        gstep as int,
                                    );
                                    assert((kz as int) * (gstep as int) <= 2 * (dz as int));
                                }
                                let z: i64 = zc - dz + (kz as i64) * gstep;
                                if -1_000_000 <= z && z <= 1_000_000 {
                                    proof {
                                        lemma_fx_mul_bound(y as int, y as int, 1_000_000, 1_000_000);
                                        lemma_fx_mul_bound(z as int, z as int, 1_000_000, 1_000_000);
                                        vstd::arithmetic::mul::lemma_mul_nonnegative(
                                            crate::fx::absi(y as int),
                                            crate::fx::absi(y as int),
                                        );
                                        vstd::arithmetic::div_mod::lemma_div_pos_is_pos(
                                            crate::fx::absi(y as int) * crate::fx::absi(y as int),
                                            1_000_000,
                                        );
                                        vstd::arithmetic::mul::lemma_mul_nonnegative(
                                            crate::fx::absi(z as int),
                                            crate::fx::absi(z as int),
                                        );
                                        vstd::arithmetic::div_mod::lemma_div_pos_is_pos(
                                            crate::fx::absi(z as int) * crate::fx::absi(z as int),
                                            1_000_000,
                                        );
                                    }
                                    let x0: i64 = FX_ONE - fx_mul(y, y) - fx_mul(z, z);
                                    let xm: i64 = if x0 < 0 {
                                        0
                                    } else {
                                        x0
                                    };
                                    let lb = self.star.limb_brightness(xm);
                                    proof {
                                        lemma_fx_mul_bound(lb as int, intensity as int, 5_000_000, 100_000_000);
                                    }
                                    let ib0 = fx_mul(lb, intensity);
                                    let ib: i64 = if ib0 < 0 {
                                        0
                                    } else {
                                        ib0
                                    };
                                    proof {
                                        assert(ib as int == draw_shade_spec(
                                            self.star,
                                            intensity as int,
                                            y as int,
                                            z as int,
                                        ));
                                    }
                                    let rbyte: u8 = {
                                        let v = (ib as u64) * 255 / 1_000_000;
                                        if v > 255 {
                                            255
                                        } else {
                                            v as u8
                                        }
                                    };
                                    let gbyte: u8 = {
                                        let v = (ib as u64) * 131 / 1_000_000;
                                        if v > 255 {
                                            255
                                        } else {
                                            v as u8
                                        }
                                    };
                                    let yi0: u64 = ((y + 1_000_000) as u64) / 2_000;
                                    let y_index: usize = if yi0 > 999 {
                                        999
                                    } else {
                                        yi0 as usize
                                    };
                                    let zi0: u64 = ((1_000_000 - z) as u64) / 2_000;
                                    let z_index: usize = if zi0 > 999 {
                                        999
                                    } else {
                                        zi0 as usize
                                    };
                                    let idx: usize = z_index * 1_000 + y_index;
                                    let ghost prev: Seq<u8> = image@;
                                    image.set(4 * idx, rbyte);
                                    image.set(4 * idx + 1, gbyte);
                                    image.set(4 * idx + 2, 0);
                                    image.set(4 * idx + 3, 255);
                                    proof {
                                        assert(idx as int == pix_of(y as int, z as int));
                                        assert(rbyte as int == ramp_byte(
                                            draw_shade_spec(self.star, intensity as int, y as int, z as int),
                                            255,
                                        ));
                                        assert(gbyte as int == ramp_byte(
                                            draw_shade_spec(self.star, intensity as int, y as int, z as int),
                                            131,
                                        ));
                                        assert(drawn_pixel(
                                            self.star,
                                            self.spots@,
                                            time as int,
                                            image@,
                                            idx as int,
                                        )) by {
                                            let iw: int = si as int;
                                            let yw: int = y as int;
                                            let zw: int = z as int;
                                            assert(fx_mul_spec(
                                                yw - region_yc(self.star, self.spots@[iw], time as int),
                                                yw - region_yc(self.star, self.spots@[iw], time as int),
                                            ) <= fx_mul_spec(
                                                self.spots@[iw].size as int,
                                                self.spots@[iw].size as int,
                                            ));
                                            assert(absi(zw - region_zc(self.spots@[iw]))
                                                <= self.spots@[iw].size);
                                            assert(idx as int == pix_of(yw, zw));
                                        }
                                        assert forall|p: int| 0 <= p < 1_000_000 implies (
                                        unchanged_pixel(old(image)@, image@, p) || drawn_pixel(
                                            self.star,
                                            self.spots@,
                                            time as int,
                                            image@,
                                            p,
                                        )) by {
                                            if p != idx as int {
                                                assert(image@[4 * p] == prev[4 * p]);
                                                assert(image@[4 * p + 1] == prev[4 * p + 1]);
                                                assert(image@[4 * p + 2] == prev[4 * p + 2]);
                                                assert(image@[4 * p + 3] == prev[4 * p + 3]);
                                                if !unchanged_pixel(old(image)@, prev, p) {
                                                    assert(drawn_pixel(
                                                        self.star,
                                                        self.spots@,
                                                        time as int,
                                                        prev,
                                                        p,
                                                    ));
                                                    let (iw, yw, zw): (int, int, int) = choose|
                                                        iw: int,
                                                        yw: int,
                                                        zw: int,
                                                    |
                                                        #![trigger self.spots@[iw].alive_spec(time as int), pix_of(yw, zw)]
                                                        {
                                                            &&& 0 <= iw < self.spots@.len()
                                                            &&& self.spots@[iw].alive_spec(time as int)
                                                            &&& -1_000_000 <= yw <= 1_000_000
                                                            &&& -1_000_000 <= zw <= 1_000_000
                                                            &&& fx_mul_spec(
                                                                yw - region_yc(self.star, self.spots@[iw], time as int),
                                                                yw - region_yc(self.star, self.spots@[iw], time as int),
                                                            ) <= fx_mul_spec(
                                                                self.spots@[iw].size as int,
                                                                self.spots@[iw].size as int,
                                                            )
                                                            &&& absi(zw - region_zc(self.spots@[iw]))
                                                                <= self.spots@[iw].size
                                                            &&& p == pix_of(yw, zw)
                                                            &&& prev[4 * p] == ramp_byte(
                                                                draw_shade_spec(self.star, self.spots@[iw].intensity as int, yw, zw),
                                                                255,
                                                            )
                                                            &&& prev[4 * p + 1] == ramp_byte(
                                                                draw_shade_spec(self.star, self.spots@[iw].intensity as int, yw, zw),
                                                                131,
                                                            )
                                                            &&& prev[4 * p + 2] == 0
                                                            &&& prev[4 * p + 3] == 255
                                                        };
                                                    assert(image@[4 * p] == ramp_byte(
                                                        draw_shade_spec(self.star, self.spots@[iw].intensity as int, yw, zw),
                                                        255,
                                                    ));
                                                    assert(p == pix_of(yw, zw));
                                                    assert(drawn_pixel(
                                                        self.star,
                                                        self.spots@,
                                                        time as int,
                                                        image@,
                                                        p,
                                                    ));
                                                }
                                            }
                                        }
                                        assert forall|ii: int|
                                            0 <= ii < n as int && (#[trigger] self.spots@[ii]).alive_spec(
                                                time as int,
                                            ) && origin_on_disk(self.star, self.spots@[ii], time as int)
                                                && drawn_pixel(
                                                self.star,
                                                self.spots@,
                                                time as int,
                                                prev,
                                                scan_origin_pix(self.star, self.spots@[ii], time as int),
                                            ) implies drawn_pixel(
                                            self.star,
                                            self.spots@,
                                            time as int,
                                            image@,
                                            scan_origin_pix(self.star, self.spots@[ii], time as int),
                                        ) by {
                                            let q = scan_origin_pix(self.star, self.spots@[ii], time as int);
                                            assert(0 <= q < 1_000_000);
                                            if q != idx as int {
                                                assert(image@[4 * q] == prev[4 * q]);
                                                assert(image@[4 * q + 1] == prev[4 * q + 1]);
                                                assert(image@[4 * q + 2] == prev[4 * q + 2]);
                                                assert(image@[4 * q + 3] == prev[4 * q + 3]);
                                                lemma_drawn_transfer(
                                                    self.star,
                                                    self.spots@,
                                                    time as int,
                                                    prev,
                                                    image@,
                                                    q,
                                                );
                                            }
                                        }
                                        if ky == 0 && kz == 0 && origin_on_disk(
                                            self.star,
                                            self.spots@[si as int],
                                            time as int,
                                        ) {
                                            assert(y == yc - rr && z as int == zc as int);
                                            assert(idx as int == scan_origin_pix(
                                                self.star,
                                                self.spots@[si as int],
                                                time as int,
                                            ));
                                        }
                                    }
                                }
                                kz += 1;
                            }
                        }
                    }
                    ky += 1;
                }
            }
            si += 1;
        }
    }
}

} // verus!
