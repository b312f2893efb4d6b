//! A single transient active region on the stellar surface. A region is
//! never removed: its life is the predicate `alive`, true exactly on the
//! half-open window `[time_appear, time_disappear)`.

use vstd::prelude::*;

verus! {

use crate::fx::absi;
use crate::fx::fx_mul_spec;
use crate::fx::fx_mul;
use crate::trig::DEG_360;

/// Disappearance time of a region placed by static configuration.
pub const TIME_HORIZON: i64 = 1_000_000_000_000_000;

/// Fixed life span of a dynamically inserted region, in fixed-point days.
pub const LIFETIME: i64 = 15_000_000;

/// Largest accepted angular size of a region.
pub const SIZE_MAX: i64 = 1_000_000;

/// Largest accepted magnitude of a latitude.
pub const LAT_MAX: i64 = 90_000_000;

/// Largest magnitude of a relative intensity.
pub const INTENSITY_MAX: i64 = 100_000_000;

/// Degrees per radian, fixed point.
pub const RAD_TO_DEG: i64 = 57_295_780;

#[derive(Debug, Clone)]
pub struct Region {
    /// Latitude in fixed-point degrees.
    pub latitude: i64,
    /// Longitude in fixed-point degrees, in `[0, 360)`.
    pub longitude: i64,
    /// Angular radius in fixed-point radians.
    pub size: i64,
    /// Bright (plage) rather than dark polarity.
    pub plage: bool,
    /// First time at which the region is alive.
    pub time_appear: i64,
    /// First time after `time_appear` at which it is no longer alive.
    pub time_disappear: i64,
    /// Brightness relative to the quiet photosphere, for the current band.
    pub intensity: i64,
}

impl Region {
    /// Every region is either static (alive over the whole horizon) or
    /// dynamic (alive over a window of exactly `LIFETIME`).
    pub open spec fn wf(self) -> bool {
        &&& 0 <= self.size <= SIZE_MAX
        &&& -LAT_MAX <= self.latitude <= LAT_MAX
        &&& 0 <= self.longitude < DEG_360
        &&& 0 <= self.intensity <= INTENSITY_MAX
        &&& ((self.time_appear == 0 && self.time_disappear == TIME_HORIZON) || (
        self.time_disappear - self.time_appear == LIFETIME && 0 <= self.time_appear
            <= TIME_HORIZON - LIFETIME))
    }

    pub open spec fn alive_spec(self, t: int) -> bool {
        self.time_appear <= t < self.time_disappear
    }

    /// A region is alive at `t` exactly when `t` lies in its life window.
    pub fn alive(&self, t: i64) -> (r: bool)
        ensures
            r == self.alive_spec(t as int),
    {
        self.time_appear <= t && t < self.time_disappear
    }

    /// Covered area in squared fixed-point units: `size * size / 2`.
    pub open spec fn area_spec(self) -> int {
        (self.size * self.size) / 2
    }

    pub fn area_sq(&self) -> (r: i64)
        requires
            self.wf(),
        ensures
            r == self.area_spec(),
            0 <= r <= 500_000_000_000,
    {
        proof {
            assert(self.size * self.size <= 1_000_000_000_000int) by (nonlinear_arith)
                requires
                    0 <= self.size <= 1_000_000int,
            ;
            vstd::arithmetic::mul::lemma_mul_nonnegative(self.size as int, self.size as int);
        }
        ((self.size as u64 * self.size as u64) / 2) as i64
    }

    /// The life windows of two regions intersect.
    pub open spec fn windows_overlap(self, other: Region) -> bool {
        self.time_appear < other.time_disappear && other.time_appear < self.time_disappear
    }

    /// Angular-distance collision predicate: the latitude separation and
    /// the circular longitude separation are both below the summed angular
    /// radii (converted to degrees).
    pub open spec fn collides_spec(self, other: Region) -> bool {
        let dl = absi(self.latitude - other.latitude);
        let dg = absi(self.longitude - other.longitude);
        let dgc = if dg > 180_000_000 {
            360_000_000 - dg
        } else {
            dg
        };
        let reach = fx_mul_spec(self.size + other.size, RAD_TO_DEG as int);
        dl < reach && dgc < reach
    }

    pub fn collides_with(&self, other: &Region) -> (r: bool)
        requires
            self.wf(),
            other.wf(),
        ensures
            r == self.collides_spec(*other),
    {
        let dl = if self.latitude >= other.latitude {
            self.latitude - other.latitude
        } else {
            other.latitude - self.latitude
        };
        let dg = if self.longitude >= other.longitude {
            self.longitude - other.longitude
        } else {
            other.longitude - self.longitude
        };
        let dgc = if dg > 180_000_000 {
            360_000_000 - dg
        } else {
            dg
        };
        let reach = fx_mul(self.size + other.size, RAD_TO_DEG);
        dl < reach && dgc < reach
    }

    /// A region placed by static configuration: alive over the whole run.
    pub fn new_static(latitude: i64, longitude: i64, size: i64, plage: bool) -> (r: Region)
        requires
            0 <= size <= SIZE_MAX,
            -LAT_MAX <= latitude <= LAT_MAX,
            0 <= longitude < DEG_360,
        ensures
            r.wf(),
            r.latitude == latitude,
            r.longitude == longitude,
            r.size == size,
            r.plage == plage,
            r.time_appear == 0,
            r.time_disappear == TIME_HORIZON,
            r.intensity == 0,
    {
        Region {
            latitude,
            longitude,
            size,
            plage,
            time_appear: 0,
            time_disappear: TIME_HORIZON,
            intensity: 0,
        }
    }

    /// A region inserted by the maintenance process at time `t`: its life
    /// window is `[t, t + LIFETIME)`.
    pub fn new_dynamic(latitude: i64, longitude: i64, size: i64, t: i64) -> (r: Region)
        requires
            0 <= size <= SIZE_MAX,
            -LAT_MAX <= latitude <= LAT_MAX,
            0 <= longitude < DEG_360,
            0 <= t <= TIME_HORIZON - LIFETIME,
        ensures
            r.wf(),
            r.latitude == latitude,
            r.longitude == longitude,
            r.size == size,
            r.plage == false,
            r.time_appear == t,
            r.time_disappear == t + LIFETIME,
            r.intensity == 0,
            r.alive_spec(t as int),
    {
        Region {
            latitude,
            longitude,
            size,
            plage: false,
            time_appear: t,
            time_disappear: t + LIFETIME,
            intensity: 0,
        }
    }
}

/// For any well-formed existing region, overlap of its life window with
/// the window `[t, t + LIFETIME)` of a fresh candidate implies that the
/// existing region is alive at one of the candidate's two endpoints. This
/// is why the maintenance process needs to test exactly those two times.
pub proof fn lemma_overlap_hits_endpoint(existing: Region, t: int)
    requires
        existing.wf(),
        0 <= t <= TIME_HORIZON - LIFETIME,
        existing.time_appear < t + LIFETIME,
        t < existing.time_disappear,
    ensures
        existing.alive_spec(t) || existing.alive_spec(t + LIFETIME),
{
}

} // verus!
