//! A spectral line profile: a velocity grid and an amplitude at each grid
//! point, with a Doppler shift operation that moves the amplitudes by a
//! whole number of grid steps (rounding the velocity to the nearest step)
//! and pads with the edge amplitude.

use vstd::prelude::*;

verus! {

/// Largest accepted amplitude magnitude.
pub const CCF_MAX: i64 = 1_000_000_000;

/// Largest accepted velocity magnitude on the grid.
pub const RV_MAX: i64 = 100_000_000_000;

/// Largest accepted profile length.
pub const PROF_LEN_MAX: usize = 100_000;

#[derive(Debug)]
pub struct Profile {
    /// The velocity grid, uniformly spaced and increasing.
    pub rv: Vec<i64>,
    /// The amplitude at each velocity.
    pub ccf: Vec<i64>,
}

/// Clamp an index into `[0, n)`.
pub open spec fn clamp_idx(i: int, n: int) -> int {
    if i < 0 {
        0
    } else if i >= n {
        n - 1
    } else {
        i
    }
}

/// The grid spacing of a velocity sequence.
pub open spec fn seq_step(rv: Seq<i64>) -> int {
    if rv.len() < 2 {
        1
    } else {
        rv[1] - rv[0]
    }
}

/// The two vectors form a well-formed profile: parallel, non-empty and
/// bounded, on a uniformly spaced increasing velocity grid.
pub open spec fn profile_vecs_ok(rv: Seq<i64>, ccf: Seq<i64>) -> bool {
    &&& rv.len() == ccf.len()
    &&& 1 <= rv.len() <= PROF_LEN_MAX
    &&& (forall|i: int| 0 <= i < ccf.len() ==> -CCF_MAX <= #[trigger] ccf[i] <= CCF_MAX)
    &&& (forall|i: int| 0 <= i < rv.len() ==> -RV_MAX <= #[trigger] rv[i] <= RV_MAX)
    &&& seq_step(rv) > 0
    &&& (forall|i: int| 0 <= i < rv.len() - 1 ==> rv[i + 1] - #[trigger] rv[i] == seq_step(rv))
}

/// The number of whole grid steps nearest to `v / step`.
pub open spec fn shift_index_spec(v: int, step: int) -> int {
    if v >= 0 {
        (v + step / 2) / step
    } else {
        -((-v + step / 2) / step)
    }
}

impl Profile {
    pub open spec fn step_spec(self) -> int {
        if self.rv@.len() < 2 {
            1
        } else {
            self.rv@[1] - self.rv@[0]
        }
    }

    pub open spec fn wf(self) -> bool {
        &&& self.rv@.len() == self.ccf@.len()
        &&& 1 <= self.rv@.len() <= PROF_LEN_MAX
        &&& (forall|i: int|
            0 <= i < self.ccf@.len() ==> -CCF_MAX <= #[trigger] self.ccf@[i] <= CCF_MAX)
        &&& (forall|i: int| 0 <= i < self.rv@.len() ==> -RV_MAX <= #[trigger] self.rv@[i] <= RV_MAX)
        &&& self.step_spec() > 0
        &&& (forall|i: int|
            0 <= i < self.rv@.len() - 1 ==> self.rv@[i + 1] - #[trigger] self.rv@[i]
                == self.step_spec())
    }

    pub open spec fn len_spec(self) -> int {
        self.ccf@.len() as int
    }

    /// The amplitude of this profile once shifted by `k` grid steps, at
    /// grid position `j`.
    pub open spec fn shifted_at(self, k: int, j: int) -> int {
        self.ccf@[clamp_idx(j - k, self.ccf@.len() as int)] as int
    }

    pub fn len(&self) -> (r: usize)
        ensures
            r == self.len_spec(),
    {
        self.ccf.len()
    }

    /// Construct from parallel vectors; every well-formedness condition is
    /// checked, and `None` is returned exactly when one fails.
    pub fn new(rv: Vec<i64>, ccf: Vec<i64>) -> (r: Option<Profile>)
        ensures
            r is Some ==> r->0.wf() && r->0.rv@ == rv@ && r->0.ccf@ == ccf@,
            (r is Some) <==> profile_vecs_ok(rv@, ccf@),
    {
        if rv.len() != ccf.len() || rv.len() < 1 || rv.len() > PROF_LEN_MAX {
            return None;
        }
        let p = Profile { rv, ccf };
        let step = if p.rv.len() >= 2 {
            let a = p.rv[0];
            let b = p.rv[1];
            if -RV_MAX <= a && a <= RV_MAX && -RV_MAX <= b && b <= RV_MAX {
                b - a
            } else {
                proof {
                    assert(!(-RV_MAX <= rv@[0] <= RV_MAX) || !(-RV_MAX <= rv@[1] <= RV_MAX));
                    assert(!profile_vecs_ok(rv@, ccf@));
                }
                return None;
            }
        } else {
            1
        };
        if step <= 0 {
            return None;
        }
        let n = p.rv.len();
        let mut i: usize = 0;
        while i < n
            invariant
                0 < n == p.rv@.len() == p.ccf@.len(),
                n <= PROF_LEN_MAX,
                p.rv@ == rv@,
                p.ccf@ == ccf@,
                i <= n,
                step == p.step_spec(),
                step == seq_step(rv@),
                step > 0,
                forall|q: int| 0 <= q < i ==> -CCF_MAX <= #[trigger] p.ccf@[q] <= CCF_MAX,
                forall|q: int| 0 <= q < i ==> -RV_MAX <= #[trigger] p.rv@[q] <= RV_MAX,
                forall|q: int|
                    0 <= q < i && q < n - 1 ==> p.rv@[q + 1] - #[trigger] p.rv@[q]
                        == p.step_spec(),
            decreases n - i,
        {
            let c = p.ccf[i];
            if c < -CCF_MAX || c > CCF_MAX {
                proof {
                    assert(!(-CCF_MAX <= ccf@[i as int] <= CCF_MAX));
                }
                return None;
            }
            let v = p.rv[i];
            if v < -RV_MAX || v > RV_MAX {
                proof {
                    assert(!(-RV_MAX <= rv@[i as int] <= RV_MAX));
                }
                return None;
            }
            if i + 1 < n {
                let w = p.rv[i + 1];
                if w < -RV_MAX || w > RV_MAX {
                    proof {
                        assert(!(-RV_MAX <= rv@[i as int + 1] <= RV_MAX));
                    }
                    return None;
                }
                if w - v != step {
                    proof {
                        assert(rv@[i as int + 1] - rv@[i as int] != seq_step(rv@));
                    }
                    return None;
                }
            }
            i += 1;
        }
        Some(p)
    }

    /// Doppler shift: move the amplitudes by the whole number of grid
    /// steps nearest to `v`, padding with the edge amplitude.
    pub fn shift(&self, v: i64) -> (r: Vec<i64>)
        requires
            self.wf(),
            -crate::fx::FX_DIV_NUM_MAX <= v <= crate::fx::FX_DIV_NUM_MAX,
        ensures
            r@.len() == self.ccf@.len(),
            forall|j: int|
                0 <= j < r@.len() ==> #[trigger] r@[j] == self.shifted_at(
                    shift_index_spec(v as int, self.step_spec()),
                    j,
                ),
    {
        let n = self.ccf.len();
        let step: i64 = if n >= 2 {
            self.rv[1] - self.rv[0]
        } else {
            1
        };
        let av: u64 = crate::fx::abs_u(v);
        let k_mag: u64 = (av + (step as u64) / 2) / (step as u64);
        let k: i128 = if v >= 0 {
            k_mag as i128
        } else {
            -(k_mag as i128)
        };
        proof {
            assert(k == shift_index_spec(v as int, self.step_spec()));
        }
        let mut r: Vec<i64> = Vec::new();
        let mut j: usize = 0;
        while j < n
            invariant
                n == self.ccf@.len(),
                self.wf(),
                j <= n,
                r@.len() == j,
                k == shift_index_spec(v as int, self.step_spec()),
                forall|q: int| 0 <= q < j ==> #[trigger] r@[q] == self.shifted_at(k as int, q),
            decreases n - j,
        {
            let src: i128 = j as i128 - k;
            let idx: usize = if src < 0 {
                0
            } else if src >= n as i128 {
                n - 1
            } else {
                src as usize
            };
            r.push(self.ccf[idx]);
            j += 1;
        }
        r
    }
}

} // verus!
