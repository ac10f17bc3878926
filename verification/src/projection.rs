//! Pressure projection: iterative divergence removal against solid obstacles.
//!
//! Each sweep walks every mask cell in column-major order.  A solid cell has
//! both of its lower faces zeroed; a fluid cell first zeroes any face shared
//! with a solid lower neighbor, then computes its local divergence, divides
//! the overrelaxed correction by the number of open neighbors, and
//! distributes it to the four adjoining face velocities, each weighted by
//! that neighbor's obstacle flag.  Cells updated within a sweep immediately
//! affect later cells of the same sweep (Gauss–Seidel relaxation), so the
//! sweep is specified as a fold over the cells in execution order, and
//! `projection` repeats it a fixed number of times.

use crate::fluid::Fluid;
use crate::scalar::{
    div_tz, fx_add, fx_add_spec, fx_div_count, fx_mul, fx_mul_spec, fx_sub, fx_sub_spec,
};
use vstd::prelude::*;

verus! {

/// What one projection sweep reads but never writes: the obstacle mask with
/// its dimensions, the velocity planes' dimensions, and the overrelaxation
/// coefficient.
pub ghost struct ProjEnv {
    /// The obstacle mask's cells.
    pub b: Seq<u8>,
    /// The mask's width.
    pub bw: int,
    /// The mask's height.
    pub bh: int,
    /// The `u` plane's width.
    pub uw: int,
    /// The `u` plane's height.
    pub uh: int,
    /// The `v` plane's width.
    pub vw: int,
    /// The `v` plane's height.
    pub vh: int,
    /// The overrelaxation coefficient.
    pub coef: i64,
}

/// The velocity planes a sweep transforms.
pub ghost struct UV {
    /// The `u` plane's cells.
    pub u: Seq<i64>,
    /// The `v` plane's cells.
    pub v: Seq<i64>,
}

/// Well-formedness of a projection environment: the staggered dimension
/// relations of the solver and a mask of 0/1 flags.
pub open spec fn env_wf(env: ProjEnv) -> bool {
    &&& 1 <= env.bw <= 20_000
    &&& 1 <= env.bh <= 20_000
    &&& env.uw == env.bw + 1
    &&& env.uh == env.bh
    &&& env.vw == env.bw
    &&& env.vh == env.bh + 1
    &&& env.b.len() == env.bw * env.bh
    &&& forall|j: int| 0 <= j < env.b.len() ==> env.b[j] <= 1
}

/// The velocity planes have the sizes the environment prescribes.
pub open spec fn uv_wf(env: ProjEnv, s: UV) -> bool {
    &&& s.u.len() == env.uw * env.uh
    &&& s.v.len() == env.vw * env.vh
}

/// The obstacle flag at mask cell `(i, k)`: solid (0) outside range.
pub open spec fn mask_at(env: ProjEnv, i: int, k: int) -> u8 {
    if 0 <= i < env.bw && 0 <= k < env.bh {
        env.b[i * env.bh + k]
    } else {
        0u8
    }
}

/// The `u` face velocity at `(i, k)`: zero outside range.
pub open spec fn u_at(env: ProjEnv, u: Seq<i64>, i: int, k: int) -> i64 {
    if 0 <= i < env.uw && 0 <= k < env.uh {
        u[i * env.uh + k]
    } else {
        0i64
    }
}

/// The `u` plane with `(i, k)` set to `x`; out of range, unchanged.
pub open spec fn u_set(env: ProjEnv, u: Seq<i64>, i: int, k: int, x: i64) -> Seq<i64> {
    if 0 <= i < env.uw && 0 <= k < env.uh {
        u.update(i * env.uh + k, x)
    } else {
        u
    }
}

/// The `v` face velocity at `(i, k)`: zero outside range.
pub open spec fn v_at(env: ProjEnv, v: Seq<i64>, i: int, k: int) -> i64 {
    if 0 <= i < env.vw && 0 <= k < env.vh {
        v[i * env.vh + k]
    } else {
        0i64
    }
}

/// The `v` plane with `(i, k)` set to `x`; out of range, unchanged.
pub open spec fn v_set(env: ProjEnv, v: Seq<i64>, i: int, k: int, x: i64) -> Seq<i64> {
    if 0 <= i < env.vw && 0 <= k < env.vh {
        v.update(i * env.vh + k, x)
    } else {
        v
    }
}

/// The local divergence of cell `(i, k)`: net outflow through its four
/// faces, with each fixed-point step saturating as the executable
/// arithmetic does.
pub open spec fn spec_divergence(env: ProjEnv, s: UV, i: int, k: int) -> int {
    fx_sub_spec(
        fx_add_spec(
            fx_sub_spec(u_at(env, s.u, i + 1, k) as int, u_at(env, s.u, i, k) as int),
            v_at(env, s.v, i, k + 1) as int,
        ),
        v_at(env, s.v, i, k) as int,
    )
}

/// The relaxation of one fluid cell: if every neighbor is solid the cell is
/// skipped; otherwise the overrelaxed divergence is divided by the open
/// neighbor count and distributed to the four adjoining faces, each update
/// weighted by that neighbor's obstacle flag and signed to reduce the cell's
/// divergence.
pub open spec fn spec_solve_cell(env: ProjEnv, s: UV, i: int, k: int) -> UV {
    let b0 = mask_at(env, i - 1, k) as int;
    let b1 = mask_at(env, i + 1, k) as int;
    let b2 = mask_at(env, i, k - 1) as int;
    let b3 = mask_at(env, i, k + 1) as int;
    let open_count = b0 + b1 + b2 + b3;
    if open_count == 0 {
        s
    } else {
        let corr = div_tz(fx_mul_spec(spec_divergence(env, s, i, k), env.coef as int), open_count);
        let u1 = u_set(
            env,
            s.u,
            i,
            k,
            fx_add_spec(u_at(env, s.u, i, k) as int, corr * b0) as i64,
        );
        let u2 = u_set(
            env,
            u1,
            i + 1,
            k,
            fx_sub_spec(u_at(env, u1, i + 1, k) as int, corr * b1) as i64,
        );
        let v1 = v_set(
            env,
            s.v,
            i,
            k,
            fx_add_spec(v_at(env, s.v, i, k) as int, corr * b2) as i64,
        );
        let v2 = v_set(
            env,
            v1,
            i,
            k + 1,
            fx_sub_spec(v_at(env, v1, i, k + 1) as int, corr * b3) as i64,
        );
        UV { u: u2, v: v2 }
    }
}

/// One cell of a sweep: a solid cell has its own two lower faces zeroed and
/// is not relaxed; a fluid cell first zeroes any face shared with a solid
/// lower neighbor, then is relaxed.
pub open spec fn spec_proj_cell(env: ProjEnv, s: UV, i: int, k: int) -> UV {
    if mask_at(env, i, k) == 0 {
        UV { u: u_set(env, s.u, i, k, 0i64), v: v_set(env, s.v, i, k, 0i64) }
    } else {
        let u1 = if mask_at(env, i - 1, k) == 0 {
            u_set(env, s.u, i, k, 0i64)
        } else {
            s.u
        };
        let v1 = if mask_at(env, i, k - 1) == 0 {
            v_set(env, s.v, i, k, 0i64)
        } else {
            s.v
        };
        spec_solve_cell(env, UV { u: u1, v: v1 }, i, k)
    }
}

/// The first `kn` cells of mask column `i`, in order.
pub open spec fn spec_proj_column(env: ProjEnv, s: UV, i: int, kn: nat) -> UV
    decreases kn,
{
    if kn == 0 {
        s
    } else {
        spec_proj_cell(env, spec_proj_column(env, s, i, (kn - 1) as nat), i, kn - 1)
    }
}

/// The first `iw` full columns of a sweep, in order.
pub open spec fn spec_proj_columns(env: ProjEnv, s: UV, iw: nat) -> UV
    decreases iw,
{
    if iw == 0 {
        s
    } else {
        spec_proj_column(env, spec_proj_columns(env, s, (iw - 1) as nat), iw - 1, env.bh as nat)
    }
}

/// One full relaxation sweep over every mask cell, in execution order.
pub open spec fn spec_proj_sweep(env: ProjEnv, s: UV) -> UV {
    spec_proj_columns(env, s, env.bw as nat)
}

/// `n` repeated sweeps.
pub open spec fn spec_proj_iter(env: ProjEnv, s: UV, n: nat) -> UV
    decreases n,
{
    if n == 0 {
        s
    } else {
        spec_proj_sweep(env, spec_proj_iter(env, s, (n - 1) as nat))
    }
}

impl Fluid {
    /// What projection reads but never writes, taken from this state.
    pub open spec fn proj_env(self) -> ProjEnv {
        ProjEnv {
            b: self.b@,
            bw: self.b.spec_width(),
            bh: self.b.spec_height(),
            uw: self.u.spec_width(),
            uh: self.u.spec_height(),
            vw: self.v.spec_width(),
            vh: self.v.spec_height(),
            coef: self.overrelaxation_coefficient,
        }
    }

    /// The current velocity planes, as a sweep state.
    pub open spec fn uv_state(self) -> UV {
        UV { u: self.u@, v: self.v@ }
    }

    /// A well-formed solver yields a well-formed projection environment.
    pub proof fn lemma_proj_env_wf(self)
        requires
            self.wf(),
        ensures
            env_wf(self.proj_env()),
            uv_wf(self.proj_env(), self.uv_state()),
    {
    }

    /// The net outflow through the four faces of cell `(i, k)`.
    fn get_divergence(&self, i: i32, k: i32) -> (r: i64)
        requires
            self.wf(),
            i < i32::MAX,
            k < i32::MAX,
        ensures
            r as int == spec_divergence(self.proj_env(), self.uv_state(), i as int, k as int),
    {
        fx_sub(
            fx_add(fx_sub(self.u.get(i + 1, k), self.u.get(i, k)), self.v.get(i, k + 1)),
            self.v.get(i, k),
        )
    }

    /// Relax one fluid cell: divide the overrelaxed divergence among the
    /// open neighbors and correct the four adjoining face velocities.
    fn solve_divergence(&mut self, i: i32, k: i32)
        requires
            old(self).wf(),
            0 <= i < i32::MAX,
            0 <= k < i32::MAX,
        ensures
            final(self).wf(),
            final(self).same_parameters(*old(self)),
            final(self).b == old(self).b,
            final(self).s == old(self).s,
            final(self).next_u == old(self).next_u,
            final(self).next_v == old(self).next_v,
            final(self).next_s == old(self).next_s,
            final(self).uv_state() == spec_solve_cell(
                old(self).proj_env(),
                old(self).uv_state(),
                i as int,
                k as int,
            ),
    {
        let ghost env = old(self).proj_env();
        let ghost s = old(self).uv_state();
        let b0: u8 = self.b.get(i - 1, k);
        let b1: u8 = self.b.get(i + 1, k);
        let b2: u8 = self.b.get(i, k - 1);
        let b3: u8 = self.b.get(i, k + 1);
        proof {
            if self.b.in_range(i as int - 1, k as int) {
                self.b.lemma_flat_bounds(i as int - 1, k as int);
            }
            if self.b.in_range(i as int + 1, k as int) {
                self.b.lemma_flat_bounds(i as int + 1, k as int);
            }
            if self.b.in_range(i as int, k as int - 1) {
                self.b.lemma_flat_bounds(i as int, k as int - 1);
            }
            if self.b.in_range(i as int, k as int + 1) {
                self.b.lemma_flat_bounds(i as int, k as int + 1);
            }
            assert(b0 == mask_at(env, i as int - 1, k as int));
            assert(b1 == mask_at(env, i as int + 1, k as int));
            assert(b2 == mask_at(env, i as int, k as int - 1));
            assert(b3 == mask_at(env, i as int, k as int + 1));
        }

        let open_count: i64 = b0 as i64 + b1 as i64 + b2 as i64 + b3 as i64;
        if open_count == 0 {
            return ;
        }
        let divergence: i64 = self.get_divergence(i, k);
        let corr: i64 = fx_div_count(
            fx_mul(divergence, self.overrelaxation_coefficient),
            open_count,
        );
        let ghost corr_s = div_tz(
            fx_mul_spec(spec_divergence(env, s, i as int, k as int), env.coef as int),
            open_count as int,
        );
        proof {
            assert(corr as int == corr_s);
        }

        let w0: i64 = if b0 == 1 {
            corr
        } else {
            0
        };
        proof {
            lemma_weight(corr_s, b0 as int);
            assert(w0 as int == corr_s * (b0 as int));
        }
        let t0: i64 = fx_add(self.u.get(i, k), w0);
        self.u.set(i, k, t0);
        let ghost u1 = u_set(
            env,
            s.u,
            i as int,
            k as int,
            fx_add_spec(u_at(env, s.u, i as int, k as int) as int, corr_s * (b0 as int)) as i64,
        );
        proof {
            assert(self.u@ == u1);
        }

        let w1: i64 = if b1 == 1 {
            corr
        } else {
            0
        };
        proof {
            lemma_weight(corr_s, b1 as int);
        }
        let t1: i64 = fx_sub(self.u.get(i + 1, k), w1);
        self.u.set(i + 1, k, t1);
        let ghost u2 = u_set(
            env,
            u1,
            i as int + 1,
            k as int,
            fx_sub_spec(u_at(env, u1, i as int + 1, k as int) as int, corr_s * (b1 as int)) as i64,
        );
        proof {
            assert(self.u@ == u2);
        }

        let w2: i64 = if b2 == 1 {
            corr
        } else {
            0
        };
        proof {
            lemma_weight(corr_s, b2 as int);
        }
        let t2: i64 = fx_add(self.v.get(i, k), w2);
        self.v.set(i, k, t2);
        let ghost v1 = v_set(
            env,
            s.v,
            i as int,
            k as int,
            fx_add_spec(v_at(env, s.v, i as int, k as int) as int, corr_s * (b2 as int)) as i64,
        );
        proof {
            assert(self.v@ == v1);
        }

        let w3: i64 = if b3 == 1 {
            corr
        } else {
            0
        };
        proof {
            lemma_weight(corr_s, b3 as int);
        }
        let t3: i64 = fx_sub(self.v.get(i, k + 1), w3);
        self.v.set(i, k + 1, t3);
        let ghost v2 = v_set(
            env,
            v1,
            i as int,
            k as int + 1,
            fx_sub_spec(v_at(env, v1, i as int, k as int + 1) as int, corr_s * (b3 as int)) as i64,
        );
        proof {
            assert(self.v@ == v2);
            assert(self.uv_state() == UV { u: u2, v: v2 });
            assert(spec_solve_cell(env, s, i as int, k as int) == UV { u: u2, v: v2 });
        }
    }

    /// One full relaxation sweep over every mask cell: zero the faces of and
    /// into solid cells, and relax each fluid cell in place, so corrections
    /// made early in the sweep are seen by the cells after them.
    pub fn solve_divergence_for_all(&mut self)
        requires
            old(self).wf(),
        ensures
            final(self).wf(),
            final(self).same_parameters(*old(self)),
            final(self).b == old(self).b,
            final(self).s == old(self).s,
            final(self).next_u == old(self).next_u,
            final(self).next_v == old(self).next_v,
            final(self).next_s == old(self).next_s,
            final(self).uv_state() == spec_proj_sweep(old(self).proj_env(), old(self).uv_state()),
    {
        let w: usize = self.b.width();
        let h: usize = self.b.height();
        let ghost env = old(self).proj_env();
        let ghost s0 = old(self).uv_state();
        let mut i: usize = 0;
        while i < w
            invariant
                self.wf(),
                self.same_parameters(*old(self)),
                self.b == old(self).b,
                self.s == old(self).s,
                self.next_u == old(self).next_u,
                self.next_v == old(self).next_v,
                self.next_s == old(self).next_s,
                w == self.b.spec_width(),
                h == self.b.spec_height(),
                w < i32::MAX,
                h < i32::MAX,
                env == self.proj_env(),
                s0 == old(self).uv_state(),
                i <= w,
                self.uv_state() == spec_proj_columns(env, s0, i as nat),
            decreases w - i,
        {
            let ghost scol = spec_proj_columns(env, s0, i as nat);
            let mut k: usize = 0;
            while k < h
                invariant
                    self.wf(),
                    self.same_parameters(*old(self)),
                    self.b == old(self).b,
                    self.s == old(self).s,
                    self.next_u == old(self).next_u,
                    self.next_v == old(self).next_v,
                    self.next_s == old(self).next_s,
                    w == self.b.spec_width(),
                    h == self.b.spec_height(),
                    w < i32::MAX,
                    h < i32::MAX,
                    env == self.proj_env(),
                    i < w,
                    k <= h,
                    scol == spec_proj_columns(env, s0, i as nat),
                    self.uv_state() == spec_proj_column(env, scol, i as int, k as nat),
                decreases h - k,
            {
                let ii: i32 = i as i32;
                let kk: i32 = k as i32;
                let ghost sprev = self.uv_state();

                if self.b.get(ii, kk) == 0 {
                    self.u.set(ii, kk, 0i64);
                    self.v.set(ii, kk, 0i64);
                } else {
                    if self.b.get(ii - 1, kk) == 0 {
                        self.u.set(ii, kk, 0i64);
                    }
                    if self.b.get(ii, kk - 1) == 0 {
                        self.v.set(ii, kk, 0i64);
                    }
                    self.solve_divergence(ii, kk);
                }
                proof {
                    assert(self.uv_state() == spec_proj_cell(env, sprev, ii as int, kk as int));
                    assert(spec_proj_column(env, scol, i as int, (k + 1) as nat)
                        == spec_proj_cell(
                        env,
                        spec_proj_column(env, scol, i as int, k as nat),
                        i as int,
                        k as int,
                    ));
                }
                k = k + 1;
            }
            proof {
                assert(spec_proj_columns(env, s0, (i + 1) as nat) == spec_proj_column(
                    env,
                    spec_proj_columns(env, s0, i as nat),
                    i as int,
                    env.bh as nat,
                ));
            }
            i = i + 1;
        }
    }

    /// Run the configured number of relaxation sweeps.  The fixed sweep
    /// count is a bounded-cost, real-time tradeoff: the relaxation is not
    /// iterated to convergence.
    pub fn projection(&mut self)
        requires
            old(self).wf(),
        ensures
            final(self).wf(),
            final(self).same_parameters(*old(self)),
            final(self).b == old(self).b,
            final(self).s == old(self).s,
            final(self).next_u == old(self).next_u,
            final(self).next_v == old(self).next_v,
            final(self).next_s == old(self).next_s,
            final(self).uv_state() == spec_proj_iter(
                old(self).proj_env(),
                old(self).uv_state(),
                old(self).n_iterations as nat,
            ),
    {
        let n: usize = self.n_iterations;
        let ghost env = old(self).proj_env();
        let ghost s0 = old(self).uv_state();
        let mut it: usize = 0;
        while it < n
            invariant
                self.wf(),
                self.same_parameters(*old(self)),
                self.b == old(self).b,
                self.s == old(self).s,
                self.next_u == old(self).next_u,
                self.next_v == old(self).next_v,
                self.next_s == old(self).next_s,
                env == self.proj_env(),
                s0 == old(self).uv_state(),
                it <= n,
                self.uv_state() == spec_proj_iter(env, s0, it as nat),
            decreases n - it,
        {
            self.solve_divergence_for_all();
            proof {
                assert(spec_proj_iter(env, s0, (it + 1) as nat) == spec_proj_sweep(
                    env,
                    spec_proj_iter(env, s0, it as nat),
                ));
            }
            it = it + 1;
        }
    }
}

/// A correction weighted by an obstacle flag: the flag is 0 or 1, so the
/// weighted correction is either zero or the correction itself.
proof fn lemma_weight(corr: int, flag: int)
    requires
        0 <= flag <= 1,
    ensures
        corr * flag == if flag == 1 {
            corr
        } else {
            0
        },
{
    assert(corr * flag == if flag == 1 {
        corr
    } else {
        0
    }) by (nonlinear_arith)
        requires
            0 <= flag <= 1,
    ;
}

/// A position inside a `w` by `h` rectangle has its flat index inside the
/// storage.
proof fn lemma_flat_range(i: int, k: int, w: int, h: int)
    requires
        0 <= i < w,
        0 <= k < h,
    ensures
        0 <= i * h + k < w * h,
{
    assert(0 <= i * h + k < w * h) by (nonlinear_arith)
        requires
            0 <= i < w,
            0 <= k < h,
    ;
}

/// Distinct positions of a rectangle have distinct flat indices.
proof fn lemma_flat_distinct(i: int, k: int, a: int, b: int, h: int)
    requires
        0 <= k < h,
        0 <= b < h,
        i != a || k != b,
    ensures
        i * h + k != a * h + b,
{
    assert(i * h + k != a * h + b) by (nonlinear_arith)
        requires
            0 <= k < h,
            0 <= b < h,
            i != a || k != b,
    ;
}

/// Every obstacle flag of a well-formed environment is 0 or 1.
proof fn lemma_mask_bounded(env: ProjEnv)
    requires
        env_wf(env),
    ensures
        forall|a: int, b: int| #![trigger mask_at(env, a, b)] mask_at(env, a, b) <= 1,
{
    assert forall|a: int, b: int| #![trigger mask_at(env, a, b)] mask_at(env, a, b) <= 1 by {
        if 0 <= a < env.bw && 0 <= b < env.bh {
            lemma_flat_range(a, b, env.bw, env.bh);
        }
    }
}

/// Writing one `u` face changes that face's reading and no other.
proof fn lemma_u_set_pointwise(env: ProjEnv, u: Seq<i64>, i: int, k: int)
    requires
        env_wf(env),
        u.len() == env.uw * env.uh,
    ensures
        forall|x: i64| #![trigger u_set(env, u, i, k, x)] u_set(env, u, i, k, x).len() == u.len(),
        forall|x: i64, a: int, b: int|
            #![trigger u_at(env, u_set(env, u, i, k, x), a, b)]
            u_at(env, u_set(env, u, i, k, x), a, b) == if a == i && b == k && 0 <= i < env.uw && 0
                <= k < env.uh {
                x
            } else {
                u_at(env, u, a, b)
            },
{
    if 0 <= i < env.uw && 0 <= k < env.uh {
        lemma_flat_range(i, k, env.uw, env.uh);
    }
    assert forall|x: i64, a: int, b: int|
        #![trigger u_at(env, u_set(env, u, i, k, x), a, b)]
        u_at(env, u_set(env, u, i, k, x), a, b) == if a == i && b == k && 0 <= i < env.uw && 0 <= k
            < env.uh {
        x
    } else {
        u_at(env, u, a, b)
    } by {
        if 0 <= i < env.uw && 0 <= k < env.uh {
            lemma_flat_range(i, k, env.uw, env.uh);
            if 0 <= a < env.uw && 0 <= b < env.uh {
                lemma_flat_range(a, b, env.uw, env.uh);
                if a != i || b != k {
                    lemma_flat_distinct(a, b, i, k, env.uh);
                }
            }
        }
    }
}

/// Writing one `v` face changes that face's reading and no other.
proof fn lemma_v_set_pointwise(env: ProjEnv, v: Seq<i64>, i: int, k: int)
    requires
        env_wf(env),
        v.len() == env.vw * env.vh,
    ensures
        forall|x: i64| #![trigger v_set(env, v, i, k, x)] v_set(env, v, i, k, x).len() == v.len(),
        forall|x: i64, a: int, b: int|
            #![trigger v_at(env, v_set(env, v, i, k, x), a, b)]
            v_at(env, v_set(env, v, i, k, x), a, b) == if a == i && b == k && 0 <= i < env.vw && 0
                <= k < env.vh {
                x
            } else {
                v_at(env, v, a, b)
            },
{
    if 0 <= i < env.vw && 0 <= k < env.vh {
        lemma_flat_range(i, k, env.vw, env.vh);
    }
    assert forall|x: i64, a: int, b: int|
        #![trigger v_at(env, v_set(env, v, i, k, x), a, b)]
        v_at(env, v_set(env, v, i, k, x), a, b) == if a == i && b == k && 0 <= i < env.vw && 0 <= k
            < env.vh {
        x
    } else {
        v_at(env, v, a, b)
    } by {
        if 0 <= i < env.vw && 0 <= k < env.vh {
            lemma_flat_range(i, k, env.vw, env.vh);
            if 0 <= a < env.vw && 0 <= b < env.vh {
                lemma_flat_range(a, b, env.vw, env.vh);
                if a != i || b != k {
                    lemma_flat_distinct(a, b, i, k, env.vh);
                }
            }
        }
    }
}

/// One cell step preserves the planes' sizes.
proof fn lemma_cell_preserves_wf(env: ProjEnv, s: UV, i: int, k: int)
    requires
        env_wf(env),
        uv_wf(env, s),
    ensures
        uv_wf(env, spec_proj_cell(env, s, i, k)),
{
    lemma_u_set_pointwise(env, s.u, i, k);
    lemma_v_set_pointwise(env, s.v, i, k);
    if mask_at(env, i, k) != 0 {
        let u1 = if mask_at(env, i - 1, k) == 0 {
            u_set(env, s.u, i, k, 0i64)
        } else {
            s.u
        };
        let v1 = if mask_at(env, i, k - 1) == 0 {
            v_set(env, s.v, i, k, 0i64)
        } else {
            s.v
        };
        lemma_u_set_pointwise(env, u1, i, k);
        lemma_v_set_pointwise(env, v1, i, k);
        let b0 = mask_at(env, i - 1, k) as int;
        let b2 = mask_at(env, i, k - 1) as int;
        let corr = div_tz(
            fx_mul_spec(spec_divergence(env, UV { u: u1, v: v1 }, i, k), env.coef as int),
            b0 + mask_at(env, i + 1, k) as int + b2 + mask_at(env, i, k + 1) as int,
        );
        let u2 = u_set(env, u1, i, k, fx_add_spec(u_at(env, u1, i, k) as int, corr * b0) as i64);
        lemma_u_set_pointwise(env, u2, i + 1, k);
        let v2 = v_set(env, v1, i, k, fx_add_spec(v_at(env, v1, i, k) as int, corr * b2) as i64);
        lemma_v_set_pointwise(env, v2, i, k + 1);
    }
}

/// A column prefix preserves the planes' sizes.
proof fn lemma_column_preserves_wf(env: ProjEnv, s: UV, i: int, kn: nat)
    requires
        env_wf(env),
        uv_wf(env, s),
    ensures
        uv_wf(env, spec_proj_column(env, s, i, kn)),
    decreases kn,
{
    if kn > 0 {
        lemma_column_preserves_wf(env, s, i, (kn - 1) as nat);
        lemma_cell_preserves_wf(env, spec_proj_column(env, s, i, (kn - 1) as nat), i, kn - 1);
    }
}

/// A sweep prefix preserves the planes' sizes.
proof fn lemma_columns_preserve_wf(env: ProjEnv, s: UV, iw: nat)
    requires
        env_wf(env),
        uv_wf(env, s),
    ensures
        uv_wf(env, spec_proj_columns(env, s, iw)),
    decreases iw,
{
    if iw > 0 {
        lemma_columns_preserve_wf(env, s, (iw - 1) as nat);
        lemma_column_preserves_wf(
            env,
            spec_proj_columns(env, s, (iw - 1) as nat),
            iw - 1,
            env.bh as nat,
        );
    }
}

/// Repeated sweeps preserve the planes' sizes.
pub proof fn lemma_iter_preserves_wf(env: ProjEnv, s: UV, n: nat)
    requires
        env_wf(env),
        uv_wf(env, s),
    ensures
        uv_wf(env, spec_proj_iter(env, s, n)),
    decreases n,
{
    if n > 0 {
        lemma_iter_preserves_wf(env, s, (n - 1) as nat);
        lemma_columns_preserve_wf(env, spec_proj_iter(env, s, (n - 1) as nat), env.bw as nat);
    }
}

/// Every stored value of the plane is zero.
pub open spec fn all_zero(s: Seq<i64>) -> bool {
    forall|j: int| 0 <= j < s.len() ==> s[j] == 0i64
}

/// One cell step maps all-zero velocity planes to all-zero velocity planes:
/// zeroing writes zero, and the divergence of a zero field is zero, so every
/// correction is zero too.
proof fn lemma_cell_preserves_zero(env: ProjEnv, s: UV, i: int, k: int)
    requires
        env_wf(env),
        uv_wf(env, s),
        all_zero(s.u),
        all_zero(s.v),
    ensures
        uv_wf(env, spec_proj_cell(env, s, i, k)),
        all_zero(spec_proj_cell(env, s, i, k).u),
        all_zero(spec_proj_cell(env, s, i, k).v),
{
    lemma_mask_bounded(env);
    assert forall|a: int, b: int| #![trigger u_at(env, s.u, a, b)] u_at(env, s.u, a, b) == 0 by {
        if 0 <= a < env.uw && 0 <= b < env.uh {
            lemma_flat_range(a, b, env.uw, env.uh);
        }
    }
    assert forall|a: int, b: int| #![trigger v_at(env, s.v, a, b)] v_at(env, s.v, a, b) == 0 by {
        if 0 <= a < env.vw && 0 <= b < env.vh {
            lemma_flat_range(a, b, env.vw, env.vh);
        }
    }
    if mask_at(env, i, k) == 0 {
        lemma_u_set_pointwise(env, s.u, i, k);
        lemma_v_set_pointwise(env, s.v, i, k);
        if 0 <= i < env.uw && 0 <= k < env.uh {
            lemma_flat_range(i, k, env.uw, env.uh);
        }
        if 0 <= i < env.vw && 0 <= k < env.vh {
            lemma_flat_range(i, k, env.vw, env.vh);
        }
    } else {
        let b0 = mask_at(env, i - 1, k) as int;
        let b1 = mask_at(env, i + 1, k) as int;
        let b2 = mask_at(env, i, k - 1) as int;
        let b3 = mask_at(env, i, k + 1) as int;
        let open_count = b0 + b1 + b2 + b3;
        let u1 = if mask_at(env, i - 1, k) == 0 {
            u_set(env, s.u, i, k, 0i64)
        } else {
            s.u
        };
        let v1 = if mask_at(env, i, k - 1) == 0 {
            v_set(env, s.v, i, k, 0i64)
        } else {
            s.v
        };
        lemma_u_set_pointwise(env, s.u, i, k);
        lemma_v_set_pointwise(env, s.v, i, k);
        assert(all_zero(u1) && u1.len() == s.u.len()) by {
            assert forall|j: int| 0 <= j < u1.len() implies u1[j] == 0i64 by {
                if 0 <= i < env.uw && 0 <= k < env.uh {
                    lemma_flat_range(i, k, env.uw, env.uh);
                }
            }
        }
        assert(all_zero(v1) && v1.len() == s.v.len()) by {
            assert forall|j: int| 0 <= j < v1.len() implies v1[j] == 0i64 by {
                if 0 <= i < env.vw && 0 <= k < env.vh {
                    lemma_flat_range(i, k, env.vw, env.vh);
                }
            }
        }
        let s1 = UV { u: u1, v: v1 };
        assert forall|a: int, b: int| #![trigger u_at(env, u1, a, b)] u_at(env, u1, a, b)
            == 0 by {
            if 0 <= a < env.uw && 0 <= b < env.uh {
                lemma_flat_range(a, b, env.uw, env.uh);
            }
        }
        assert forall|a: int, b: int| #![trigger v_at(env, v1, a, b)] v_at(env, v1, a, b)
            == 0 by {
            if 0 <= a < env.vw && 0 <= b < env.vh {
                lemma_flat_range(a, b, env.vw, env.vh);
            }
        }
        if open_count != 0 {
            let d = spec_divergence(env, s1, i, k);
            assert(d == 0);
            let corr = div_tz(fx_mul_spec(d, env.coef as int), open_count);
            crate::scalar::lemma_fx_mul_zero(env.coef as int);
            crate::scalar::lemma_div_tz_of_zero(open_count);
            assert(corr == 0);
            assert(corr * b0 == 0 && corr * b1 == 0 && corr * b2 == 0 && corr * b3 == 0)
                by (nonlinear_arith)
                requires
                    corr == 0,
            ;
            let val0 = fx_add_spec(u_at(env, u1, i, k) as int, corr * b0) as i64;
            let u2 = u_set(env, u1, i, k, val0);
            lemma_u_set_pointwise(env, u1, i, k);
            assert forall|j: int| 0 <= j < u2.len() implies u2[j] == 0i64 by {
                if 0 <= i < env.uw && 0 <= k < env.uh {
                    lemma_flat_range(i, k, env.uw, env.uh);
                }
            }
            assert forall|a: int, b: int| #![trigger u_at(env, u2, a, b)] u_at(env, u2, a, b)
                == 0 by {
                if 0 <= a < env.uw && 0 <= b < env.uh {
                    lemma_flat_range(a, b, env.uw, env.uh);
                }
            }
            let val1 = fx_sub_spec(u_at(env, u2, i + 1, k) as int, corr * b1) as i64;
            let u3 = u_set(env, u2, i + 1, k, val1);
            lemma_u_set_pointwise(env, u2, i + 1, k);
            assert forall|j: int| 0 <= j < u3.len() implies u3[j] == 0i64 by {
                if 0 <= i + 1 < env.uw && 0 <= k < env.uh {
                    lemma_flat_range(i + 1, k, env.uw, env.uh);
                }
            }
            let val2 = fx_add_spec(v_at(env, v1, i, k) as int, corr * b2) as i64;
            let v2 = v_set(env, v1, i, k, val2);
            lemma_v_set_pointwise(env, v1, i, k);
            assert forall|j: int| 0 <= j < v2.len() implies v2[j] == 0i64 by {
                if 0 <= i < env.vw && 0 <= k < env.vh {
                    lemma_flat_range(i, k, env.vw, env.vh);
                }
            }
            assert forall|a: int, b: int| #![trigger v_at(env, v2, a, b)] v_at(env, v2, a, b)
                == 0 by {
                if 0 <= a < env.vw && 0 <= b < env.vh {
                    lemma_flat_range(a, b, env.vw, env.vh);
                }
            }
            let val3 = fx_sub_spec(v_at(env, v2, i, k + 1) as int, corr * b3) as i64;
            let v3 = v_set(env, v2, i, k + 1, val3);
            lemma_v_set_pointwise(env, v2, i, k + 1);
            assert forall|j: int| 0 <= j < v3.len() implies v3[j] == 0i64 by {
                if 0 <= i < env.vw && 0 <= k + 1 < env.vh {
                    lemma_flat_range(i, k + 1, env.vw, env.vh);
                }
            }
            assert(spec_proj_cell(env, s, i, k) == UV { u: u3, v: v3 });
        }
    }
}

/// A column prefix preserves all-zero velocity planes.
proof fn lemma_column_preserves_zero(env: ProjEnv, s: UV, i: int, kn: nat)
    requires
        env_wf(env),
        uv_wf(env, s),
        all_zero(s.u),
        all_zero(s.v),
    ensures
        uv_wf(env, spec_proj_column(env, s, i, kn)),
        all_zero(spec_proj_column(env, s, i, kn).u),
        all_zero(spec_proj_column(env, s, i, kn).v),
    decreases kn,
{
    if kn > 0 {
        lemma_column_preserves_zero(env, s, i, (kn - 1) as nat);
        lemma_cell_preserves_zero(env, spec_proj_column(env, s, i, (kn - 1) as nat), i, kn - 1);
    }
}

/// A sweep prefix preserves all-zero velocity planes.
proof fn lemma_columns_preserve_zero(env: ProjEnv, s: UV, iw: nat)
    requires
        env_wf(env),
        uv_wf(env, s),
        all_zero(s.u),
        all_zero(s.v),
    ensures
        uv_wf(env, spec_proj_columns(env, s, iw)),
        all_zero(spec_proj_columns(env, s, iw).u),
        all_zero(spec_proj_columns(env, s, iw).v),
    decreases iw,
{
    if iw > 0 {
        lemma_columns_preserve_zero(env, s, (iw - 1) as nat);
        lemma_column_preserves_zero(
            env,
            spec_proj_columns(env, s, (iw - 1) as nat),
            iw - 1,
            env.bh as nat,
        );
    }
}

/// Repeated sweeps preserve all-zero velocity planes.
proof fn lemma_iter_preserves_zero(env: ProjEnv, s: UV, n: nat)
    requires
        env_wf(env),
        uv_wf(env, s),
        all_zero(s.u),
        all_zero(s.v),
    ensures
        uv_wf(env, spec_proj_iter(env, s, n)),
        all_zero(spec_proj_iter(env, s, n).u),
        all_zero(spec_proj_iter(env, s, n).v),
    decreases n,
{
    if n > 0 {
        lemma_iter_preserves_zero(env, s, (n - 1) as nat);
        lemma_columns_preserve_zero(env, spec_proj_iter(env, s, (n - 1) as nat), env.bw as nat);
    }
}

/// Law: with zero velocity everywhere, projection is a fixed point —
/// however many sweeps run, the velocity planes come back unchanged.
pub proof fn lemma_projection_zero_fixed_point(env: ProjEnv, s: UV, n: nat)
    requires
        env_wf(env),
        uv_wf(env, s),
        all_zero(s.u),
        all_zero(s.v),
    ensures
        spec_proj_iter(env, s, n).u == s.u,
        spec_proj_iter(env, s, n).v == s.v,
{
    lemma_iter_preserves_zero(env, s, n);
    let r = spec_proj_iter(env, s, n);
    assert(r.u =~= s.u);
    assert(r.v =~= s.v);
}

/// Which cells a sweep has already stepped through when it stands at column
/// `ci`, row `ck`.
pub open spec fn visited(a: int, b: int, ci: int, ck: int) -> bool {
    a < ci || (a == ci && b < ck)
}

/// The clearing invariant a sweep maintains: every solid cell it has visited
/// reads zero on its own two faces, and every visited face whose other
/// neighbor is solid reads zero too.
pub open spec fn solid_faces_cleared(env: ProjEnv, s: UV, ci: int, ck: int) -> bool {
    &&& forall|a: int, b: int|
        #![trigger u_at(env, s.u, a, b)]
        0 <= a < env.bw && 0 <= b < env.bh && mask_at(env, a, b) == 0 && visited(a, b, ci, ck)
            ==> u_at(env, s.u, a, b) == 0
    &&& forall|a: int, b: int|
        #![trigger v_at(env, s.v, a, b)]
        0 <= a < env.bw && 0 <= b < env.bh && mask_at(env, a, b) == 0 && visited(a, b, ci, ck)
            ==> v_at(env, s.v, a, b) == 0
    &&& forall|a: int, b: int|
        #![trigger u_at(env, s.u, a, b)]
        1 <= a < env.bw && 0 <= b < env.bh && mask_at(env, a - 1, b) == 0 && visited(a, b, ci, ck)
            ==> u_at(env, s.u, a, b) == 0
    &&& forall|a: int, b: int|
        #![trigger v_at(env, s.v, a, b)]
        0 <= a < env.bw && 1 <= b < env.bh && mask_at(env, a, b - 1) == 0 && visited(a, b, ci, ck)
            ==> v_at(env, s.v, a, b) == 0
}

/// One cell step extends the clearing invariant by the cell it visits: a
/// solid cell gets its faces zeroed, and a fluid cell zeroes and then leaves
/// untouched (weight zero) every face it shares with a solid neighbor.
proof fn lemma_cell_preserves_cleared(env: ProjEnv, s: UV, i: int, k: int)
    requires
        env_wf(env),
        uv_wf(env, s),
        0 <= i < env.bw,
        0 <= k < env.bh,
        solid_faces_cleared(env, s, i, k),
    ensures
        uv_wf(env, spec_proj_cell(env, s, i, k)),
        solid_faces_cleared(env, spec_proj_cell(env, s, i, k), i, k + 1),
{
    lemma_mask_bounded(env);
    if mask_at(env, i, k) == 0 {
        lemma_u_set_pointwise(env, s.u, i, k);
        lemma_v_set_pointwise(env, s.v, i, k);
    } else {
        let u1 = if mask_at(env, i - 1, k) == 0 {
            u_set(env, s.u, i, k, 0i64)
        } else {
            s.u
        };
        let v1 = if mask_at(env, i, k - 1) == 0 {
            v_set(env, s.v, i, k, 0i64)
        } else {
            s.v
        };
        lemma_u_set_pointwise(env, s.u, i, k);
        lemma_v_set_pointwise(env, s.v, i, k);
        let s1 = UV { u: u1, v: v1 };
        assert(solid_faces_cleared(env, s1, i, k + 1));

        let b0 = mask_at(env, i - 1, k) as int;
        let b1 = mask_at(env, i + 1, k) as int;
        let b2 = mask_at(env, i, k - 1) as int;
        let b3 = mask_at(env, i, k + 1) as int;
        let open_count = b0 + b1 + b2 + b3;
        if open_count != 0 {
            let d = spec_divergence(env, s1, i, k);
            let corr = div_tz(fx_mul_spec(d, env.coef as int), open_count);

            let val0 = fx_add_spec(u_at(env, u1, i, k) as int, corr * b0) as i64;
            let u2 = u_set(env, u1, i, k, val0);
            lemma_u_set_pointwise(env, u1, i, k);
            if b0 == 0 {
                assert(corr * b0 == 0) by (nonlinear_arith)
                    requires
                        b0 == 0,
                ;
                assert(val0 == u_at(env, u1, i, k));
            }

            let val1 = fx_sub_spec(u_at(env, u2, i + 1, k) as int, corr * b1) as i64;
            let u3 = u_set(env, u2, i + 1, k, val1);
            lemma_u_set_pointwise(env, u2, i + 1, k);

            let val2 = fx_add_spec(v_at(env, v1, i, k) as int, corr * b2) as i64;
            let v2 = v_set(env, v1, i, k, val2);
            lemma_v_set_pointwise(env, v1, i, k);
            if b2 == 0 {
                assert(corr * b2 == 0) by (nonlinear_arith)
                    requires
                        b2 == 0,
                ;
                assert(val2 == v_at(env, v1, i, k));
            }

            let val3 = fx_sub_spec(v_at(env, v2, i, k + 1) as int, corr * b3) as i64;
            let v3 = v_set(env, v2, i, k + 1, val3);
            lemma_v_set_pointwise(env, v2, i, k + 1);

            assert(spec_proj_cell(env, s, i, k) == UV { u: u3, v: v3 });
        }
    }
}

/// Standing past the last row of a column is the same as standing at the
/// top of the next one.
proof fn lemma_cleared_wrap(env: ProjEnv, s: UV, i: int)
    requires
        solid_faces_cleared(env, s, i, env.bh),
    ensures
        solid_faces_cleared(env, s, i + 1, 0),
{
    assert forall|a: int, b: int|
        #![trigger u_at(env, s.u, a, b)]
        0 <= a < env.bw && 0 <= b < env.bh && mask_at(env, a, b) == 0 && visited(a, b, i + 1, 0)
        implies u_at(env, s.u, a, b) == 0 by {
        assert(visited(a, b, i, env.bh));
    }
    assert forall|a: int, b: int|
        #![trigger v_at(env, s.v, a, b)]
        0 <= a < env.bw && 0 <= b < env.bh && mask_at(env, a, b) == 0 && visited(a, b, i + 1, 0)
        implies v_at(env, s.v, a, b) == 0 by {
        assert(visited(a, b, i, env.bh));
    }
    assert forall|a: int, b: int|
        #![trigger u_at(env, s.u, a, b)]
        1 <= a < env.bw && 0 <= b < env.bh && mask_at(env, a - 1, b) == 0 && visited(a, b, i + 1, 0)
        implies u_at(env, s.u, a, b) == 0 by {
        assert(visited(a, b, i, env.bh));
    }
    assert forall|a: int, b: int|
        #![trigger v_at(env, s.v, a, b)]
        0 <= a < env.bw && 1 <= b < env.bh && mask_at(env, a, b - 1) == 0 && visited(a, b, i + 1, 0)
        implies v_at(env, s.v, a, b) == 0 by {
        assert(visited(a, b, i, env.bh));
    }
}

/// A whole column extends the clearing invariant down its rows.
proof fn lemma_column_clears(env: ProjEnv, s: UV, i: int, kn: nat)
    requires
        env_wf(env),
        uv_wf(env, s),
        0 <= i < env.bw,
        kn <= env.bh,
        solid_faces_cleared(env, s, i, 0),
    ensures
        uv_wf(env, spec_proj_column(env, s, i, kn)),
        solid_faces_cleared(env, spec_proj_column(env, s, i, kn), i, kn as int),
    decreases kn,
{
    if kn > 0 {
        lemma_column_clears(env, s, i, (kn - 1) as nat);
        lemma_cell_preserves_cleared(
            env,
            spec_proj_column(env, s, i, (kn - 1) as nat),
            i,
            kn - 1,
        );
    }
}

/// A sweep prefix extends the clearing invariant across its columns.
proof fn lemma_columns_clear(env: ProjEnv, s: UV, iw: nat)
    requires
        env_wf(env),
        uv_wf(env, s),
        iw <= env.bw,
        solid_faces_cleared(env, s, 0, 0),
    ensures
        uv_wf(env, spec_proj_columns(env, s, iw)),
        solid_faces_cleared(env, spec_proj_columns(env, s, iw), iw as int, 0),
    decreases iw,
{
    if iw > 0 {
        lemma_columns_clear(env, s, (iw - 1) as nat);
        let prev = spec_proj_columns(env, s, (iw - 1) as nat);
        lemma_column_clears(env, prev, iw - 1, env.bh as nat);
        lemma_cleared_wrap(env, spec_proj_column(env, prev, iw - 1, env.bh as nat), iw - 1);
    }
}

/// Law: after any full projection sweep, an obstacle cell's adjoining face
/// velocities are exactly zero — both faces the cell owns, and the faces its
/// right and top neighbors own whenever those faces lie inside the swept
/// range (the face beyond the last column or row is not visited by a sweep).
pub proof fn lemma_sweep_clears_solid_faces(env: ProjEnv, s: UV, i: int, k: int)
    requires
        env_wf(env),
        uv_wf(env, s),
        0 <= i < env.bw,
        0 <= k < env.bh,
        mask_at(env, i, k) == 0,
    ensures
        u_at(env, spec_proj_sweep(env, s).u, i, k) == 0,
        v_at(env, spec_proj_sweep(env, s).v, i, k) == 0,
        i + 1 < env.bw ==> u_at(env, spec_proj_sweep(env, s).u, i + 1, k) == 0,
        k + 1 < env.bh ==> v_at(env, spec_proj_sweep(env, s).v, i, k + 1) == 0,
{
    lemma_columns_clear(env, s, env.bw as nat);
}

/// Law: after a projection of one or more sweeps, an obstacle cell's
/// adjoining face velocities are exactly zero, with the same range caveat as
/// [`lemma_sweep_clears_solid_faces`].
pub proof fn lemma_projection_clears_solid_faces(env: ProjEnv, s: UV, n: nat, i: int, k: int)
    requires
        env_wf(env),
        uv_wf(env, s),
        n >= 1,
        0 <= i < env.bw,
        0 <= k < env.bh,
        mask_at(env, i, k) == 0,
    ensures
        u_at(env, spec_proj_iter(env, s, n).u, i, k) == 0,
        v_at(env, spec_proj_iter(env, s, n).v, i, k) == 0,
        i + 1 < env.bw ==> u_at(env, spec_proj_iter(env, s, n).u, i + 1, k) == 0,
        k + 1 < env.bh ==> v_at(env, spec_proj_iter(env, s, n).v, i, k + 1) == 0,
{
    lemma_iter_preserves_wf(env, s, (n - 1) as nat);
    lemma_sweep_clears_solid_faces(env, spec_proj_iter(env, s, (n - 1) as nat), i, k);
    assert(spec_proj_iter(env, s, n) == spec_proj_sweep(env, spec_proj_iter(env, s, (n - 1) as nat)));
}

} // verus!
