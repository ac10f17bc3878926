//! Semi-Lagrangian advection of the two velocity components and the density.
//!
//! For every cell, each transported quantity is traced one timestep backward
//! along the locally interpolated velocity, and the field's value at that
//! source position — bilinearly interpolated — is written into the matching
//! scratch buffer; a quantity whose relevant adjacent cell is solid is copied
//! unchanged instead, so nothing is transported across a solid boundary.
//! The live fields are only read during the pass, and the scratch buffers are
//! swapped in wholesale at the end, so no part of a step ever observes a mix
//! of old and new values.
//!
//! Density additionally decays during transport: the interpolated value is
//! attenuated by a fixed divisor, lowered by a small constant, and floored at
//! zero.  Historical variants of this solver differ on whether density
//! decays; this implementation deliberately keeps the decaying behavior, and
//! [`DECAY_DIVISOR`] and [`DECAY_BIAS`] pin it down.

use crate::fluid::{Field, Fluid};
use crate::mapping::{sample, spec_coord_of, spec_interpolate};
use crate::projection::{all_zero, visited};
use crate::scalar::{
    fx_div, fx_div_spec, fx_mul, fx_mul_spec, fx_sub, fx_sub_spec, lemma_fx_div_zero,
    lemma_fx_mul_zero,
};
use vstd::prelude::*;

verus! {

/// Divisor of the density decay: 1.1 in fixed point.
pub const DECAY_DIVISOR: i64 = 1_100_000;

/// Constant lowering of the density decay: 0.1 in fixed point.
pub const DECAY_BIAS: i64 = 100_000;

/// What one advection pass reads but never writes: the obstacle mask, every
/// plane's dimensions, the cell size, the ghost-margin offset and the
/// timestep.
pub ghost struct AdvEnv {
    /// The obstacle mask's cells.
    pub b: Seq<u8>,
    /// The mask's width.
    pub bw: int,
    /// The mask's height.
    pub bh: int,
    /// The `u` plane's width.
    pub uw: int,
    /// The `u` plane's height.
    pub uh: int,
    /// The `v` plane's width.
    pub vw: int,
    /// The `v` plane's height.
    pub vh: int,
    /// The density plane's width.
    pub sw: int,
    /// The density plane's height.
    pub sh: int,
    /// The cell size, in fixed point.
    pub ss: i64,
    /// The ghost-margin spatial offset, in fixed point.
    pub off: i64,
    /// The timestep, in fixed point.
    pub dt: i64,
}

/// Well-formedness of an advection environment: the staggered dimension
/// relations of the solver and a positive cell size.
pub open spec fn adv_env_wf(env: AdvEnv) -> bool {
    &&& 1 <= env.bw <= 20_000
    &&& 1 <= env.bh <= 20_000
    &&& env.uw == env.bw + 1
    &&& env.uh == env.bh
    &&& env.vw == env.bw
    &&& env.vh == env.bh + 1
    &&& env.sw == env.bw
    &&& env.sh == env.bh
    &&& env.b.len() == env.bw * env.bh
    &&& 1 <= env.ss
    &&& env.off == env.ss
}

/// The obstacle flag at mask cell `(i, k)`: solid (0) outside range.
pub open spec fn adv_mask_at(env: AdvEnv, i: int, k: int) -> u8 {
    if 0 <= i < env.bw && 0 <= k < env.bh {
        env.b[i * env.bh + k]
    } else {
        0u8
    }
}

/// What `advect_u` computes for cell `(i, k)`: the `u` value copied in place
/// when the left neighbor is solid, else the `u` field sampled one timestep
/// upstream of the face's own position.
pub open spec fn spec_advect_u(env: AdvEnv, u: Seq<i64>, v: Seq<i64>, i: int, k: int) -> i64 {
    if adv_mask_at(env, i - 1, k) == 0 {
        sample(u, env.uw, env.uh, i, k)
    } else {
        let ss = env.ss as int;
        let off = env.off as int;
        let x = spec_coord_of(i, 0, off, ss);
        let y = spec_coord_of(k, ss / 2, off, ss);
        let u0 = sample(u, env.uw, env.uh, i, k) as int;
        let v0 = spec_interpolate(v, env.vw, env.vh, ss, off, ss / 2, 0, x, y);
        let px = fx_sub_spec(x, fx_mul_spec(u0, env.dt as int));
        let py = fx_sub_spec(y, fx_mul_spec(v0, env.dt as int));
        spec_interpolate(u, env.uw, env.uh, ss, off, 0, ss / 2, px, py) as i64
    }
}

/// What `advect_v` computes for cell `(i, k)`: the `v` value copied in place
/// when the lower neighbor is solid, else the `v` field sampled one timestep
/// upstream of the face's own position.
pub open spec fn spec_advect_v(env: AdvEnv, u: Seq<i64>, v: Seq<i64>, i: int, k: int) -> i64 {
    if adv_mask_at(env, i, k - 1) == 0 {
        sample(v, env.vw, env.vh, i, k)
    } else {
        let ss = env.ss as int;
        let off = env.off as int;
        let x = spec_coord_of(i, ss / 2, off, ss);
        let y = spec_coord_of(k, 0, off, ss);
        let u0 = spec_interpolate(u, env.uw, env.uh, ss, off, 0, ss / 2, x, y);
        let v0 = sample(v, env.vw, env.vh, i, k) as int;
        let px = fx_sub_spec(x, fx_mul_spec(u0, env.dt as int));
        let py = fx_sub_spec(y, fx_mul_spec(v0, env.dt as int));
        spec_interpolate(v, env.vw, env.vh, ss, off, ss / 2, 0, px, py) as i64
    }
}

/// What `advect_s` computes for cell `(i, k)`: the density sampled one
/// timestep upstream of the cell center, attenuated by [`DECAY_DIVISOR`],
/// lowered by [`DECAY_BIAS`] and floored at zero.
pub open spec fn spec_advect_s(
    env: AdvEnv,
    u: Seq<i64>,
    v: Seq<i64>,
    s: Seq<i64>,
    i: int,
    k: int,
) -> i64 {
    let ss = env.ss as int;
    let off = env.off as int;
    let x = spec_coord_of(i, ss / 2, off, ss);
    let y = spec_coord_of(k, ss / 2, off, ss);
    let u0 = spec_interpolate(u, env.uw, env.uh, ss, off, 0, ss / 2, x, y);
    let v0 = spec_interpolate(v, env.vw, env.vh, ss, off, ss / 2, 0, x, y);
    let px = fx_sub_spec(x, fx_mul_spec(u0, env.dt as int));
    let py = fx_sub_spec(y, fx_mul_spec(v0, env.dt as int));
    let raw = spec_interpolate(s, env.sw, env.sh, ss, off, ss / 2, ss / 2, px, py);
    let decayed = fx_sub_spec(fx_div_spec(raw, DECAY_DIVISOR as int), DECAY_BIAS as int);
    if decayed >= 0 {
        decayed as i64
    } else {
        0i64
    }
}

/// The value one advection pass writes into the `u` scratch buffer at
/// `(i, k)`: a solid cell keeps its current value, a fluid cell is advected.
pub open spec fn spec_next_u(env: AdvEnv, u: Seq<i64>, v: Seq<i64>, i: int, k: int) -> i64 {
    if adv_mask_at(env, i, k) == 0 {
        sample(u, env.uw, env.uh, i, k)
    } else {
        spec_advect_u(env, u, v, i, k)
    }
}

/// The value one advection pass writes into the `v` scratch buffer at
/// `(i, k)`.
pub open spec fn spec_next_v(env: AdvEnv, u: Seq<i64>, v: Seq<i64>, i: int, k: int) -> i64 {
    if adv_mask_at(env, i, k) == 0 {
        sample(v, env.vw, env.vh, i, k)
    } else {
        spec_advect_v(env, u, v, i, k)
    }
}

/// The value one advection pass writes into the density scratch buffer at
/// `(i, k)`.
pub open spec fn spec_next_s(
    env: AdvEnv,
    u: Seq<i64>,
    v: Seq<i64>,
    s: Seq<i64>,
    i: int,
    k: int,
) -> i64 {
    if adv_mask_at(env, i, k) == 0 {
        sample(s, env.sw, env.sh, i, k)
    } else {
        spec_advect_s(env, u, v, s, i, k)
    }
}

impl Fluid {
    /// What advection reads but never writes, taken from this state.
    pub open spec fn adv_env(self) -> AdvEnv {
        AdvEnv {
            b: self.b@,
            bw: self.b.spec_width(),
            bh: self.b.spec_height(),
            uw: self.u.spec_width(),
            uh: self.u.spec_height(),
            vw: self.v.spec_width(),
            vh: self.v.spec_height(),
            sw: self.s.spec_width(),
            sh: self.s.spec_height(),
            ss: self.square_size,
            off: self.block_offset,
            dt: self.delta_t,
        }
    }

    /// A well-formed solver yields a well-formed advection environment.
    pub proof fn lemma_adv_env_wf(self)
        requires
            self.wf(),
        ensures
            adv_env_wf(self.adv_env()),
    {
    }

    /// Advect the `u` face at `(i, k)` into the `u` scratch buffer.
    fn advect_u(&mut self, i: i32, k: i32)
        requires
            old(self).wf(),
            0 <= i,
            0 <= k,
        ensures
            final(self).wf(),
            final(self).same_parameters(*old(self)),
            final(self).u == old(self).u,
            final(self).v == old(self).v,
            final(self).s == old(self).s,
            final(self).b == old(self).b,
            final(self).next_v == old(self).next_v,
            final(self).next_s == old(self).next_s,
            final(self).next_u@ == if old(self).next_u.in_range(i as int, k as int) {
                old(self).next_u@.update(
                    old(self).next_u.flat(i as int, k as int),
                    spec_advect_u(old(self).adv_env(), old(self).u@, old(self).v@, i as int, k as int),
                )
            } else {
                old(self).next_u@
            },
            final(self).next_u.spec_width() == old(self).next_u.spec_width(),
            final(self).next_u.spec_height() == old(self).next_u.spec_height(),
            final(self).next_u.neutral_value() == old(self).next_u.neutral_value(),
    {
        proof {
            if self.b.in_range(i as int - 1, k as int) {
                self.b.lemma_flat_bounds(i as int - 1, k as int);
            }
        }
        if self.b.get(i - 1, k) == 0 {
            let val: i64 = self.u.get(i, k);
            self.next_u.set(i, k, val);
            return ;
        }

        let (x, y) = self.get_xy_from_grid_indices(i, k, Some(&Field::U));

        let u0: i64 = self.u.get(i, k);
        let v0: i64 = self.interpolate(x, y, Field::V);

        let previous_x: i64 = fx_sub(x, fx_mul(u0, self.delta_t));
        let previous_y: i64 = fx_sub(y, fx_mul(v0, self.delta_t));

        let next_val: i64 = self.interpolate(previous_x, previous_y, Field::U);

        self.next_u.set(i, k, next_val);
    }

    /// Advect the `v` face at `(i, k)` into the `v` scratch buffer.
    fn advect_v(&mut self, i: i32, k: i32)
        requires
            old(self).wf(),
            0 <= i,
            0 <= k,
        ensures
            final(self).wf(),
            final(self).same_parameters(*old(self)),
            final(self).u == old(self).u,
            final(self).v == old(self).v,
            final(self).s == old(self).s,
            final(self).b == old(self).b,
            final(self).next_u == old(self).next_u,
            final(self).next_s == old(self).next_s,
            final(self).next_v@ == if old(self).next_v.in_range(i as int, k as int) {
                old(self).next_v@.update(
                    old(self).next_v.flat(i as int, k as int),
                    spec_advect_v(old(self).adv_env(), old(self).u@, old(self).v@, i as int, k as int),
                )
            } else {
                old(self).next_v@
            },
            final(self).next_v.spec_width() == old(self).next_v.spec_width(),
            final(self).next_v.spec_height() == old(self).next_v.spec_height(),
            final(self).next_v.neutral_value() == old(self).next_v.neutral_value(),
    {
        proof {
            if self.b.in_range(i as int, k as int - 1) {
                self.b.lemma_flat_bounds(i as int, k as int - 1);
            }
        }
        if self.b.get(i, k - 1) == 0 {
            let val: i64 = self.v.get(i, k);
            self.next_v.set(i, k, val);
            return ;
        }

        let (x, y) = self.get_xy_from_grid_indices(i, k, Some(&Field::V));

        let u0: i64 = self.interpolate(x, y, Field::U);
        let v0: i64 = self.v.get(i, k);

        let previous_x: i64 = fx_sub(x, fx_mul(u0, self.delta_t));
        let previous_y: i64 = fx_sub(y, fx_mul(v0, self.delta_t));

        let next_val: i64 = self.interpolate(previous_x, previous_y, Field::V);

        self.next_v.set(i, k, next_val);
    }

    /// Advect the density at cell `(i, k)` into the density scratch buffer,
    /// applying the decay policy.
    fn advect_s(&mut self, i: i32, k: i32)
        requires
            old(self).wf(),
            0 <= i,
            0 <= k,
        ensures
            final(self).wf(),
            final(self).same_parameters(*old(self)),
            final(self).u == old(self).u,
            final(self).v == old(self).v,
            final(self).s == old(self).s,
            final(self).b == old(self).b,
            final(self).next_u == old(self).next_u,
            final(self).next_v == old(self).next_v,
            final(self).next_s@ == if old(self).next_s.in_range(i as int, k as int) {
                old(self).next_s@.update(
                    old(self).next_s.flat(i as int, k as int),
                    spec_advect_s(
                        old(self).adv_env(),
                        old(self).u@,
                        old(self).v@,
                        old(self).s@,
                        i as int,
                        k as int,
                    ),
                )
            } else {
                old(self).next_s@
            },
            final(self).next_s.spec_width() == old(self).next_s.spec_width(),
            final(self).next_s.spec_height() == old(self).next_s.spec_height(),
            final(self).next_s.neutral_value() == old(self).next_s.neutral_value(),
    {
        let (x, y) = self.get_xy_from_grid_indices(i, k, Some(&Field::S));

        let u0: i64 = self.interpolate(x, y, Field::U);
        let v0: i64 = self.interpolate(x, y, Field::V);

        let previous_x: i64 = fx_sub(x, fx_mul(u0, self.delta_t));
        let previous_y: i64 = fx_sub(y, fx_mul(v0, self.delta_t));

        let raw: i64 = self.interpolate(previous_x, previous_y, Field::S);
        let decayed: i64 = fx_sub(fx_div(raw, DECAY_DIVISOR), DECAY_BIAS);
        let next_val: i64 = if decayed >= 0 {
            decayed
        } else {
            0
        };

        self.next_s.set(i, k, next_val);
    }

    /// One advection pass: write the advected value of every transported
    /// quantity into the scratch buffers while only reading the live fields,
    /// then swap the scratch buffers in wholesale, in O(1) per field.
    ///
    /// A solid cell's values are copied unchanged.  The sweep covers the mask
    /// rectangle, so the one extra `u` column and the one extra `v` row of
    /// the staggered layout keep what the scratch buffer last held.
    pub fn advection(&mut self)
        requires
            old(self).wf(),
        ensures
            final(self).wf(),
            final(self).same_parameters(*old(self)),
            final(self).b == old(self).b,
            final(self).next_u@ == old(self).u@,
            final(self).next_v@ == old(self).v@,
            final(self).next_s@ == old(self).s@,
            forall|i: int, k: int|
                #![trigger final(self).u.spec_get(i, k)]
                final(self).u.in_range(i, k) ==> final(self).u.spec_get(i, k) == if i < old(
                    self,
                ).adv_env().bw {
                    spec_next_u(old(self).adv_env(), old(self).u@, old(self).v@, i, k)
                } else {
                    old(self).next_u.spec_get(i, k)
                },
            forall|i: int, k: int|
                #![trigger final(self).v.spec_get(i, k)]
                final(self).v.in_range(i, k) ==> final(self).v.spec_get(i, k) == if k < old(
                    self,
                ).adv_env().bh {
                    spec_next_v(old(self).adv_env(), old(self).u@, old(self).v@, i, k)
                } else {
                    old(self).next_v.spec_get(i, k)
                },
            forall|i: int, k: int|
                #![trigger final(self).s.spec_get(i, k)]
                final(self).s.in_range(i, k) ==> final(self).s.spec_get(i, k) == spec_next_s(
                    old(self).adv_env(),
                    old(self).u@,
                    old(self).v@,
                    old(self).s@,
                    i,
                    k,
                ),
    {
        let w: usize = self.b.width();
        let h: usize = self.b.height();
        let ghost env = old(self).adv_env();
        let ghost u0 = old(self).u@;
        let ghost v0 = old(self).v@;
        let ghost s0 = old(self).s@;

        let mut i: usize = 0;
        while i < w
            invariant
                self.wf(),
                self.same_parameters(*old(self)),
                self.u == old(self).u,
                self.v == old(self).v,
                self.s == old(self).s,
                self.b == old(self).b,
                w == self.b.spec_width(),
                h == self.b.spec_height(),
                w < i32::MAX,
                h < i32::MAX,
                env == self.adv_env(),
                u0 == self.u@,
                v0 == self.v@,
                s0 == self.s@,
                self.next_u.spec_width() == old(self).next_u.spec_width(),
                self.next_u.spec_height() == old(self).next_u.spec_height(),
                self.next_u.neutral_value() == old(self).next_u.neutral_value(),
                self.next_v.spec_width() == old(self).next_v.spec_width(),
                self.next_v.spec_height() == old(self).next_v.spec_height(),
                self.next_v.neutral_value() == old(self).next_v.neutral_value(),
                self.next_s.spec_width() == old(self).next_s.spec_width(),
                self.next_s.spec_height() == old(self).next_s.spec_height(),
                self.next_s.neutral_value() == old(self).next_s.neutral_value(),
                i <= w,
                forall|a: int, c: int|
                    #![trigger self.next_u.spec_get(a, c)]
                    self.next_u.in_range(a, c) ==> self.next_u.spec_get(a, c) == if visited(
                        a,
                        c,
                        i as int,
                        0,
                    ) && a < env.bw {
                        spec_next_u(env, u0, v0, a, c)
                    } else {
                        old(self).next_u.spec_get(a, c)
                    },
                forall|a: int, c: int|
                    #![trigger self.next_v.spec_get(a, c)]
                    self.next_v.in_range(a, c) ==> self.next_v.spec_get(a, c) == if visited(
                        a,
                        c,
                        i as int,
                        0,
                    ) && c < env.bh {
                        spec_next_v(env, u0, v0, a, c)
                    } else {
                        old(self).next_v.spec_get(a, c)
                    },
                forall|a: int, c: int|
                    #![trigger self.next_s.spec_get(a, c)]
                    self.next_s.in_range(a, c) ==> self.next_s.spec_get(a, c) == if visited(
                        a,
                        c,
                        i as int,
                        0,
                    ) {
                        spec_next_s(env, u0, v0, s0, a, c)
                    } else {
                        old(self).next_s.spec_get(a, c)
                    },
            decreases w - i,
        {
            let mut k: usize = 0;
            while k < h
                invariant
                    self.wf(),
                    self.same_parameters(*old(self)),
                    self.u == old(self).u,
                    self.v == old(self).v,
                    self.s == old(self).s,
                    self.b == old(self).b,
                    w == self.b.spec_width(),
                    h == self.b.spec_height(),
                    w < i32::MAX,
                    h < i32::MAX,
                    env == self.adv_env(),
                    u0 == self.u@,
                    v0 == self.v@,
                    s0 == self.s@,
                    self.next_u.spec_width() == old(self).next_u.spec_width(),
                    self.next_u.spec_height() == old(self).next_u.spec_height(),
                    self.next_u.neutral_value() == old(self).next_u.neutral_value(),
                    self.next_v.spec_width() == old(self).next_v.spec_width(),
                    self.next_v.spec_height() == old(self).next_v.spec_height(),
                    self.next_v.neutral_value() == old(self).next_v.neutral_value(),
                    self.next_s.spec_width() == old(self).next_s.spec_width(),
                    self.next_s.spec_height() == old(self).next_s.spec_height(),
                    self.next_s.neutral_value() == old(self).next_s.neutral_value(),
                    i < w,
                    k <= h,
                    forall|a: int, c: int|
                        #![trigger self.next_u.spec_get(a, c)]
                        self.next_u.in_range(a, c) ==> self.next_u.spec_get(a, c) == if visited(
                            a,
                            c,
                            i as int,
                            k as int,
                        ) && a < env.bw {
                            spec_next_u(env, u0, v0, a, c)
                        } else {
                            old(self).next_u.spec_get(a, c)
                        },
                    forall|a: int, c: int|
                        #![trigger self.next_v.spec_get(a, c)]
                        self.next_v.in_range(a, c) ==> self.next_v.spec_get(a, c) == if visited(
                            a,
                            c,
                            i as int,
                            k as int,
                        ) && c < env.bh {
                            spec_next_v(env, u0, v0, a, c)
                        } else {
                            old(self).next_v.spec_get(a, c)
                        },
                    forall|a: int, c: int|
                        #![trigger self.next_s.spec_get(a, c)]
                        self.next_s.in_range(a, c) ==> self.next_s.spec_get(a, c) == if visited(
                            a,
                            c,
                            i as int,
                            k as int,
                        ) {
                            spec_next_s(env, u0, v0, s0, a, c)
                        } else {
                            old(self).next_s.spec_get(a, c)
                        },
                decreases h - k,
            {
                let ii: i32 = i as i32;
                let kk: i32 = k as i32;

                proof {
                    self.b.lemma_flat_bounds(ii as int, kk as int);
                }
                if self.b.get(ii, kk) == 0 {
                    let cu: i64 = self.u.get(ii, kk);
                    let ghost before_u = self.next_u;
                    self.next_u.set(ii, kk, cu);
                    proof {
                        crate::fluid::lemma_grid_set_pointwise(
                            before_u,
                            self.next_u,
                            ii as int,
                            kk as int,
                            cu,
                        );
                    }
                    let cv: i64 = self.v.get(ii, kk);
                    let ghost before_v = self.next_v;
                    self.next_v.set(ii, kk, cv);
                    proof {
                        crate::fluid::lemma_grid_set_pointwise(
                            before_v,
                            self.next_v,
                            ii as int,
                            kk as int,
                            cv,
                        );
                    }
                    let cs: i64 = self.s.get(ii, kk);
                    let ghost before_s = self.next_s;
                    self.next_s.set(ii, kk, cs);
                    proof {
                        crate::fluid::lemma_grid_set_pointwise(
                            before_s,
                            self.next_s,
                            ii as int,
                            kk as int,
                            cs,
                        );
                    }
                } else {
                    let ghost before_u = self.next_u;
                    self.advect_u(ii, kk);
                    proof {
                        crate::fluid::lemma_grid_set_pointwise(
                            before_u,
                            self.next_u,
                            ii as int,
                            kk as int,
                            spec_advect_u(env, u0, v0, ii as int, kk as int),
                        );
                    }
                    let ghost before_v = self.next_v;
                    self.advect_v(ii, kk);
                    proof {
                        crate::fluid::lemma_grid_set_pointwise(
                            before_v,
                            self.next_v,
                            ii as int,
                            kk as int,
                            spec_advect_v(env, u0, v0, ii as int, kk as int),
                        );
                    }
                    let ghost before_s = self.next_s;
                    self.advect_s(ii, kk);
                    proof {
                        crate::fluid::lemma_grid_set_pointwise(
                            before_s,
                            self.next_s,
                            ii as int,
                            kk as int,
                            spec_advect_s(env, u0, v0, s0, ii as int, kk as int),
                        );
                    }
                }
                k = k + 1;
            }
            i = i + 1;
        }

        self.u.swap(&mut self.next_u);
        self.v.swap(&mut self.next_v);
        self.s.swap(&mut self.next_s);
    }
}

/// Interpolating anywhere in an all-zero plane yields zero: every sampled
/// corner is zero and every blend of zeros is zero.
proof fn lemma_interpolate_zero(
    g: Seq<i64>,
    gw: int,
    gh: int,
    ss: int,
    off: int,
    half_x: int,
    half_y: int,
    x: int,
    y: int,
)
    requires
        1 <= gw,
        1 <= gh,
        g.len() == gw * gh,
        all_zero(g),
        1 <= ss,
    ensures
        spec_interpolate(g, gw, gh, ss, off, half_x, half_y, x, y) == 0,
{
    assert forall|a: int, c: int| #![trigger sample(g, gw, gh, a, c)] sample(g, gw, gh, a, c)
        == 0i64 by {
        if 0 <= a < gw && 0 <= c < gh {
            assert(0 <= a * gh + c < gw * gh) by (nonlinear_arith)
                requires
                    0 <= a < gw,
                    0 <= c < gh,
            ;
        }
    }
    let i = crate::mapping::spec_index_of(x, half_x, off, ss);
    let k = crate::mapping::spec_index_of(y, half_y, off, ss);
    let gx = spec_coord_of(i, half_x, off, ss);
    let gy = spec_coord_of(k, half_y, off, ss);
    let wx = fx_sub_spec(crate::scalar::SCALE as int, fx_div_spec(fx_sub_spec(x, gx), ss));
    let wy = fx_sub_spec(crate::scalar::SCALE as int, fx_div_spec(fx_sub_spec(y, gy), ss));
    lemma_fx_mul_zero(wx);
    lemma_fx_mul_zero(fx_sub_spec(crate::scalar::SCALE as int, wx));
    lemma_fx_mul_zero(wy);
    lemma_fx_mul_zero(fx_sub_spec(crate::scalar::SCALE as int, wy));
}

/// Law: advecting a state whose velocity and density are uniformly zero
/// writes zero into every scratch cell — the backtrace of a zero velocity
/// field lands on the same zero state, and the density decay floors at zero.
pub proof fn lemma_advection_of_zero(
    env: AdvEnv,
    u: Seq<i64>,
    v: Seq<i64>,
    s: Seq<i64>,
    i: int,
    k: int,
)
    requires
        adv_env_wf(env),
        u.len() == env.uw * env.uh,
        v.len() == env.vw * env.vh,
        s.len() == env.sw * env.sh,
        all_zero(u),
        all_zero(v),
        all_zero(s),
    ensures
        spec_next_u(env, u, v, i, k) == 0,
        spec_next_v(env, u, v, i, k) == 0,
        spec_next_s(env, u, v, s, i, k) == 0,
{
    let ss = env.ss as int;
    let off = env.off as int;
    assert forall|a: int, c: int| #![trigger sample(u, env.uw, env.uh, a, c)] sample(
        u,
        env.uw,
        env.uh,
        a,
        c,
    ) == 0i64 by {
        if 0 <= a < env.uw && 0 <= c < env.uh {
            assert(0 <= a * env.uh + c < env.uw * env.uh) by (nonlinear_arith)
                requires
                    0 <= a < env.uw,
                    0 <= c < env.uh,
            ;
        }
    }
    assert forall|a: int, c: int| #![trigger sample(v, env.vw, env.vh, a, c)] sample(
        v,
        env.vw,
        env.vh,
        a,
        c,
    ) == 0i64 by {
        if 0 <= a < env.vw && 0 <= c < env.vh {
            assert(0 <= a * env.vh + c < env.vw * env.vh) by (nonlinear_arith)
                requires
                    0 <= a < env.vw,
                    0 <= c < env.vh,
            ;
        }
    }
    assert forall|a: int, c: int| #![trigger sample(s, env.sw, env.sh, a, c)] sample(
        s,
        env.sw,
        env.sh,
        a,
        c,
    ) == 0i64 by {
        if 0 <= a < env.sw && 0 <= c < env.sh {
            assert(0 <= a * env.sh + c < env.sw * env.sh) by (nonlinear_arith)
                requires
                    0 <= a < env.sw,
                    0 <= c < env.sh,
            ;
        }
    }

    lemma_fx_mul_zero(env.dt as int);
    if adv_mask_at(env, i, k) != 0 {
        if adv_mask_at(env, i - 1, k) != 0 {
            let x = spec_coord_of(i, 0, off, ss);
            let y = spec_coord_of(k, ss / 2, off, ss);
            lemma_interpolate_zero(v, env.vw, env.vh, ss, off, ss / 2, 0, x, y);
            let px = fx_sub_spec(x, fx_mul_spec(0, env.dt as int));
            let py = fx_sub_spec(y, fx_mul_spec(0, env.dt as int));
            lemma_interpolate_zero(u, env.uw, env.uh, ss, off, 0, ss / 2, px, py);
        }
        if adv_mask_at(env, i, k - 1) != 0 {
            let x = spec_coord_of(i, ss / 2, off, ss);
            let y = spec_coord_of(k, 0, off, ss);
            lemma_interpolate_zero(u, env.uw, env.uh, ss, off, 0, ss / 2, x, y);
            let px = fx_sub_spec(x, fx_mul_spec(0, env.dt as int));
            let py = fx_sub_spec(y, fx_mul_spec(0, env.dt as int));
            lemma_interpolate_zero(v, env.vw, env.vh, ss, off, ss / 2, 0, px, py);
        }
        let x = spec_coord_of(i, ss / 2, off, ss);
        let y = spec_coord_of(k, ss / 2, off, ss);
        lemma_interpolate_zero(u, env.uw, env.uh, ss, off, 0, ss / 2, x, y);
        lemma_interpolate_zero(v, env.vw, env.vh, ss, off, ss / 2, 0, x, y);
        let px = fx_sub_spec(x, fx_mul_spec(0, env.dt as int));
        let py = fx_sub_spec(y, fx_mul_spec(0, env.dt as int));
        lemma_interpolate_zero(s, env.sw, env.sh, ss, off, ss / 2, ss / 2, px, py);
        lemma_fx_div_zero(DECAY_DIVISOR as int);
    }
}

} // verus!
