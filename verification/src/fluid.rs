//! The fluid solver's state: seven same-shaped grids plus the scalar
//! configuration, with construction, boundary initialization, clearing and
//! resizing.
//!
//! The two velocity components are staggered (a MAC layout): `u` lives on
//! vertical cell-face centers, `v` on horizontal cell-face centers, while the
//! obstacle mask `b` and the density `s` live at cell centers.  A one-cell
//! ghost margin surrounds the `grid_width` by `grid_height` active domain, so
//! the grids are allocated with the staggered dimensions
//! `(grid_width + 3) x (grid_height + 2)` for `u`,
//! `(grid_width + 2) x (grid_height + 3)` for `v`, and
//! `(grid_width + 2) x (grid_height + 2)` for `b` and `s`.

use crate::grid::Grid;
use crate::scalar::SCALE;
use vstd::arithmetic::div_mod::{
    lemma_div_by_self, lemma_div_is_ordered, lemma_div_nonincreasing, lemma_div_pos_is_pos,
    lemma_fundamental_div_mod, lemma_multiply_divide_le, lemma_multiply_divide_lt,
    lemma_remainder_lower,
    lemma_remainder_upper,
};
use vstd::prelude::*;

verus! {

/// Largest accepted physical extent of the domain, in continuous units.
pub const MAX_EXTENT: u32 = 1_000_000;

/// Largest accepted resolution target (cells along the longer axis).
pub const MAX_RESOLUTION: usize = 8000;

/// Bound on the derived grid dimensions that the extent and resolution
/// limits guarantee.
pub const MAX_GRID_DIM: usize = 16384;

/// Bound on the derived cell size that the extent limit guarantees.
pub const MAX_CELL_SIZE: i64 = 1_000_000_000_000;

/// Default resolution target.
pub const DEFAULT_RESOLUTION: usize = 200;

/// Default number of pressure-relaxation sweeps per projection call.
pub const DEFAULT_ITERATIONS: usize = 40;

/// Default timestep: one sixtieth of a second, in fixed point.
pub const DEFAULT_DELTA_T: i64 = 16_666;

/// Default overrelaxation coefficient: 1.7 in fixed point.
pub const DEFAULT_OVERRELAXATION: i64 = 1_700_000;

/// Selects which stored field a spatial query addresses.
#[derive(Clone, Copy, Debug, PartialEq, Eq, Structural)]
pub enum Field {
    U,
    V,
    S,
}

/// The one fatal construction failure: a non-positive domain extent or
/// resolution target.
#[derive(Clone, Copy, Debug, PartialEq, Eq, Structural)]
pub enum FluidError {
    InvalidConfiguration,
}

/// The solver.  The grids are public so that an external interaction layer
/// can paint obstacles into `b` or inject velocity and density impulses, but
/// every solver operation requires the well-formedness predicate [`Fluid::wf`],
/// which such writes must preserve (in particular, mask cells hold only 0
/// or 1).
#[derive(Clone, Debug)]
pub struct Fluid {
    /// Velocity in the x direction, on vertical cell-face centers.
    pub u: Grid<i64>,
    /// Velocity in the y direction, on horizontal cell-face centers.
    pub v: Grid<i64>,
    /// Obstacle mask: 1 = fluid-permeable, 0 = solid.
    pub b: Grid<u8>,
    /// Smoke density, at cell centers.
    pub s: Grid<i64>,
    /// Scratch buffer written during advection, then swapped into `u`.
    pub next_u: Grid<i64>,
    /// Scratch buffer written during advection, then swapped into `v`.
    pub next_v: Grid<i64>,
    /// Scratch buffer written during advection, then swapped into `s`.
    pub next_s: Grid<i64>,
    /// Ghost margin width, in cells.
    pub n: usize,
    /// Cell size: continuous units per grid step, in fixed point.
    pub square_size: i64,
    /// Number of relaxation sweeps per projection call.
    pub n_iterations: usize,
    /// Timestep, in fixed point.
    pub delta_t: i64,
    /// Overrelaxation coefficient of the pressure solve, in fixed point.
    pub overrelaxation_coefficient: i64,
    /// Active domain width, in cells (without the ghost margin).
    pub grid_width: usize,
    /// Active domain height, in cells (without the ghost margin).
    pub grid_height: usize,
    /// Resolution target: cells along the longer physical axis.
    pub max_squares: usize,
    /// Spatial offset compensating for the ghost margin: `square_size * n`.
    pub block_offset: i64,
}

/// The cell size derived from the longer physical extent `mx` and the
/// resolution target `t`: `mx / t` in fixed point, rounded toward zero.
pub open spec fn spec_cell_size(mx: int, t: int) -> int {
    (mx * SCALE) / t
}

/// The cell count covering a physical extent at cell size `ss`:
/// `extent / ss` rounded up.
pub open spec fn spec_grid_cells(extent: int, ss: int) -> int {
    (extent * SCALE + ss - 1) / ss
}

/// The obstacle mask after boundary initialization: solid on the outer ring,
/// permeable inside.
pub open spec fn boundary_mask_value(bw: int, bh: int, i: int, k: int) -> u8 {
    if i == 0 || k == 0 || i == bw - 1 || k == bh - 1 {
        0u8
    } else {
        1u8
    }
}

impl Fluid {
    /// Well-formedness: the seven grids carry the staggered dimensions
    /// derived from the active domain, zero is every field's neutral value,
    /// the configuration is in the ranges that construction establishes, and
    /// the obstacle mask holds only the flags 0 and 1.
    pub open spec fn wf(self) -> bool {
        &&& self.n == 1
        &&& 1 <= self.square_size <= MAX_CELL_SIZE
        &&& self.block_offset == self.square_size
        &&& 1 <= self.grid_width <= MAX_GRID_DIM
        &&& 1 <= self.grid_height <= MAX_GRID_DIM
        &&& 1 <= self.max_squares <= MAX_RESOLUTION
        &&& self.u.wf() && self.u.spec_width() == self.grid_width + 3 && self.u.spec_height()
            == self.grid_height + 2 && self.u.neutral_value() == 0i64
        &&& self.v.wf() && self.v.spec_width() == self.grid_width + 2 && self.v.spec_height()
            == self.grid_height + 3 && self.v.neutral_value() == 0i64
        &&& self.s.wf() && self.s.spec_width() == self.grid_width + 2 && self.s.spec_height()
            == self.grid_height + 2 && self.s.neutral_value() == 0i64
        &&& self.b.wf() && self.b.spec_width() == self.grid_width + 2 && self.b.spec_height()
            == self.grid_height + 2 && self.b.neutral_value() == 0u8
        &&& self.next_u.wf() && self.next_u.spec_width() == self.u.spec_width()
            && self.next_u.spec_height() == self.u.spec_height() && self.next_u.neutral_value()
            == 0i64
        &&& self.next_v.wf() && self.next_v.spec_width() == self.v.spec_width()
            && self.next_v.spec_height() == self.v.spec_height() && self.next_v.neutral_value()
            == 0i64
        &&& self.next_s.wf() && self.next_s.spec_width() == self.s.spec_width()
            && self.next_s.spec_height() == self.s.spec_height() && self.next_s.neutral_value()
            == 0i64
        &&& forall|j: int| 0 <= j < self.b@.len() ==> self.b@[j] <= 1
    }

    /// The scalar configuration and derived dimensions agree between two
    /// solver states.
    pub open spec fn same_parameters(self, other: Fluid) -> bool {
        &&& self.n == other.n
        &&& self.square_size == other.square_size
        &&& self.n_iterations == other.n_iterations
        &&& self.delta_t == other.delta_t
        &&& self.overrelaxation_coefficient == other.overrelaxation_coefficient
        &&& self.grid_width == other.grid_width
        &&& self.grid_height == other.grid_height
        &&& self.max_squares == other.max_squares
        &&& self.block_offset == other.block_offset
    }

    /// Construct a solver for a `width` by `height` physical domain.
    ///
    /// The cell size is the longer physical extent divided by the resolution
    /// target, and the grid dimensions divide each extent by the cell size,
    /// rounding up.  Absent options take the documented defaults.  A zero
    /// extent or a zero resolution target is the one rejected configuration;
    /// the upper bounds on the extents and the target only keep the derived
    /// cell size and grid allocations inside the fixed-point and address
    /// ranges.
    pub fn new(
        width: u32,
        height: u32,
        max_squares: Option<usize>,
        n_iterations: Option<usize>,
        delta_t: Option<i64>,
        overrelaxation_coefficient: Option<i64>,
    ) -> (r: Result<Fluid, FluidError>)
        requires
            width <= MAX_EXTENT,
            height <= MAX_EXTENT,
            max_squares matches Some(m) ==> m <= MAX_RESOLUTION,
        ensures
            r is Ok <==> (width >= 1 && height >= 1 && max_squares != Some(0usize)),
            r is Err ==> r == Result::<Fluid, FluidError>::Err(FluidError::InvalidConfiguration),
            r matches Ok(f) ==> {
                let t = match max_squares {
                    Some(m) => m as int,
                    None => DEFAULT_RESOLUTION as int,
                };
                let mx = if width >= height {
                    width as int
                } else {
                    height as int
                };
                &&& f.wf()
                &&& f.max_squares == t
                &&& f.square_size == spec_cell_size(mx, t)
                &&& f.grid_width == spec_grid_cells(width as int, f.square_size as int)
                &&& f.grid_height == spec_grid_cells(height as int, f.square_size as int)
                &&& f.n_iterations == (match n_iterations {
                    Some(c) => c as int,
                    None => DEFAULT_ITERATIONS as int,
                })
                &&& f.delta_t == (match delta_t {
                    Some(d) => d,
                    None => DEFAULT_DELTA_T,
                })
                &&& f.overrelaxation_coefficient == (match overrelaxation_coefficient {
                    Some(c) => c,
                    None => DEFAULT_OVERRELAXATION,
                })
                &&& forall|j: int| 0 <= j < f.u@.len() ==> f.u@[j] == 0i64
                &&& forall|j: int| 0 <= j < f.v@.len() ==> f.v@[j] == 0i64
                &&& forall|j: int| 0 <= j < f.s@.len() ==> f.s@[j] == 0i64
                &&& forall|j: int| 0 <= j < f.b@.len() ==> f.b@[j] == 0u8
                &&& forall|j: int| 0 <= j < f.next_u@.len() ==> f.next_u@[j] == 0i64
                &&& forall|j: int| 0 <= j < f.next_v@.len() ==> f.next_v@[j] == 0i64
                &&& forall|j: int| 0 <= j < f.next_s@.len() ==> f.next_s@[j] == 0i64
            },
    {
        if width == 0 || height == 0 {
            return Err(FluidError::InvalidConfiguration);
        }
        let t: usize = match max_squares {
            Some(m) => {
                if m == 0 {
                    return Err(FluidError::InvalidConfiguration);
                }
                m
            },
            None => DEFAULT_RESOLUTION,
        };
        let mx: u32 = if width >= height {
            width
        } else {
            height
        };

        proof {
            assert((mx as int) * (SCALE as int) <= 1_000_000_000_000) by (nonlinear_arith)
                requires
                    0 <= mx <= 1_000_000,
                    SCALE == 1_000_000,
            ;
        }
        let square_size_w: u64 = (mx as u64 * SCALE as u64) / (t as u64);
        proof {
            lemma_cell_size_bounds(mx as int, t as int);
        }
        proof {
            assert((width as int) * (SCALE as int) <= 1_000_000_000_000 && (height as int) * (
            SCALE as int) <= 1_000_000_000_000) by (nonlinear_arith)
                requires
                    0 <= width <= 1_000_000,
                    0 <= height <= 1_000_000,
                    SCALE == 1_000_000,
            ;
        }
        let grid_width_w: u64 = (width as u64 * SCALE as u64 + square_size_w - 1) / square_size_w;
        let grid_height_w: u64 = (height as u64 * SCALE as u64 + square_size_w - 1)
            / square_size_w;

        proof {
            lemma_grid_cells_bounds(width as int, mx as int, t as int);
            lemma_grid_cells_bounds(height as int, mx as int, t as int);
        }

        let square_size: i64 = square_size_w as i64;
        let grid_width: usize = grid_width_w as usize;
        let grid_height: usize = grid_height_w as usize;

        proof {
            lemma_staggered_sizes_fit(grid_width as int, grid_height as int);
        }

        let u: Grid<i64> = Grid::new(grid_width + 3, grid_height + 2, 0i64);
        let v: Grid<i64> = Grid::new(grid_width + 2, grid_height + 3, 0i64);
        let s: Grid<i64> = Grid::new(grid_width + 2, grid_height + 2, 0i64);
        let b: Grid<u8> = Grid::new(grid_width + 2, grid_height + 2, 0u8);
        let next_u: Grid<i64> = Grid::new(u.width(), u.height(), 0i64);
        let next_v: Grid<i64> = Grid::new(v.width(), v.height(), 0i64);
        let next_s: Grid<i64> = Grid::new(s.width(), s.height(), 0i64);

        let n_iterations: usize = match n_iterations {
            Some(c) => c,
            None => DEFAULT_ITERATIONS,
        };
        let delta_t: i64 = match delta_t {
            Some(d) => d,
            None => DEFAULT_DELTA_T,
        };
        let overrelaxation_coefficient: i64 = match overrelaxation_coefficient {
            Some(c) => c,
            None => DEFAULT_OVERRELAXATION,
        };

        Ok(
            Fluid {
                u,
                v,
                b,
                s,
                next_u,
                next_v,
                next_s,
                block_offset: square_size,
                grid_width,
                grid_height,
                max_squares: t,
                n: 1,
                square_size,
                n_iterations,
                delta_t,
                overrelaxation_coefficient,
            },
        )
    }

    /// Set the whole obstacle mask to fluid-permeable, then force the entire
    /// outer ring solid, establishing walls at the domain boundary.
    pub fn fill_edges_with_obstacles(&mut self)
        requires
            old(self).wf(),
        ensures
            final(self).wf(),
            final(self).same_parameters(*old(self)),
            final(self).u == old(self).u,
            final(self).v == old(self).v,
            final(self).s == old(self).s,
            final(self).next_u == old(self).next_u,
            final(self).next_v == old(self).next_v,
            final(self).next_s == old(self).next_s,
            final(self).b.spec_width() == old(self).b.spec_width(),
            final(self).b.spec_height() == old(self).b.spec_height(),
            final(self).b.neutral_value() == old(self).b.neutral_value(),
            final(self).b.wf(),
            forall|i: int, k: int|
                final(self).b.in_range(i, k) ==> final(self).b.spec_get(i, k)
                    == boundary_mask_value(
                    final(self).b.spec_width(),
                    final(self).b.spec_height(),
                    i,
                    k,
                ),
    {
        let bw: usize = self.b.width();
        let bh: usize = self.b.height();
        self.b.fill(1u8);
        proof {
            assert forall|i2: int, k2: int| self.b.in_range(i2, k2) implies self.b.spec_get(i2, k2)
                == 1u8 by {
                self.b.lemma_flat_bounds(i2, k2);
            }
        }

        let mut i: usize = 0;
        while i < bw
            invariant
                old(self).wf(),
                self.same_parameters(*old(self)),
                self.u == old(self).u,
                self.v == old(self).v,
                self.s == old(self).s,
                self.next_u == old(self).next_u,
                self.next_v == old(self).next_v,
                self.next_s == old(self).next_s,
                self.b.wf(),
                self.b.spec_width() == bw,
                self.b.spec_height() == bh,
                self.b.neutral_value() == old(self).b.neutral_value(),
                bw <= i32::MAX,
                bh <= i32::MAX,
                forall|j: int| 0 <= j < self.b@.len() ==> self.b@[j] <= 1,
                i <= bw,
                forall|i2: int, k2: int|
                    self.b.in_range(i2, k2) ==> self.b.spec_get(i2, k2) == (if (k2 == 0 || k2 == bh
                        - 1) && i2 < i {
                        0u8
                    } else {
                        1u8
                    }),
            decreases bw - i,
        {
            let ii: i32 = i as i32;
            let ghost before = self.b;
            self.b.set(ii, 0, 0u8);
            proof {
                before.lemma_flat_bounds(ii as int, 0);
                lemma_grid_set_pointwise(before, self.b, ii as int, 0, 0u8);
            }
            let ghost mid = self.b;
            self.b.set(ii, bh as i32 - 1, 0u8);
            proof {
                mid.lemma_flat_bounds(ii as int, bh as int - 1);
                lemma_grid_set_pointwise(mid, self.b, ii as int, bh as int - 1, 0u8);
            }
            i = i + 1;
        }

        let mut k: usize = 0;
        while k < bh
            invariant
                old(self).wf(),
                self.same_parameters(*old(self)),
                self.u == old(self).u,
                self.v == old(self).v,
                self.s == old(self).s,
                self.next_u == old(self).next_u,
                self.next_v == old(self).next_v,
                self.next_s == old(self).next_s,
                self.b.wf(),
                self.b.spec_width() == bw,
                self.b.spec_height() == bh,
                self.b.neutral_value() == old(self).b.neutral_value(),
                bw <= i32::MAX,
                bh <= i32::MAX,
                forall|j: int| 0 <= j < self.b@.len() ==> self.b@[j] <= 1,
                k <= bh,
                forall|i2: int, k2: int|
                    self.b.in_range(i2, k2) ==> self.b.spec_get(i2, k2) == (if k2 == 0 || k2 == bh
                        - 1 {
                        0u8
                    } else if (i2 == 0 || i2 == bw - 1) && k2 < k {
                        0u8
                    } else {
                        1u8
                    }),
            decreases bh - k,
        {
            let kk: i32 = k as i32;
            let ghost before = self.b;
            self.b.set(0, kk, 0u8);
            proof {
                before.lemma_flat_bounds(0, kk as int);
                lemma_grid_set_pointwise(before, self.b, 0, kk as int, 0u8);
            }
            let ghost mid = self.b;
            self.b.set(bw as i32 - 1, kk, 0u8);
            proof {
                mid.lemma_flat_bounds(bw as int - 1, kk as int);
                lemma_grid_set_pointwise(mid, self.b, bw as int - 1, kk as int, 0u8);
            }
            k = k + 1;
        }
    }

    /// Zero the velocity and density fields; the obstacle mask is left
    /// untouched.
    pub fn clear(&mut self)
        requires
            old(self).wf(),
        ensures
            final(self).wf(),
            final(self).same_parameters(*old(self)),
            final(self).b == old(self).b,
            final(self).next_u == old(self).next_u,
            final(self).next_v == old(self).next_v,
            final(self).next_s == old(self).next_s,
            final(self).u@.len() == old(self).u@.len(),
            final(self).v@.len() == old(self).v@.len(),
            final(self).s@.len() == old(self).s@.len(),
            forall|j: int| 0 <= j < final(self).u@.len() ==> final(self).u@[j] == 0i64,
            forall|j: int| 0 <= j < final(self).v@.len() ==> final(self).v@[j] == 0i64,
            forall|j: int| 0 <= j < final(self).s@.len() ==> final(self).s@[j] == 0i64,
    {
        self.u.fill(0i64);
        self.v.fill(0i64);
        self.s.fill(0i64);
    }

    /// Recompute the cell size and grid dimensions for new physical extents,
    /// holding the resolution target fixed; resize all seven grids to the new
    /// staggered dimensions, preserving overlapping content; then re-run
    /// boundary initialization, so the outer ring is solid again.
    pub fn resize(&mut self, width: u32, height: u32)
        requires
            old(self).wf(),
            1 <= width <= MAX_EXTENT,
            1 <= height <= MAX_EXTENT,
        ensures
            final(self).wf(),
            final(self).n == old(self).n,
            final(self).n_iterations == old(self).n_iterations,
            final(self).delta_t == old(self).delta_t,
            final(self).overrelaxation_coefficient == old(self).overrelaxation_coefficient,
            final(self).max_squares == old(self).max_squares,
            final(self).square_size == spec_cell_size(
                if width >= height {
                    width as int
                } else {
                    height as int
                },
                old(self).max_squares as int,
            ),
            final(self).block_offset == final(self).square_size,
            final(self).grid_width == spec_grid_cells(
                width as int,
                final(self).square_size as int,
            ),
            final(self).grid_height == spec_grid_cells(
                height as int,
                final(self).square_size as int,
            ),
            forall|i: int, k: int|
                final(self).u.in_range(i, k) ==> final(self).u.spec_get(i, k) == old(
                    self,
                ).u.spec_get(i, k),
            forall|i: int, k: int|
                final(self).v.in_range(i, k) ==> final(self).v.spec_get(i, k) == old(
                    self,
                ).v.spec_get(i, k),
            forall|i: int, k: int|
                final(self).s.in_range(i, k) ==> final(self).s.spec_get(i, k) == old(
                    self,
                ).s.spec_get(i, k),
            forall|i: int, k: int|
                final(self).b.in_range(i, k) ==> final(self).b.spec_get(i, k)
                    == boundary_mask_value(
                    final(self).b.spec_width(),
                    final(self).b.spec_height(),
                    i,
                    k,
                ),
    {
        let t: usize = self.max_squares;
        let mx: u32 = if width >= height {
            width
        } else {
            height
        };

        proof {
            assert((mx as int) * (SCALE as int) <= 1_000_000_000_000) by (nonlinear_arith)
                requires
                    0 <= mx <= 1_000_000,
                    SCALE == 1_000_000,
            ;
        }
        let square_size_w: u64 = (mx as u64 * SCALE as u64) / (t as u64);
        proof {
            lemma_cell_size_bounds(mx as int, t as int);
        }
        proof {
            assert((width as int) * (SCALE as int) <= 1_000_000_000_000 && (height as int) * (
            SCALE as int) <= 1_000_000_000_000) by (nonlinear_arith)
                requires
                    0 <= width <= 1_000_000,
                    0 <= height <= 1_000_000,
                    SCALE == 1_000_000,
            ;
        }
        let grid_width_w: u64 = (width as u64 * SCALE as u64 + square_size_w - 1) / square_size_w;
        let grid_height_w: u64 = (height as u64 * SCALE as u64 + square_size_w - 1)
            / square_size_w;

        proof {
            lemma_grid_cells_bounds(width as int, mx as int, t as int);
            lemma_grid_cells_bounds(height as int, mx as int, t as int);
        }

        let square_size: i64 = square_size_w as i64;
        let grid_width: usize = grid_width_w as usize;
        let grid_height: usize = grid_height_w as usize;

        proof {
            lemma_staggered_sizes_fit(grid_width as int, grid_height as int);
        }

        self.square_size = square_size;
        self.block_offset = square_size;
        self.grid_width = grid_width;
        self.grid_height = grid_height;

        self.u.resize(grid_width + 3, grid_height + 2);
        self.v.resize(grid_width + 2, grid_height + 3);
        self.s.resize(grid_width + 2, grid_height + 2);
        self.b.resize(grid_width + 2, grid_height + 2);
        self.next_u.resize(grid_width + 3, grid_height + 2);
        self.next_v.resize(grid_width + 2, grid_height + 3);
        self.next_s.resize(grid_width + 2, grid_height + 2);

        proof {
            assert forall|j: int| 0 <= j < self.b@.len() implies self.b@[j] <= 1 by {
                let bw = self.b.spec_width();
                let bh = self.b.spec_height();
                lemma_fundamental_div_mod(j, bh);
                lemma_remainder_lower(j, bh);
                lemma_remainder_upper(j, bh);
                lemma_div_pos_is_pos(j, bh);
                assert(self.b@.len() == bw * bh && bw * bh == bh * bw) by (nonlinear_arith)
                    requires
                        self.b@.len() == bw * bh,
                ;
                lemma_multiply_divide_lt(j, bh, bw);
                let a = j / bh;
                let c = j % bh;
                self.b.lemma_flat_bounds(a, c);
                assert(a * bh == bh * a) by (nonlinear_arith);
                assert(self.b@[j] == self.b.spec_get(a, c));
                if old(self).b.in_range(a, c) {
                    old(self).b.lemma_flat_bounds(a, c);
                }
            }
        }

        self.fill_edges_with_obstacles();
    }
}

/// After a single in-range `set`, the grid reads back the written value at
/// that position and the old value everywhere else.
pub proof fn lemma_grid_set_pointwise<T>(g: Grid<T>, h: Grid<T>, i: int, k: int, v: T)
    requires
        g.wf(),
        h.wf(),
        h.spec_width() == g.spec_width(),
        h.spec_height() == g.spec_height(),
        h.neutral_value() == g.neutral_value(),
        h@ == if g.in_range(i, k) {
            g@.update(g.flat(i, k), v)
        } else {
            g@
        },
    ensures
        forall|a: int, b: int|
            #![trigger h.spec_get(a, b)]
            h.spec_get(a, b) == if a == i && b == k && g.in_range(i, k) {
                v
            } else {
                g.spec_get(a, b)
            },
{
    assert forall|a: int, b: int| #![trigger h.spec_get(a, b)] h.spec_get(a, b) == if a == i && b
        == k && g.in_range(i, k) {
        v
    } else {
        g.spec_get(a, b)
    } by {
        if g.in_range(i, k) {
            g.lemma_flat_bounds(i, k);
            if g.in_range(a, b) {
                g.lemma_flat_bounds(a, b);
            }
        }
    }
}

/// The derived cell size is positive and bounded whenever the extent and
/// target are within the accepted ranges.
proof fn lemma_cell_size_bounds(mx: int, t: int)
    requires
        1 <= mx <= MAX_EXTENT,
        1 <= t <= MAX_RESOLUTION,
    ensures
        1 <= spec_cell_size(mx, t) <= MAX_CELL_SIZE,
{
    let m = mx * SCALE;
    assert(SCALE <= m <= MAX_CELL_SIZE);
    lemma_div_is_ordered(t, m, t);
    lemma_div_by_self(t);
    lemma_div_nonincreasing(m, t);
}

/// The derived grid dimension is positive and bounded whenever the extents
/// and target are within the accepted ranges.
proof fn lemma_grid_cells_bounds(extent: int, mx: int, t: int)
    requires
        1 <= extent <= mx,
        mx <= MAX_EXTENT,
        1 <= t <= MAX_RESOLUTION,
    ensures
        1 <= spec_grid_cells(extent, spec_cell_size(mx, t)) <= MAX_GRID_DIM,
        extent * SCALE + spec_cell_size(mx, t) - 1 <= 2 * MAX_CELL_SIZE,
    {
    let m = mx * SCALE;
    let ss = spec_cell_size(mx, t);
    lemma_cell_size_bounds(mx, t);
    let a = extent * SCALE + ss - 1;

    // Lower bound: the numerator reaches at least one whole cell.
    lemma_div_is_ordered(ss, a, ss);
    lemma_div_by_self(ss);

    // Upper bound: the floor characterization of the cell size limits how
    // many cells an extent can span.
    lemma_fundamental_div_mod(m, t);
    lemma_remainder_lower(m, t);
    lemma_remainder_upper(m, t);
    assert(t * ss <= m <= t * ss + t - 1);
    assert(a <= ss * (2 * t + 1)) by (nonlinear_arith)
        requires
            t * ss <= m <= t * ss + t - 1,
            a == extent * SCALE + ss - 1,
            extent * SCALE <= m,
            ss >= 1,
            t >= 1,
    ;
    lemma_multiply_divide_le(a, ss, 2 * t + 1);
}

/// The staggered grid allocations fit in the machine's address range.
proof fn lemma_staggered_sizes_fit(gw: int, gh: int)
    requires
        1 <= gw <= MAX_GRID_DIM,
        1 <= gh <= MAX_GRID_DIM,
    ensures
        (gw + 3) * (gh + 3) <= 0xFFFF_FFFF <= usize::MAX,
        (gw + 3) * (gh + 2) <= (gw + 3) * (gh + 3),
        (gw + 2) * (gh + 3) <= (gw + 3) * (gh + 3),
        (gw + 2) * (gh + 2) <= (gw + 3) * (gh + 3),
{
    assert((gw + 3) * (gh + 3) <= 0xFFFF_FFFF && (gw + 3) * (gh + 2) <= (gw + 3) * (gh + 3)
        && (gw + 2) * (gh + 3) <= (gw + 3) * (gh + 3) && (gw + 2) * (gh + 2) <= (gw + 3) * (gh
        + 3)) by (nonlinear_arith)
        requires
            1 <= gw <= MAX_GRID_DIM,
            1 <= gh <= MAX_GRID_DIM,
    ;
}

/// The solver interface an external driver steps: pressure projection, then
/// advection, once per simulation step, with spatial interpolation and
/// coordinate mapping for sampling and interaction.  The exact contracts live
/// on the inherent methods of [`Fluid`]; the trait only promises that a valid
/// state stays valid.
pub trait FluidSimulation {
    /// The state a simulation keeps valid across calls.
    spec fn inv(&self) -> bool;

    /// Remove divergence from the velocity field.
    fn projection(&mut self)
        requires
            old(self).inv(),
        ensures
            final(self).inv(),
    ;

    /// Transport velocity and density along the velocity field.
    fn advection(&mut self)
        requires
            old(self).inv(),
        ensures
            final(self).inv(),
    ;

    /// Estimate a field's value at a continuous point.
    fn interpolate(&self, x: i64, y: i64, field: Field) -> i64
        requires
            self.inv(),
    ;

    /// Map a continuous point to staggered grid indices.
    fn get_grid_indices_from_xy(&self, x: i64, y: i64, field: Option<&Field>) -> (i32, i32)
        requires
            self.inv(),
    ;

    /// Map staggered grid indices back to a continuous point.
    fn get_xy_from_grid_indices(&self, i: i32, k: i32, field: Option<&Field>) -> (i64, i64)
        requires
            self.inv(),
    ;
}

impl FluidSimulation for Fluid {
    open spec fn inv(&self) -> bool {
        self.wf()
    }

    fn projection(&mut self) {
        Fluid::projection(self)
    }

    fn advection(&mut self) {
        Fluid::advection(self)
    }

    fn interpolate(&self, x: i64, y: i64, field: Field) -> i64 {
        Fluid::interpolate(self, x, y, field)
    }

    fn get_grid_indices_from_xy(&self, x: i64, y: i64, field: Option<&Field>) -> (i32, i32) {
        Fluid::get_grid_indices_from_xy(self, x, y, field)
    }

    fn get_xy_from_grid_indices(&self, i: i32, k: i32, field: Option<&Field>) -> (i64, i64) {
        Fluid::get_xy_from_grid_indices(self, i, k, field)
    }
}

} // verus!
