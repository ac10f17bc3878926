//! The dense 2D grid container that every field of the solver lives in.
//!
//! Access is bounds-checked but never fails: a read outside the stored
//! rectangle yields the grid's neutral value and a write outside it is
//! discarded.  That silent degradation is deliberate — it stands in for the
//! explicit boundary-condition branching that the solver loops would
//! otherwise need, so it is part of the container's contract, not an error
//! path.

use vstd::arithmetic::div_mod::{
    lemma_fundamental_div_mod_converse_div, lemma_fundamental_div_mod_converse_mod,
};
use vstd::prelude::*;

verus! {

/// A rectangular dense array of `width * height` cells, stored column by
/// column, together with the neutral value returned for out-of-range reads
/// and used to fill newly exposed cells.
#[derive(Clone, Debug)]
pub struct Grid<T> {
    width: usize,
    height: usize,
    neutral: T,
    cells: Vec<T>,
}

impl<T> View for Grid<T> {
    type V = Seq<T>;

    closed spec fn view(&self) -> Seq<T> {
        self.cells@
    }
}

impl<T> Grid<T> {
    /// The stored width, as seen by specifications.
    pub closed spec fn spec_width(self) -> int {
        self.width as int
    }

    /// The stored height, as seen by specifications.
    pub closed spec fn spec_height(self) -> int {
        self.height as int
    }

    /// The neutral value, as seen by specifications.
    pub closed spec fn neutral_value(self) -> T {
        self.neutral
    }

    /// Well-formedness: the backing storage holds exactly one cell per
    /// position of a non-empty rectangle.
    pub open spec fn wf(self) -> bool {
        &&& self@.len() == self.spec_width() * self.spec_height()
        &&& self.spec_width() >= 1
        &&& self.spec_height() >= 1
    }

    /// Whether `(i, k)` addresses a stored cell.
    pub open spec fn in_range(self, i: int, k: int) -> bool {
        0 <= i < self.spec_width() && 0 <= k < self.spec_height()
    }

    /// The flat storage index of position `(i, k)`.
    pub open spec fn flat(self, i: int, k: int) -> int {
        i * self.spec_height() + k
    }

    /// The value at `(i, k)`: the stored cell in range, the neutral value
    /// outside range.
    pub open spec fn spec_get(self, i: int, k: int) -> T {
        if self.in_range(i, k) {
            self@[self.flat(i, k)]
        } else {
            self.neutral_value()
        }
    }

    /// An in-range position maps to a flat index inside the storage, and the
    /// column and row can be recovered from it by division and remainder.
    pub proof fn lemma_flat_bounds(self, i: int, k: int)
        requires
            self.wf(),
            self.in_range(i, k),
        ensures
            0 <= self.flat(i, k) < self@.len(),
            self.flat(i, k) / self.spec_height() == i,
            self.flat(i, k) % self.spec_height() == k,
    {
        let w = self.spec_width();
        let h = self.spec_height();
        assert(0 <= i * h + k && i * h + k < w * h) by (nonlinear_arith)
            requires
                0 <= i < w,
                0 <= k < h,
        ;
        lemma_fundamental_div_mod_converse_div(i * h + k, h, i, k);
        lemma_fundamental_div_mod_converse_mod(i * h + k, h, i, k);
    }
}

impl<T: Copy> Grid<T> {
    /// Allocate a `width` by `height` grid with every cell set to `neutral`.
    pub fn new(width: usize, height: usize, neutral: T) -> (g: Grid<T>)
        requires
            1 <= width,
            1 <= height,
            width * height <= usize::MAX,
        ensures
            g.wf(),
            g.spec_width() == width,
            g.spec_height() == height,
            g.neutral_value() == neutral,
            forall|j: int| 0 <= j < g@.len() ==> g@[j] == neutral,
    {
        let total: usize = width * height;
        let mut cells: Vec<T> = Vec::new();
        let mut j: usize = 0;
        while j < total
            invariant
                j <= total,
                cells@.len() == j,
                forall|m: int| 0 <= m < j ==> cells@[m] == neutral,
            decreases total - j,
        {
            cells.push(neutral);
            j = j + 1;
        }
        Grid { width, height, neutral, cells }
    }

    /// The number of columns.
    pub fn width(&self) -> (r: usize)
        ensures
            r as int == self.spec_width(),
    {
        self.width
    }

    /// The number of rows.
    pub fn height(&self) -> (r: usize)
        ensures
            r as int == self.spec_height(),
    {
        self.height
    }

    /// Whether `(i, k)` addresses a stored cell.
    pub fn has(&self, i: i32, k: i32) -> (r: bool)
        ensures
            r == self.in_range(i as int, k as int),
    {
        i >= 0 && (i as usize) < self.width && k >= 0 && (k as usize) < self.height
    }

    /// Read the cell at `(i, k)`; out of range, the neutral value.
    pub fn get(&self, i: i32, k: i32) -> (r: T)
        requires
            self.wf(),
        ensures
            r == self.spec_get(i as int, k as int),
    {
        if !self.has(i, k) {
            self.neutral
        } else {
            let iu: usize = i as usize;
            let ku: usize = k as usize;
            let n: usize = self.cells.len();
            proof {
                self.lemma_flat_bounds(iu as int, ku as int);
                assert((iu as int) * (self.height as int) + (ku as int) < n);
            }
            self.cells[iu * self.height + ku]
        }
    }

    /// Write `value` at `(i, k)`; out of range, a no-op.
    pub fn set(&mut self, i: i32, k: i32, value: T)
        requires
            old(self).wf(),
        ensures
            final(self).wf(),
            final(self).spec_width() == old(self).spec_width(),
            final(self).spec_height() == old(self).spec_height(),
            final(self).neutral_value() == old(self).neutral_value(),
            final(self)@ == if old(self).in_range(i as int, k as int) {
                old(self)@.update(old(self).flat(i as int, k as int), value)
            } else {
                old(self)@
            },
    {
        if self.has(i, k) {
            let iu: usize = i as usize;
            let ku: usize = k as usize;
            let n: usize = self.cells.len();
            proof {
                self.lemma_flat_bounds(iu as int, ku as int);
                assert((iu as int) * (self.height as int) + (ku as int) < n);
            }
            self.cells[iu * self.height + ku] = value;
        }
    }

    /// Apply `f` to the cell at `(i, k)` in place; out of range, a no-op.
    pub fn update<F: Fn(T) -> T>(&mut self, i: i32, k: i32, f: F)
        requires
            old(self).wf(),
            old(self).in_range(i as int, k as int) ==> f.requires(
                (old(self).spec_get(i as int, k as int),),
            ),
        ensures
            final(self).wf(),
            final(self).spec_width() == old(self).spec_width(),
            final(self).spec_height() == old(self).spec_height(),
            final(self).neutral_value() == old(self).neutral_value(),
            !old(self).in_range(i as int, k as int) ==> final(self)@ == old(self)@,
            old(self).in_range(i as int, k as int) ==> exists|v: T|
                #[trigger] f.ensures((old(self).spec_get(i as int, k as int),), v)
                    && final(self)@ == old(self)@.update(
                    old(self).flat(i as int, k as int),
                    v,
                ),
    {
        if self.has(i, k) {
            let iu: usize = i as usize;
            let ku: usize = k as usize;
            let n: usize = self.cells.len();
            proof {
                self.lemma_flat_bounds(iu as int, ku as int);
                assert((iu as int) * (self.height as int) + (ku as int) < n);
            }
            let idx: usize = iu * self.height + ku;
            let value: T = f(self.cells[idx]);
            self.cells[idx] = value;
        }
    }

    /// Set every cell to `value`.
    pub fn fill(&mut self, value: T)
        requires
            old(self).wf(),
        ensures
            final(self).wf(),
            final(self).spec_width() == old(self).spec_width(),
            final(self).spec_height() == old(self).spec_height(),
            final(self).neutral_value() == old(self).neutral_value(),
            final(self)@.len() == old(self)@.len(),
            forall|j: int| 0 <= j < final(self)@.len() ==> final(self)@[j] == value,
    {
        let total: usize = self.cells.len();
        let mut j: usize = 0;
        while j < total
            invariant
                j <= total,
                self.cells@.len() == total,
                self.width == old(self).width,
                self.height == old(self).height,
                self.neutral == old(self).neutral,
                forall|m: int| 0 <= m < j ==> self.cells@[m] == value,
            decreases total - j,
        {
            self.cells[j] = value;
            j = j + 1;
        }
    }

    /// Exchange the entire contents of two grids in O(1).
    pub fn swap(&mut self, other: &mut Grid<T>)
        ensures
            *final(self) == *old(other),
            *final(other) == *old(self),
    {
        core::mem::swap(self, other);
    }

    /// Change the dimensions to `width` by `height`, keeping the content of
    /// every position that both rectangles cover and filling newly exposed
    /// cells with the neutral value.
    pub fn resize(&mut self, width: usize, height: usize)
        requires
            old(self).wf(),
            1 <= width,
            1 <= height,
            width * height <= usize::MAX,
        ensures
            final(self).wf(),
            final(self).spec_width() == width,
            final(self).spec_height() == height,
            final(self).neutral_value() == old(self).neutral_value(),
            forall|i: int, k: int|
                0 <= i < width && 0 <= k < height ==> final(self).spec_get(i, k) == if old(
                    self,
                ).in_range(i, k) {
                    old(self).spec_get(i, k)
                } else {
                    old(self).neutral_value()
                },
    {
        let mut cells: Vec<T> = Vec::new();
        let mut i: usize = 0;
        while i < width
            invariant
                old(self).wf(),
                *self == *old(self),
                i <= width,
                width * height <= usize::MAX,
                cells@.len() == i * height,
                forall|a: int, b: int|
                    0 <= a < i && 0 <= b < height ==> cells@[a * (height as int) + b] == if old(
                        self,
                    ).in_range(a, b) {
                        old(self).spec_get(a, b)
                    } else {
                        old(self).neutral_value()
                    },
            decreases width - i,
        {
            let mut k: usize = 0;
            proof {
                assert((i as int) * (height as int) + height <= (width as int) * (height as int))
                    by (nonlinear_arith)
                    requires
                        0 <= i < width,
                        height >= 0,
                ;
            }
            while k < height
                invariant
                    old(self).wf(),
                    *self == *old(self),
                    i < width,
                    k <= height,
                    (i as int) * (height as int) + height <= (width as int) * (height as int),
                    width * height <= usize::MAX,
                    cells@.len() == i * height + k,
                    forall|a: int, b: int|
                        0 <= a < i && 0 <= b < height ==> cells@[a * (height as int) + b] == if old(
                            self,
                        ).in_range(a, b) {
                            old(self).spec_get(a, b)
                        } else {
                            old(self).neutral_value()
                        },
                    forall|b: int|
                        0 <= b < k ==> cells@[(i as int) * (height as int) + b] == if old(
                            self,
                        ).in_range(i as int, b) {
                            old(self).spec_get(i as int, b)
                        } else {
                            old(self).neutral_value()
                        },
                decreases height - k,
            {
                let value: T = if i < self.width && k < self.height {
                    let n: usize = self.cells.len();
                    proof {
                        self.lemma_flat_bounds(i as int, k as int);
                        assert((i as int) * (self.height as int) + (k as int) < n);
                    }
                    self.cells[i * self.height + k]
                } else {
                    self.neutral
                };
                cells.push(value);
                proof {
                    assert forall|a: int, b: int| #![trigger a * (height as int) + b]
                        0 <= a < i && 0 <= b < height implies a * (height as int) + b < (i as int)
                        * (height as int) + k by {
                        assert(a * (height as int) + b < (i as int) * (height as int) + k)
                            by (nonlinear_arith)
                            requires
                                0 <= a < i,
                                0 <= b < height,
                                0 <= k,
                        ;
                    }
                }
                k = k + 1;
            }
            proof {
                assert((i as int + 1) * (height as int) == (i as int) * (height as int) + (
                height as int)) by (nonlinear_arith);
            }
            i = i + 1;
        }
        self.cells = cells;
        self.width = width;
        self.height = height;
        proof {
            assert forall|i2: int, k2: int| 0 <= i2 < width && 0 <= k2 < height implies self.spec_get(
                i2,
                k2,
            ) == if old(self).in_range(i2, k2) {
                old(self).spec_get(i2, k2)
            } else {
                old(self).neutral_value()
            } by {
                self.lemma_flat_bounds(i2, k2);
            }
        }
    }
}

} // verus!
