//! Staggered coordinate mapping and bilinear spatial interpolation.
//!
//! Mapping a continuous point to the staggered indices of a field subtracts a
//! half-cell offset on each axis orthogonal to the field's own storage axis
//! (`v` and density on the horizontal axis, `u` and density on the vertical
//! axis), adds the ghost-margin spatial offset, divides by the cell size and
//! truncates toward zero; mapping indices to a position is the exact
//! algebraic inverse.  A `None` selector yields unoffset cell-corner
//! coordinates, used for obstacle and cell addressing.
//!
//! Interpolation selects the field's grid, maps the query point to that
//! field's indices and back to the cell's anchor sample point, and combines
//! the four surrounding stored samples with two nested linear blends.

use crate::fluid::{Field, Fluid, MAX_CELL_SIZE};
use crate::scalar::{
    clip64, clip_i128, div_tz, div_tz_i128, fx_add, fx_add_spec, fx_div, fx_div_spec, fx_div_count,
    fx_mul, fx_mul_spec, fx_sub, fx_sub_spec, lemma_div_tz_bounds, lemma_div_tz_of_multiple,
    lemma_div_tz_of_zero, lemma_fx_mul_scale, lemma_fx_mul_zero, sat32, SCALE,
};
use vstd::arithmetic::div_mod::lemma_multiply_divide_le;
use vstd::prelude::*;

verus! {

/// The half-cell offset a field selector applies on the horizontal axis:
/// `v` and density samples sit half a cell to the right of the cell corner.
pub open spec fn spec_half_x(field: Option<Field>, ss: int) -> int {
    match field {
        Some(Field::V) => ss / 2,
        Some(Field::S) => ss / 2,
        _ => 0,
    }
}

/// The half-cell offset a field selector applies on the vertical axis:
/// `u` and density samples sit half a cell above the cell corner.
pub open spec fn spec_half_y(field: Option<Field>, ss: int) -> int {
    match field {
        Some(Field::U) => ss / 2,
        Some(Field::S) => ss / 2,
        _ => 0,
    }
}

/// The field selector behind an optional reference.
pub open spec fn selected(field: Option<&Field>) -> Option<Field> {
    match field {
        Some(f) => Some(*f),
        None => None,
    }
}

/// The staggered index of a continuous coordinate: subtract the field's
/// half-cell offset, add the ghost-margin offset, divide by the cell size
/// truncating toward zero, and saturate into the `i32` range.
pub open spec fn spec_index_of(c: int, half: int, off: int, ss: int) -> int {
    sat32(div_tz(c - half + off, ss))
}

/// The continuous coordinate of a staggered index: the exact algebraic
/// inverse of [`spec_index_of`], saturated into the `i64` range.
pub open spec fn spec_coord_of(i: int, half: int, off: int, ss: int) -> int {
    clip64(i * ss + half - off)
}

/// The sample bilinear interpolation reads from cell `(i, k)` of a grid with
/// dimensions `gw` by `gh`: the stored value in range, zero outside.
pub open spec fn sample(g: Seq<i64>, gw: int, gh: int, i: int, k: int) -> i64 {
    if 0 <= i < gw && 0 <= k < gh {
        g[i * gh + k]
    } else {
        0i64
    }
}

/// What interpolation returns: map the point to the field's staggered cell,
/// take the cell's anchor sample point, weigh the four surrounding samples by
/// the fractional offsets within the cell, and blend first along the
/// horizontal axis, then along the vertical one.
pub open spec fn spec_interpolate(
    g: Seq<i64>,
    gw: int,
    gh: int,
    ss: int,
    off: int,
    half_x: int,
    half_y: int,
    x: int,
    y: int,
) -> int {
    let i = spec_index_of(x, half_x, off, ss);
    let k = spec_index_of(y, half_y, off, ss);
    let gx = spec_coord_of(i, half_x, off, ss);
    let gy = spec_coord_of(k, half_y, off, ss);
    let wx = fx_sub_spec(SCALE as int, fx_div_spec(fx_sub_spec(x, gx), ss));
    let wy = fx_sub_spec(SCALE as int, fx_div_spec(fx_sub_spec(y, gy), ss));
    let bot = fx_add_spec(
        fx_mul_spec(wx, sample(g, gw, gh, i, k) as int),
        fx_mul_spec(fx_sub_spec(SCALE as int, wx), sample(g, gw, gh, i + 1, k) as int),
    );
    let top = fx_add_spec(
        fx_mul_spec(wx, sample(g, gw, gh, i, k + 1) as int),
        fx_mul_spec(fx_sub_spec(SCALE as int, wx), sample(g, gw, gh, i + 1, k + 1) as int),
    );
    fx_add_spec(fx_mul_spec(wy, bot), fx_mul_spec(fx_sub_spec(SCALE as int, wy), top))
}

fn index_of(c: i64, half: i64, off: i64, ss: i64) -> (r: i32)
    requires
        ss > 0,
    ensures
        r as int == spec_index_of(c as int, half as int, off as int, ss as int),
{
    let n: i128 = c as i128 - half as i128 + off as i128;
    let q: i128 = div_tz_i128(n, ss as i128);
    if q > i32::MAX as i128 {
        i32::MAX
    } else if q < i32::MIN as i128 {
        i32::MIN
    } else {
        q as i32
    }
}

fn coord_of(i: i32, half: i64, off: i64, ss: i64) -> (r: i64)
    ensures
        r as int == spec_coord_of(i as int, half as int, off as int, ss as int),
{
    proof {
        assert((i as int) * (ss as int) <= 0x4000_0000_0000_0000_0000_0000 && (i as int) * (
        ss as int) >= -0x4000_0000_0000_0000_0000_0000) by (nonlinear_arith)
            requires
                i32::MIN <= i <= i32::MAX,
                i64::MIN <= ss <= i64::MAX,
        ;
    }
    let p: i128 = (i as i128) * (ss as i128);
    clip_i128(p + half as i128 - off as i128)
}

impl Fluid {
    /// The grid a field selector addresses.
    pub open spec fn field_grid(self, field: Field) -> crate::grid::Grid<i64> {
        match field {
            Field::U => self.u,
            Field::V => self.v,
            Field::S => self.s,
        }
    }

    /// Map a continuous point to the staggered indices of `field`'s grid
    /// (truncating toward zero); `None` addresses unoffset cell corners.
    pub fn get_grid_indices_from_xy(&self, x: i64, y: i64, field: Option<&Field>) -> (r: (
        i32,
        i32,
    ))
        requires
            self.wf(),
        ensures
            r.0 as int == spec_index_of(
                x as int,
                spec_half_x(selected(field), self.square_size as int),
                self.block_offset as int,
                self.square_size as int,
            ),
            r.1 as int == spec_index_of(
                y as int,
                spec_half_y(selected(field), self.square_size as int),
                self.block_offset as int,
                self.square_size as int,
            ),
    {
        let half: i64 = fx_div_count(self.square_size, 2);
        let half_x: i64 = match field {
            Some(Field::V) | Some(Field::S) => half,
            _ => 0,
        };
        let half_y: i64 = match field {
            Some(Field::U) | Some(Field::S) => half,
            _ => 0,
        };
        let i: i32 = index_of(x, half_x, self.block_offset, self.square_size);
        let k: i32 = index_of(y, half_y, self.block_offset, self.square_size);
        (i, k)
    }

    /// Map staggered indices of `field`'s grid back to the continuous
    /// coordinates of the stored sample: the exact algebraic inverse of
    /// [`Fluid::get_grid_indices_from_xy`].
    pub fn get_xy_from_grid_indices(&self, i: i32, k: i32, field: Option<&Field>) -> (r: (
        i64,
        i64,
    ))
        requires
            self.wf(),
        ensures
            r.0 as int == spec_coord_of(
                i as int,
                spec_half_x(selected(field), self.square_size as int),
                self.block_offset as int,
                self.square_size as int,
            ),
            r.1 as int == spec_coord_of(
                k as int,
                spec_half_y(selected(field), self.square_size as int),
                self.block_offset as int,
                self.square_size as int,
            ),
    {
        let half: i64 = fx_div_count(self.square_size, 2);
        let half_x: i64 = match field {
            Some(Field::V) | Some(Field::S) => half,
            _ => 0,
        };
        let half_y: i64 = match field {
            Some(Field::U) | Some(Field::S) => half,
            _ => 0,
        };
        let x: i64 = coord_of(i, half_x, self.block_offset, self.square_size);
        let y: i64 = coord_of(k, half_y, self.block_offset, self.square_size);
        (x, y)
    }

    /// Estimate `field`'s value at a continuous point by bilinear
    /// interpolation of the four surrounding stored samples.
    pub fn interpolate(&self, x: i64, y: i64, field: Field) -> (r: i64)
        requires
            self.wf(),
        ensures
            r as int == spec_interpolate(
                self.field_grid(field)@,
                self.field_grid(field).spec_width(),
                self.field_grid(field).spec_height(),
                self.square_size as int,
                self.block_offset as int,
                spec_half_x(Some(field), self.square_size as int),
                spec_half_y(Some(field), self.square_size as int),
                x as int,
                y as int,
            ),
    {
        let (i, k) = self.get_grid_indices_from_xy(x, y, Some(&field));
        let (grid_x, grid_y) = self.get_xy_from_grid_indices(i, k, Some(&field));

        let w_x: i64 = fx_sub(SCALE, fx_div(fx_sub(x, grid_x), self.square_size));
        let w_y: i64 = fx_sub(SCALE, fx_div(fx_sub(y, grid_y), self.square_size));

        let i1: i32 = if i < i32::MAX {
            i + 1
        } else {
            i32::MAX
        };
        let k1: i32 = if k < i32::MAX {
            k + 1
        } else {
            i32::MAX
        };

        let field_arr: &crate::grid::Grid<i64> = match field {
            Field::U => &self.u,
            Field::V => &self.v,
            Field::S => &self.s,
        };
        let v00: i64 = field_arr.get(i, k);
        let v10: i64 = field_arr.get(i1, k);
        let v01: i64 = field_arr.get(i, k1);
        let v11: i64 = field_arr.get(i1, k1);
        proof {
            let g = *field_arr;
            assert(g.spec_get(i as int, k as int) == sample(
                g@,
                g.spec_width(),
                g.spec_height(),
                i as int,
                k as int,
            ));
            assert(g.spec_get(i1 as int, k as int) == sample(
                g@,
                g.spec_width(),
                g.spec_height(),
                i as int + 1,
                k as int,
            ));
            assert(g.spec_get(i as int, k1 as int) == sample(
                g@,
                g.spec_width(),
                g.spec_height(),
                i as int,
                k as int + 1,
            ));
            assert(g.spec_get(i1 as int, k1 as int) == sample(
                g@,
                g.spec_width(),
                g.spec_height(),
                i as int + 1,
                k as int + 1,
            ));
        }

        let value_bot: i64 = fx_add(fx_mul(w_x, v00), fx_mul(fx_sub(SCALE, w_x), v10));
        let value_top: i64 = fx_add(fx_mul(w_x, v01), fx_mul(fx_sub(SCALE, w_x), v11));
        fx_add(fx_mul(w_y, value_bot), fx_mul(fx_sub(SCALE, w_y), value_top))
    }
}

/// Law: mapping a continuous coordinate to a staggered index and the index
/// back to a coordinate recovers the coordinate within one cell width — the
/// anchor lies at most one cell below the query, never above it.  The
/// premises ask only that the offset coordinate is nonnegative and within
/// 20000 cells of the origin (inside any active domain the solver can
/// allocate) so that neither mapping direction saturates.
pub proof fn lemma_map_round_trip(c: int, half: int, off: int, ss: int)
    requires
        1 <= ss <= MAX_CELL_SIZE,
        0 <= half <= ss,
        0 <= off <= MAX_CELL_SIZE,
        0 <= c - half + off <= 20_000 * ss,
    ensures
        c - ss < spec_coord_of(spec_index_of(c, half, off, ss), half, off, ss) <= c,
{
    let n = c - half + off;
    let q = div_tz(n, ss);
    lemma_div_tz_bounds(n, ss);
    lemma_multiply_divide_le(n, ss, 20_000);
    assert(q <= 20_000);
    assert(sat32(q) == q);
    assert(ss * (q + 1) == ss * q + ss) by (nonlinear_arith);
    assert(q * ss == ss * q) by (nonlinear_arith);
    assert(0 <= q * ss <= n);
    assert(spec_coord_of(q, half, off, ss) == q * ss + half - off);
}

/// Law: interpolating exactly at a stored sample point returns that sample —
/// the bilinear weights collapse to one and zero.  `(i, k)` is the sample's
/// position in a `gw` by `gh` grid, and `x`, `y` in the conclusion are the
/// sample's continuous coordinates.
pub proof fn lemma_interpolate_at_sample(
    g: Seq<i64>,
    gw: int,
    gh: int,
    ss: int,
    off: int,
    half_x: int,
    half_y: int,
    i: int,
    k: int,
)
    requires
        1 <= ss <= MAX_CELL_SIZE,
        0 <= half_x <= ss,
        0 <= half_y <= ss,
        0 <= off <= MAX_CELL_SIZE,
        0 <= i < gw <= 20_000,
        0 <= k < gh <= 20_000,
        g.len() == gw * gh,
    ensures
        spec_interpolate(
            g,
            gw,
            gh,
            ss,
            off,
            half_x,
            half_y,
            spec_coord_of(i, half_x, off, ss),
            spec_coord_of(k, half_y, off, ss),
        ) == sample(g, gw, gh, i, k),
{
    lemma_axis_anchor(i, half_x, off, ss);
    lemma_axis_anchor(k, half_y, off, ss);
    let x = spec_coord_of(i, half_x, off, ss);
    let y = spec_coord_of(k, half_y, off, ss);
    assert(spec_index_of(x, half_x, off, ss) == i);
    assert(spec_index_of(y, half_y, off, ss) == k);
    assert(fx_sub_spec(x, spec_coord_of(i, half_x, off, ss)) == 0);
    lemma_div_tz_of_zero(ss);
    assert(fx_div_spec(0, ss) == 0) by {
        assert(0 * (SCALE as int) == 0) by (nonlinear_arith);
    }
    let wx = fx_sub_spec(SCALE as int, fx_div_spec(0, ss));
    assert(wx == SCALE as int);
    let s00 = sample(g, gw, gh, i, k);
    let s10 = sample(g, gw, gh, i + 1, k);
    let s01 = sample(g, gw, gh, i, k + 1);
    let s11 = sample(g, gw, gh, i + 1, k + 1);
    lemma_fx_mul_scale(s00 as int);
    lemma_fx_mul_scale(s01 as int);
    lemma_fx_mul_zero(s10 as int);
    lemma_fx_mul_zero(s11 as int);
    let bot = fx_add_spec(fx_mul_spec(wx, s00 as int), fx_mul_spec(0, s10 as int));
    assert(bot == s00 as int);
    let top = fx_add_spec(fx_mul_spec(wx, s01 as int), fx_mul_spec(0, s11 as int));
    assert(top == s01 as int);
    lemma_fx_mul_scale(bot);
    lemma_fx_mul_zero(top);
    assert(fx_add_spec(bot, 0) == s00 as int);
}

/// On one axis: a stored sample's continuous coordinate maps back to exactly
/// its own index, and the fractional offset within the cell is zero.
proof fn lemma_axis_anchor(i: int, half: int, off: int, ss: int)
    requires
        1 <= ss <= MAX_CELL_SIZE,
        0 <= half <= ss,
        0 <= off <= MAX_CELL_SIZE,
        0 <= i <= 20_000,
    ensures
        spec_coord_of(i, half, off, ss) == i * ss + half - off,
        spec_index_of(spec_coord_of(i, half, off, ss), half, off, ss) == i,
{
    assert(0 <= i * ss <= 20_000 * MAX_CELL_SIZE) by (nonlinear_arith)
        requires
            0 <= i <= 20_000,
            1 <= ss <= MAX_CELL_SIZE,
    ;
    let x = spec_coord_of(i, half, off, ss);
    assert(x == i * ss + half - off);
    assert(x - half + off == i * ss);
    lemma_div_tz_of_multiple(i, ss);
}

} // verus!
