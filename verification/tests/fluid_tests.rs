use stable_fluids::fluid::{Field, Fluid, FluidError};
use stable_fluids::scalar::SCALE;

fn ten_by_ten() -> Fluid {
    // Cell size 10 / 10 = 1.0, so one grid step is one continuous unit.
    Fluid::new(10, 10, Some(10), None, None, None).unwrap()
}

#[test]
fn construction_derives_cell_size_and_dimensions() {
    let f = Fluid::new(100, 100, None, None, None, None).unwrap();
    // Cell size: 100 units over the default 200-cell target.
    assert_eq!(f.square_size, 500_000);
    assert_eq!(f.block_offset, 500_000);
    assert_eq!(f.grid_width, 200);
    assert_eq!(f.grid_height, 200);
    // Staggered allocations with the one-cell ghost margin.
    assert_eq!(f.b.width(), 202);
    assert_eq!(f.b.height(), 202);
    assert_eq!(f.u.width(), 203);
    assert_eq!(f.u.height(), 202);
    assert_eq!(f.v.width(), 202);
    assert_eq!(f.v.height(), 203);
    assert_eq!(f.s.width(), 202);
    assert_eq!(f.s.height(), 202);
}

#[test]
fn construction_defaults() {
    let f = Fluid::new(100, 50, None, None, None, None).unwrap();
    assert_eq!(f.max_squares, 200);
    assert_eq!(f.n_iterations, 40);
    assert_eq!(f.delta_t, 16_666);
    assert_eq!(f.overrelaxation_coefficient, 1_700_000);
    assert_eq!(f.n, 1);
}

#[test]
fn construction_takes_non_square_extents() {
    // The longer axis fixes the cell size; the shorter one rounds up.
    let f = Fluid::new(100, 30, Some(100), None, None, None).unwrap();
    assert_eq!(f.square_size, SCALE);
    assert_eq!(f.grid_width, 100);
    assert_eq!(f.grid_height, 30);
}

#[test]
fn construction_rejects_zero_width() {
    let r = Fluid::new(0, 100, None, None, None, None);
    assert_eq!(r.unwrap_err(), FluidError::InvalidConfiguration);
}

#[test]
fn construction_rejects_zero_height() {
    let r = Fluid::new(100, 0, None, None, None, None);
    assert_eq!(r.unwrap_err(), FluidError::InvalidConfiguration);
}

#[test]
fn construction_rejects_zero_resolution_target() {
    let r = Fluid::new(100, 100, Some(0), None, None, None);
    assert_eq!(r.unwrap_err(), FluidError::InvalidConfiguration);
}

#[test]
fn boundary_initialization_makes_the_outer_ring_solid() {
    let mut f = ten_by_ten();
    f.fill_edges_with_obstacles();
    let w = f.b.width() as i32;
    let h = f.b.height() as i32;
    for i in 0..w {
        for k in 0..h {
            let expected = if i == 0 || k == 0 || i == w - 1 || k == h - 1 { 0 } else { 1 };
            assert_eq!(f.b.get(i, k), expected);
        }
    }
}

#[test]
fn clear_zeroes_fields_but_not_the_mask() {
    let mut f = ten_by_ten();
    f.fill_edges_with_obstacles();
    f.u.set(3, 3, 100);
    f.v.set(4, 4, -100);
    f.s.set(5, 5, 100);
    f.clear();
    assert_eq!(f.u.get(3, 3), 0);
    assert_eq!(f.v.get(4, 4), 0);
    assert_eq!(f.s.get(5, 5), 0);
    assert_eq!(f.b.get(5, 5), 1);
    assert_eq!(f.b.get(0, 0), 0);
}

#[test]
fn interpolate_at_a_stored_sample_is_exact() {
    let mut f = ten_by_ten();
    f.s.set(4, 7, 123_456);
    let (x, y) = f.get_xy_from_grid_indices(4, 7, Some(&Field::S));
    assert_eq!(x, 3_500_000);
    assert_eq!(y, 6_500_000);
    assert_eq!(f.interpolate(x, y, Field::S), 123_456);
}

#[test]
fn interpolate_at_stored_samples_is_exact_for_velocities() {
    let mut f = ten_by_ten();
    f.u.set(2, 3, -777);
    let (x, y) = f.get_xy_from_grid_indices(2, 3, Some(&Field::U));
    assert_eq!(f.interpolate(x, y, Field::U), -777);
    f.v.set(6, 2, 555);
    let (x, y) = f.get_xy_from_grid_indices(6, 2, Some(&Field::V));
    assert_eq!(f.interpolate(x, y, Field::V), 555);
}

#[test]
fn interpolate_blends_between_samples() {
    let mut f = ten_by_ten();
    // Two horizontally adjacent density samples; a quarter of the way from
    // the first toward the second the blend reads 25% of the difference.
    f.s.set(4, 7, 0);
    f.s.set(5, 7, SCALE);
    let (x, y) = f.get_xy_from_grid_indices(4, 7, Some(&Field::S));
    let q = f.interpolate(x + SCALE / 4, y, Field::S);
    assert_eq!(q, 250_000);
}

#[test]
fn index_round_trip_stays_within_one_cell() {
    let f = ten_by_ten();
    let x: i64 = 3_700_000;
    let y: i64 = 2_200_000;
    for field in [None, Some(Field::U), Some(Field::V), Some(Field::S)] {
        let (i, k) = f.get_grid_indices_from_xy(x, y, field.as_ref());
        let (x2, y2) = f.get_xy_from_grid_indices(i, k, field.as_ref());
        assert!(x2 <= x && x - x2 < f.square_size);
        assert!(y2 <= y && y - y2 < f.square_size);
    }
}

#[test]
fn corner_mapping_without_a_field_is_exact() {
    let f = ten_by_ten();
    let (i, k) = f.get_grid_indices_from_xy(0, 0, None);
    assert_eq!((i, k), (1, 1));
    let (x, y) = f.get_xy_from_grid_indices(1, 1, None);
    assert_eq!((x, y), (0, 0));
}

#[test]
fn smallest_domain_still_runs() {
    // A 1x1 domain: one active cell inside a 3x3 mask whose ring is the
    // entire border, leaving a single interior cell.
    let mut f = Fluid::new(1, 1, Some(1), None, None, None).unwrap();
    assert_eq!(f.square_size, SCALE);
    assert_eq!(f.grid_width, 1);
    assert_eq!(f.grid_height, 1);
    assert_eq!(f.b.width(), 3);
    f.fill_edges_with_obstacles();
    assert_eq!(f.b.get(1, 1), 1);
    assert_eq!(f.b.get(0, 1), 0);
    f.s.set(1, 1, SCALE);
    f.projection();
    f.advection();
    assert_eq!(f.u.get(1, 1), 0);
}

#[test]
fn index_mapping_truncates_toward_zero() {
    // Left of the ghost margin the offset coordinate is negative; the
    // division truncates toward zero, not toward negative infinity.
    let f = ten_by_ten();
    let (i, _) = f.get_grid_indices_from_xy(-3_500_000, 0, None);
    assert_eq!(i, -2);
    let (_, k) = f.get_grid_indices_from_xy(0, -1_500_000, None);
    assert_eq!(k, 0);
}
