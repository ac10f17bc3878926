use stable_fluids::fluid::Fluid;

#[test]
fn resize_recomputes_dimensions_and_reseals_the_boundary() {
    // Growing a 100x100 domain to 200x100 with the resolution target held at
    // the default 200: the cell size becomes 200 / 200 = 1.0 and the grid
    // width becomes ceil(200 / 1.0) = 200.
    let mut f = Fluid::new(100, 100, None, None, None, None).unwrap();
    assert_eq!(f.square_size, 500_000);
    f.fill_edges_with_obstacles();
    f.resize(200, 100);
    assert_eq!(f.square_size, 1_000_000);
    assert_eq!(f.grid_width, 200);
    assert_eq!(f.grid_height, 100);
    assert_eq!(f.b.width(), 202);
    assert_eq!(f.b.height(), 102);
    let w = f.b.width() as i32;
    let h = f.b.height() as i32;
    for i in 0..w {
        for k in 0..h {
            let expected = if i == 0 || k == 0 || i == w - 1 || k == h - 1 { 0 } else { 1 };
            assert_eq!(f.b.get(i, k), expected);
        }
    }
}

#[test]
fn resize_preserves_overlapping_field_content() {
    let mut f = Fluid::new(10, 10, Some(10), None, None, None).unwrap();
    f.u.set(3, 3, 777);
    f.s.set(4, 4, 555);
    f.resize(12, 10);
    assert_eq!(f.grid_width, 10);
    assert_eq!(f.grid_height, 9);
    assert_eq!(f.u.get(3, 3), 777);
    assert_eq!(f.s.get(4, 4), 555);
}

#[test]
fn resize_keeps_the_configuration() {
    let mut f = Fluid::new(10, 10, Some(10), Some(7), Some(20_000), Some(1_500_000)).unwrap();
    f.resize(20, 20);
    assert_eq!(f.max_squares, 10);
    assert_eq!(f.n_iterations, 7);
    assert_eq!(f.delta_t, 20_000);
    assert_eq!(f.overrelaxation_coefficient, 1_500_000);
    assert_eq!(f.square_size, 2_000_000);
}
