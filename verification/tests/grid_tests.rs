use stable_fluids::grid::Grid;

#[test]
fn new_grid_is_neutral_filled() {
    let g: Grid<i64> = Grid::new(4, 3, 0);
    assert_eq!(g.width(), 4);
    assert_eq!(g.height(), 3);
    for i in 0..4 {
        for k in 0..3 {
            assert_eq!(g.get(i, k), 0);
        }
    }
}

#[test]
fn has_matches_the_stored_rectangle() {
    let g: Grid<u8> = Grid::new(2, 5, 0);
    assert!(g.has(0, 0));
    assert!(g.has(1, 4));
    assert!(!g.has(2, 0));
    assert!(!g.has(0, 5));
    assert!(!g.has(-1, 0));
    assert!(!g.has(0, -1));
}

#[test]
fn get_out_of_range_returns_the_neutral_value() {
    let mut g: Grid<i64> = Grid::new(3, 3, 7);
    g.set(1, 1, 42);
    assert_eq!(g.get(1, 1), 42);
    assert_eq!(g.get(-1, 1), 7);
    assert_eq!(g.get(1, 3), 7);
    assert_eq!(g.get(100, 100), 7);
}

#[test]
fn set_out_of_range_is_discarded() {
    let mut g: Grid<i64> = Grid::new(2, 2, 0);
    g.set(-1, 0, 9);
    g.set(0, 2, 9);
    g.set(2, 0, 9);
    for i in 0..2 {
        for k in 0..2 {
            assert_eq!(g.get(i, k), 0);
        }
    }
}

#[test]
fn update_applies_in_place_and_skips_out_of_range() {
    let mut g: Grid<i64> = Grid::new(2, 2, 0);
    g.set(0, 1, 10);
    g.update(0, 1, |x| x + 5);
    assert_eq!(g.get(0, 1), 15);
    g.update(5, 5, |x| x + 5);
    assert_eq!(g.get(0, 0), 0);
    assert_eq!(g.get(1, 0), 0);
    assert_eq!(g.get(1, 1), 0);
}

#[test]
fn fill_sets_every_cell() {
    let mut g: Grid<u8> = Grid::new(3, 2, 0);
    g.fill(1);
    for i in 0..3 {
        for k in 0..2 {
            assert_eq!(g.get(i, k), 1);
        }
    }
}

#[test]
fn swap_exchanges_storage() {
    let mut a: Grid<i64> = Grid::new(2, 2, 0);
    let mut b: Grid<i64> = Grid::new(2, 2, 0);
    a.set(0, 0, 1);
    b.set(0, 0, 2);
    a.swap(&mut b);
    assert_eq!(a.get(0, 0), 2);
    assert_eq!(b.get(0, 0), 1);
}

#[test]
fn resize_preserves_overlap_and_neutral_fills_the_rest() {
    let mut g: Grid<i64> = Grid::new(3, 3, 0);
    g.set(0, 0, 11);
    g.set(2, 2, 22);
    g.resize(2, 4);
    assert_eq!(g.width(), 2);
    assert_eq!(g.height(), 4);
    assert_eq!(g.get(0, 0), 11);
    assert_eq!(g.get(2, 2), 0);
    assert_eq!(g.get(1, 3), 0);
    assert_eq!(g.get(0, 1), 0);
}
