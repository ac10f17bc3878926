use stable_fluids::fluid::{Fluid, FluidSimulation};
use stable_fluids::scalar::SCALE;

#[test]
fn faces_adjoining_a_solid_column_are_zero_after_one_sweep() {
    // A 10x10 domain with cell size 1 and a single solid column at i = 5.
    let mut f = Fluid::new(10, 10, Some(10), None, None, None).unwrap();
    assert_eq!(f.square_size, SCALE);
    let h = f.b.height() as i32;
    f.b.fill(1);
    for k in 0..h {
        f.b.set(5, k, 0);
    }
    for k in 0..f.u.height() as i32 {
        f.u.set(5, k, SCALE);
    }

    f.solve_divergence_for_all();

    for k in 0..f.u.height() as i32 {
        // Both faces of the blocked column read exactly zero.
        assert_eq!(f.u.get(5, k), 0);
        assert_eq!(f.u.get(6, k), 0);
        // Two or more cells away from the obstacle, u is untouched by the
        // first sweep (it keeps its initial zero).
        for i in 0..f.u.width() as i32 {
            if !(4..=6).contains(&i) {
                assert_eq!(f.u.get(i, k), 0);
            }
        }
    }
}

#[test]
fn projection_relaxes_toward_zero_divergence() {
    // One fluid cell fed from the left: the sweep pushes the inflow through.
    let mut f = Fluid::new(4, 4, Some(4), None, None, None).unwrap();
    f.fill_edges_with_obstacles();
    f.u.set(2, 2, SCALE);
    let before = {
        let d = f.u.get(3, 2) - f.u.get(2, 2) + f.v.get(2, 3) - f.v.get(2, 2);
        d.abs()
    };
    f.solve_divergence_for_all();
    let after = {
        let d = f.u.get(3, 2) - f.u.get(2, 2) + f.v.get(2, 3) - f.v.get(2, 2);
        d.abs()
    };
    assert!(after < before);
}

#[test]
fn projection_of_zero_velocity_is_a_fixed_point() {
    let mut f = Fluid::new(10, 10, Some(10), Some(3), None, None).unwrap();
    f.fill_edges_with_obstacles();
    f.projection();
    f.projection();
    for i in 0..f.u.width() as i32 {
        for k in 0..f.u.height() as i32 {
            assert_eq!(f.u.get(i, k), 0);
        }
    }
    for i in 0..f.v.width() as i32 {
        for k in 0..f.v.height() as i32 {
            assert_eq!(f.v.get(i, k), 0);
        }
    }
}

#[test]
fn solid_cells_keep_their_faces_blocked_across_sweeps() {
    // An interior solid block with flow around it: after a full projection,
    // no face velocity points into the block.
    let mut f = Fluid::new(10, 10, Some(10), Some(5), None, None).unwrap();
    f.fill_edges_with_obstacles();
    f.b.set(6, 6, 0);
    for k in 1..11 {
        f.u.set(2, k, SCALE / 2);
    }
    f.projection();
    assert_eq!(f.u.get(6, 6), 0);
    assert_eq!(f.u.get(7, 6), 0);
    assert_eq!(f.v.get(6, 6), 0);
    assert_eq!(f.v.get(6, 7), 0);
}

#[test]
fn trait_projection_matches_the_inherent_call() {
    let mut a = Fluid::new(6, 6, Some(6), Some(2), None, None).unwrap();
    a.fill_edges_with_obstacles();
    a.u.set(2, 2, SCALE);
    let mut b = a.clone();

    a.projection();
    FluidSimulation::projection(&mut b);
    for i in 0..a.u.width() as i32 {
        for k in 0..a.u.height() as i32 {
            assert_eq!(a.u.get(i, k), b.u.get(i, k));
        }
    }
}
