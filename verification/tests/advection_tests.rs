use stable_fluids::fluid::Fluid;
use stable_fluids::scalar::SCALE;

#[test]
fn advecting_an_all_zero_state_keeps_it_all_zero() {
    let mut f = Fluid::new(10, 10, Some(10), None, None, None).unwrap();
    f.fill_edges_with_obstacles();
    f.advection();
    for i in 0..f.u.width() as i32 {
        for k in 0..f.u.height() as i32 {
            assert_eq!(f.u.get(i, k), 0);
        }
    }
    for i in 0..f.v.width() as i32 {
        for k in 0..f.v.height() as i32 {
            assert_eq!(f.v.get(i, k), 0);
        }
    }
    for i in 0..f.s.width() as i32 {
        for k in 0..f.s.height() as i32 {
            assert_eq!(f.s.get(i, k), 0);
        }
    }
}

#[test]
fn advection_swaps_the_scratch_buffers_in() {
    let mut f = Fluid::new(4, 4, Some(4), None, None, None).unwrap();
    f.fill_edges_with_obstacles();
    f.s.set(2, 2, SCALE);
    f.advection();
    // The old live density plane is now the scratch buffer, wholesale.
    assert_eq!(f.next_s.get(2, 2), SCALE);
    assert_eq!(f.next_u.get(2, 2), 0);
    assert_eq!(f.next_v.get(2, 2), 0);
}

#[test]
fn still_density_decays_by_the_fixed_policy() {
    // Uniform density, zero velocity: each fluid cell backtraces onto its own
    // stored sample, so one advection applies exactly one decay step:
    // 1.0 / 1.1 - 0.1, in fixed point with truncation.
    let mut f = Fluid::new(10, 10, Some(10), None, None, None).unwrap();
    f.fill_edges_with_obstacles();
    f.s.fill(SCALE);
    f.advection();
    assert_eq!(f.s.get(5, 5), 809_090);
    // A solid cell's density is copied unchanged.
    assert_eq!(f.s.get(0, 0), SCALE);
}

#[test]
fn decay_floors_at_zero() {
    // A density too small to survive one decay step is floored, not driven
    // negative: 0.05 / 1.1 - 0.1 < 0.
    let mut f = Fluid::new(10, 10, Some(10), None, None, None).unwrap();
    f.fill_edges_with_obstacles();
    f.s.fill(50_000);
    f.advection();
    assert_eq!(f.s.get(5, 5), 0);
}

#[test]
fn advection_does_not_transport_into_a_solid_neighbor_face() {
    // The face right of a solid cell is copied, not advected: give the whole
    // domain a rightward drift and check the blocked face keeps its value.
    let mut f = Fluid::new(10, 10, Some(10), None, None, None).unwrap();
    f.fill_edges_with_obstacles();
    f.b.set(5, 5, 0);
    f.u.set(6, 5, 777);
    let expected = f.u.get(6, 5);
    f.advection();
    assert_eq!(f.u.get(6, 5), expected);
}
