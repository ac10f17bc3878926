//! A real-time, grid-based incompressible-fluid solver.
//!
//! The solver tracks two staggered velocity components and a passive density
//! (smoke) field over a rectangular 2D domain.  Velocity lives on cell-face
//! centers (a MAC layout), density and the obstacle mask at cell centers, and
//! a one-cell ghost margin surrounds the active domain.  Each simulation step
//! runs an iterative pressure projection (divergence removal against solid
//! obstacles) followed by semi-Lagrangian advection with bilinear sampling.
//!
//! All continuous quantities (velocities, densities, coordinates, cell size)
//! are fixed-point values: an `i64` counting steps of `1 / scalar::SCALE` of
//! a continuous unit.  The arithmetic on them is defined exactly in
//! [`scalar`], so every numerical routine here carries a precise contract.
//!
//! Beyond the per-function contracts, the main statements proved are:
//! after any sweep the faces adjoining a solid cell read exactly zero
//! ([`projection::lemma_sweep_clears_solid_faces`]); projection of a zero
//! velocity field is a fixed point
//! ([`projection::lemma_projection_zero_fixed_point`]); advecting an
//! all-zero state writes only zeros
//! ([`advection::lemma_advection_of_zero`]); the coordinate mapping round
//! trip recovers a point within one cell width
//! ([`mapping::lemma_map_round_trip`]); and interpolation at a stored
//! sample returns that sample exactly
//! ([`mapping::lemma_interpolate_at_sample`]).

pub mod advection;
pub mod fluid;
pub mod grid;
pub mod mapping;
pub mod projection;
pub mod scalar;
