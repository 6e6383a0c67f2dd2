//! A spatial grid engine for agents on a periodic plane.
//!
//! Agents are binned into a grid of fixed-capacity cells on a torus
//! (`scatter`), the grid is given a wrapped halo (`torus`), pairwise
//! softened inverse-square forces are accumulated over a neighbourhood of
//! cells (`stencil`), and results are read back in agent order
//! (`buffer::grid_to_particles`). All quantities are fixed-point integers
//! with `geometry::FIXED_ONE` units per unit.
pub mod arith;
pub mod geometry;
pub mod buffer;
pub mod scatter;
pub mod torus;
pub mod stencil;
pub mod rng;

pub use buffer::{grid_to_particles, GridBuffer};
pub use geometry::{wrap_coordinate, GridError, SpatialGrid, FIXED_ONE};
pub use rng::Rng;
pub use scatter::particles_to_grid;
pub use stencil::{solve_gravity_stencil, FORCE_CHANNELS, MASS, POS_X, POS_Y, VEL_X, VEL_Y};
pub use torus::{create_torus_padded_grid, shift_grid};
