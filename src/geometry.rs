//! Grid geometry: the configuration of a spatial grid, the error type of the
//! engine, and the mapping from a position to a cell on the torus.
//!
//! Positions, cell sizes and state values are fixed-point numbers:
//! `FIXED_ONE` units stand for one unit of length (or mass, or velocity).
use vstd::prelude::*;
use vstd::arithmetic::div_mod::{
    lemma_fundamental_div_mod,
    lemma_fundamental_div_mod_converse,
    lemma_mod_multiples_vanish,
};
use crate::arith::{floor_div, floor_mod};

verus! {

/// Number of fixed-point units in one unit of a real quantity.
pub const FIXED_ONE: i64 = 65536;

/// Immutable geometry of a fixed-capacity grid on a torus.
#[derive(Debug, Clone, Copy)]
pub struct SpatialGrid {
    /// Number of cells along x.
    pub width: usize,
    /// Number of cells along y.
    pub height: usize,
    /// Number of slots in each cell.
    pub capacity: usize,
    /// Size of one cell along x and along y, in fixed-point units.
    pub cell_size: (i64, i64),
}

/// Why an operation of the engine refused its inputs.
#[derive(Debug, Clone, Copy, PartialEq, Eq, Structural)]
pub enum GridError {
    /// A zero width, height or capacity, a cell size that is not positive,
    /// or a grid whose number of slots does not fit in `usize`.
    InvalidConfig,
    /// The position vectors and the state do not hold the same number of agents.
    AgentCountMismatch,
    /// A state row does not have the declared number of channels.
    StateDimsMismatch,
    /// A padded grid whose number of slots does not fit in `usize`.
    GridTooLarge,
    /// A negative stencil radius.
    NegativeRadius,
    /// The state has fewer channels than the force law reads and writes.
    MissingChannels,
    /// More pair terms per slot than the force accumulator can hold.
    StencilTooLarge,
    /// A grid value outside the range that the force law accepts.
    ValueOutOfRange,
    /// A gather index that names no slot of the grid.
    IndexOutOfRange,
}

impl SpatialGrid {
    /// Number of slots in the grid: `width * height * capacity`.
    pub open spec fn num_slots(&self) -> int {
        self.width * self.height * self.capacity
    }

    /// The geometry can be laid out: every extent is positive and the
    /// slots can be counted in `usize`.
    pub open spec fn valid(&self) -> bool {
        &&& self.width > 0
        &&& self.height > 0
        &&& self.capacity > 0
        &&& self.cell_size.0 > 0
        &&& self.cell_size.1 > 0
        &&& self.num_slots() <= usize::MAX
    }

    /// Tells whether the geometry is valid.
    pub fn is_valid(&self) -> (r: bool)
        ensures
            r == self.valid(),
    {
        if self.width == 0 || self.height == 0 || self.capacity == 0 {
            return false;
        }
        if self.cell_size.0 <= 0 || self.cell_size.1 <= 0 {
            return false;
        }
        let wh = self.width.checked_mul(self.height);
        match wh {
            None => {
                proof {
                    assert(self.width * self.height * self.capacity >= self.width * self.height)
                        by (nonlinear_arith)
                        requires
                            self.capacity > 0,
                            self.width * self.height >= 0,
                    ;
                }
                false
            },
            Some(wh) => match wh.checked_mul(self.capacity) {
                None => false,
                Some(_) => true,
            },
        }
    }

    /// Number of slots of a valid grid.
    pub fn slot_count(&self) -> (r: usize)
        requires
            self.valid(),
        ensures
            r == self.num_slots(),
    {
        proof {
            assert(self.width * self.height <= self.width * self.height * self.capacity)
                by (nonlinear_arith)
                requires
                    self.capacity > 0,
                    self.width * self.height >= 0,
            ;
        }
        self.width * self.height * self.capacity
    }
}

/// The cell coordinate, in `[0, size)`, of position `p` along an axis whose
/// cells are `cell` units wide and which wraps after `size` cells: the floor
/// of `p / cell`, taken modulo `size` with a non-negative remainder.
pub open spec fn cell_coord(p: int, cell: int, size: int) -> int {
    (p / cell) % size
}

/// Computes `cell_coord` for a fixed-point position.
pub fn wrap_coordinate(p: i64, cell: i64, size: usize) -> (r: usize)
    requires
        cell > 0,
        size > 0,
    ensures
        r == cell_coord(p as int, cell as int, size as int),
        r < size,
{
    let g = floor_div(p as i128, cell as i128);
    let m = floor_mod(g, size as i128);
    m as usize
}

/// Moving a position by a whole number of grid lengths does not change its
/// cell: `p` and `p + k * size * cell` fall in the same cell coordinate, for
/// every integer `k`.
pub proof fn lemma_cell_coord_periodic(p: int, k: int, cell: int, size: int)
    requires
        cell > 0,
        size > 0,
    ensures
        cell_coord(p + k * size * cell, cell, size) == cell_coord(p, cell, size),
{
    let q = p / cell;
    let r = p % cell;
    lemma_fundamental_div_mod(p, cell);
    assert(p + k * size * cell == (q + k * size) * cell + r) by (nonlinear_arith)
        requires
            p == cell * q + r,
    ;
    lemma_fundamental_div_mod_converse(p + k * size * cell, cell, q + k * size, r);
    lemma_mod_multiples_vanish(k, q, size);
    assert(size * k + q == q + k * size) by (nonlinear_arith);
}

} // verus!
