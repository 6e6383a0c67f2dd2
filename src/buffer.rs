//! Dense grid buffers and the arithmetic of slot indices.
//!
//! A buffer of `height` rows, `width` columns and `capacity` slots per cell
//! stores one state row of `dims` values per slot. Slot `(y, x, c)` sits at
//! flat index `(y * width + x) * capacity + c`.
use vstd::prelude::*;
use vstd::arithmetic::div_mod::{
    lemma_fundamental_div_mod,
    lemma_fundamental_div_mod_converse,
    lemma_div_is_ordered,
    lemma_div_multiples_vanish,
};
use crate::geometry::GridError;

verus! {

/// A grid of state rows shaped `[height, width, capacity, dims]`.
#[derive(Debug)]
pub struct GridBuffer {
    pub height: usize,
    pub width: usize,
    pub capacity: usize,
    pub dims: usize,
    /// One row of `dims` values per slot, in slot order.
    pub rows: Vec<Vec<i64>>,
}

/// Flat index of slot `c` of cell `(y, x)` in a grid `width` cells wide with
/// `capacity` slots per cell.
pub open spec fn slot_of(y: int, x: int, c: int, width: int, capacity: int) -> int {
    (y * width + x) * capacity + c
}

/// Row of the cell that holds flat slot `q`.
pub open spec fn row_of(q: int, width: int, capacity: int) -> int {
    q / capacity / width
}

/// Column of the cell that holds flat slot `q`.
pub open spec fn col_of(q: int, width: int, capacity: int) -> int {
    (q / capacity) % width
}

/// Position of flat slot `q` inside its cell.
pub open spec fn lane_of(q: int, capacity: int) -> int {
    q % capacity
}

impl GridBuffer {
    /// Number of slots.
    pub open spec fn num_slots(&self) -> int {
        self.height * self.width * self.capacity
    }

    /// The shape fields describe `rows`: positive extents, one row per slot,
    /// `dims` values per row.
    pub open spec fn wf(&self) -> bool {
        &&& self.height > 0
        &&& self.width > 0
        &&& self.capacity > 0
        &&& self.rows@.len() == self.num_slots()
        &&& forall|q: int| 0 <= q < self.rows@.len() ==> (#[trigger] self.rows@[q])@.len() == self.dims
    }

    /// Value of channel `d` at flat slot `q`.
    pub open spec fn value(&self, q: int, d: int) -> i64 {
        self.rows@[q]@[d]
    }

    /// Tells whether the buffer is well formed.
    pub fn is_well_formed(&self) -> (r: bool)
        ensures
            r == self.wf(),
    {
        let len = self.rows.len();
        if self.height == 0 || self.width == 0 || self.capacity == 0 {
            return false;
        }
        let hw = match self.height.checked_mul(self.width) {
            Some(v) => v,
            None => {
                proof {
                    lemma_mul_grows(self.height * self.width, self.capacity as int);
                }
                return false;
            },
        };
        let n = match hw.checked_mul(self.capacity) {
            Some(v) => v,
            None => return false,
        };
        if len != n {
            return false;
        }
        let mut q: usize = 0;
        while q < n
            invariant
                q <= n,
                n == self.rows@.len(),
                forall|p: int| 0 <= p < q ==> (#[trigger] self.rows@[p])@.len() == self.dims,
            decreases n - q,
        {
            if self.rows[q].len() != self.dims {
                return false;
            }
            q = q + 1;
        }
        true
    }
}

/// `a <= a * b` for a positive `b`.
pub proof fn lemma_mul_grows(a: int, b: int)
    requires
        a >= 0,
        b > 0,
    ensures
        a <= a * b,
{
    assert(a <= a * b) by (nonlinear_arith)
        requires
            a >= 0,
            b > 0,
    ;
}

/// A slot of a cell inside the grid has a flat index inside the grid, and
/// the flat index gives back its row, column and lane.
pub proof fn lemma_slot_compose(y: int, x: int, c: int, height: int, width: int, capacity: int)
    requires
        0 <= y < height,
        0 <= x < width,
        0 <= c < capacity,
    ensures
        0 <= slot_of(y, x, c, width, capacity) < height * width * capacity,
        row_of(slot_of(y, x, c, width, capacity), width, capacity) == y,
        col_of(slot_of(y, x, c, width, capacity), width, capacity) == x,
        lane_of(slot_of(y, x, c, width, capacity), capacity) == c,
{
    let cell = y * width + x;
    let q = slot_of(y, x, c, width, capacity);
    assert(0 <= cell < height * width) by (nonlinear_arith)
        requires
            0 <= y < height,
            0 <= x < width,
            cell == y * width + x,
    ;
    assert(0 <= q < height * width * capacity) by (nonlinear_arith)
        requires
            0 <= cell < height * width,
            0 <= c < capacity,
            q == cell * capacity + c,
    ;
    lemma_fundamental_div_mod_converse(q, capacity, cell, c);
    lemma_fundamental_div_mod_converse(cell, width, y, x);
}

/// Every flat index inside the grid is the slot of its row, column and
/// lane, and these lie inside the grid.
pub proof fn lemma_slot_decompose(q: int, height: int, width: int, capacity: int)
    requires
        0 <= q < height * width * capacity,
        width > 0,
        capacity > 0,
    ensures
        0 <= row_of(q, width, capacity) < height,
        0 <= col_of(q, width, capacity) < width,
        0 <= lane_of(q, capacity) < capacity,
        q == slot_of(row_of(q, width, capacity), col_of(q, width, capacity), lane_of(q, capacity), width, capacity),
{
    let cell = q / capacity;
    lemma_fundamental_div_mod(q, capacity);
    lemma_fundamental_div_mod(cell, width);
    assert(height * width * capacity == capacity * (height * width)) by (nonlinear_arith);
    lemma_div_is_ordered(q, capacity * (height * width) - 1, capacity);
    lemma_div_multiples_vanish(height * width, capacity);
    assert(cell < height * width) by (nonlinear_arith)
        requires
            cell <= (capacity * (height * width) - 1) / capacity,
            capacity * (height * width) - 1 < capacity * (height * width),
            (capacity * (height * width)) / capacity == height * width,
            capacity > 0,
    {
        vstd::arithmetic::div_mod::lemma_div_is_ordered(
            capacity * (height * width) - 1, capacity * (height * width), capacity);
    }
    assert(0 <= cell) by (nonlinear_arith)
        requires
            q >= 0,
            capacity > 0,
            cell == q / capacity,
    ;
    assert(height * width == width * height) by (nonlinear_arith);
    lemma_div_is_ordered(cell, width * height - 1, width);
    lemma_div_multiples_vanish(height, width);
    assert(cell / width < height) by (nonlinear_arith)
        requires
            cell / width <= (width * height - 1) / width,
            (width * height) / width == height,
            width > 0,
    {
        vstd::arithmetic::div_mod::lemma_div_is_ordered(width * height - 1, width * height, width);
    }
    assert(0 <= cell / width) by (nonlinear_arith)
        requires
            cell >= 0,
            width > 0,
    ;
    assert(q == ((cell / width) * width + cell % width) * capacity + q % capacity) by (nonlinear_arith)
        requires
            q == capacity * cell + q % capacity,
            cell == width * (cell / width) + cell % width,
    ;
}

/// Copies a row of values.
pub fn copy_row(row: &Vec<i64>) -> (r: Vec<i64>)
    ensures
        r@ == row@,
{
    let r = row.clone();
    proof {
        assert(r@ =~= row@);
    }
    r
}

/// Reads each agent's result back from the grid: row `i` of the result is
/// the grid row at flat slot `target_indices[i]`. Agents that share a slot
/// receive the same row.
pub fn grid_to_particles(grid: &GridBuffer, target_indices: &Vec<usize>) -> (r: Result<Vec<Vec<i64>>, GridError>)
    requires
        grid.wf(),
    ensures
        r is Err <==> exists|i: int| 0 <= i < target_indices@.len() && target_indices@[i] >= grid.rows@.len(),
        r is Err ==> r == Err::<Vec<Vec<i64>>, GridError>(GridError::IndexOutOfRange),
        r matches Ok(out) ==> {
            &&& out@.len() == target_indices@.len()
            &&& forall|i: int| 0 <= i < out@.len() ==> (#[trigger] out@[i])@ == grid.rows@[target_indices@[i] as int]@
        },
{
    let n = target_indices.len();
    let mut out: Vec<Vec<i64>> = Vec::new();
    let mut i: usize = 0;
    while i < n
        invariant
            i <= n,
            n == target_indices@.len(),
            out@.len() == i,
            forall|k: int| 0 <= k < i ==> target_indices@[k] < grid.rows@.len(),
            forall|k: int| 0 <= k < i ==> (#[trigger] out@[k])@ == grid.rows@[target_indices@[k] as int]@,
        decreases n - i,
    {
        let q = target_indices[i];
        if q >= grid.rows.len() {
            return Err(GridError::IndexOutOfRange);
        }
        out.push(copy_row(&grid.rows[q]));
        i = i + 1;
    }
    Ok(out)
}

} // verus!
