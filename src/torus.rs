//! Periodic views of a grid: the torus halo and the roll.
//!
//! Both copy every slot of their output from the slot of the input that
//! lies a fixed offset away on the torus: rows and columns wrap around to
//! the opposite edge.
use vstd::prelude::*;
use vstd::arithmetic::div_mod::lemma_small_mod;
use crate::arith::floor_mod;
use crate::buffer::{
    GridBuffer, slot_of, row_of, col_of, lane_of,
    lemma_slot_compose, lemma_slot_decompose, copy_row, lemma_mul_grows,
};
use crate::geometry::GridError;

verus! {

/// Slot of a `height` by `width` grid from which slot `q` of an output grid
/// `width_out` cells wide is copied, when the output is the input moved by
/// `shift_y` rows and `shift_x` columns on the torus.
pub open spec fn torus_source(
    q: int,
    shift_y: int,
    shift_x: int,
    height: int,
    width: int,
    width_out: int,
    capacity: int,
) -> int {
    slot_of(
        (row_of(q, width_out, capacity) - shift_y) % height,
        (col_of(q, width_out, capacity) - shift_x) % width,
        lane_of(q, capacity),
        width,
        capacity,
    )
}

/// Two grids have the same shape and the same rows.
pub open spec fn same_grid(a: GridBuffer, b: GridBuffer) -> bool {
    &&& a.height == b.height
    &&& a.width == b.width
    &&& a.capacity == b.capacity
    &&& a.dims == b.dims
    &&& a.rows@.len() == b.rows@.len()
    &&& forall|q: int| 0 <= q < a.rows@.len() ==> (#[trigger] a.rows@[q])@ == b.rows@[q]@
}

/// Output grid of `height_out` by `width_out` cells whose slots are copied
/// from `grid` as `torus_source` says.
fn torus_copy(grid: &GridBuffer, shift_y: i128, shift_x: i128, height_out: usize, width_out: usize) -> (r: GridBuffer)
    requires
        grid.wf(),
        height_out > 0,
        width_out > 0,
        height_out * width_out * grid.capacity <= usize::MAX,
        -0x1_0000_0000_0000_0000 <= shift_y <= 0x1_0000_0000_0000_0000,
        -0x1_0000_0000_0000_0000 <= shift_x <= 0x1_0000_0000_0000_0000,
    ensures
        r.wf(),
        r.height == height_out,
        r.width == width_out,
        r.capacity == grid.capacity,
        r.dims == grid.dims,
        forall|q: int| 0 <= q < r.rows@.len() ==> (#[trigger] r.rows@[q])@ == grid.rows@[
            torus_source(q, shift_y as int, shift_x as int, grid.height as int, grid.width as int, width_out as int, grid.capacity as int)
        ]@,
{
    let cap = grid.capacity;
    let height = grid.height;
    let width = grid.width;
    proof {
        lemma_mul_grows(height_out * width_out, cap as int);
    }
    let total = height_out * width_out * cap;
    assert(grid.rows.len() == grid.rows@.len());
    let mut rows: Vec<Vec<i64>> = Vec::new();
    let mut q: usize = 0;
    while q < total
        invariant
            grid.wf(),
            grid.rows@.len() <= usize::MAX,
            q <= total,
            total == height_out * width_out * cap,
            cap == grid.capacity,
            height == grid.height,
            width == grid.width,
            width_out > 0,
            -0x1_0000_0000_0000_0000 <= shift_y <= 0x1_0000_0000_0000_0000,
            -0x1_0000_0000_0000_0000 <= shift_x <= 0x1_0000_0000_0000_0000,
            rows@.len() == q,
            forall|p: int| 0 <= p < q ==> (#[trigger] rows@[p])@.len() == grid.dims,
            forall|p: int| 0 <= p < q ==> (#[trigger] rows@[p])@ == grid.rows@[
                torus_source(p, shift_y as int, shift_x as int, height as int, width as int, width_out as int, cap as int)
            ]@,
        decreases total - q,
    {
        proof {
            lemma_slot_decompose(q as int, height_out as int, width_out as int, cap as int);
        }
        let cell = q / cap;
        let y = cell / width_out;
        let x = cell % width_out;
        let c = q % cap;
        let sy = floor_mod(y as i128 - shift_y, height as i128) as usize;
        let sx = floor_mod(x as i128 - shift_x, width as i128) as usize;
        proof {
            lemma_slot_compose(sy as int, sx as int, c as int, height as int, width as int, cap as int);
            assert(sy * width + sx <= grid.rows@.len()) by (nonlinear_arith)
                requires
                    (sy * width + sx) * cap + c < grid.rows@.len(),
                    cap > 0,
                    sy * width + sx >= 0,
            ;
        }
        let src = (sy * width + sx) * cap + c;
        rows.push(copy_row(&grid.rows[src]));
        q = q + 1;
    }
    let r = GridBuffer { height: height_out, width: width_out, capacity: cap, dims: grid.dims, rows };
    r
}

/// Builds the torus halo of `grid`: a grid `pad` cells larger on every
/// side, in which cell `(y, x)` holds the cell `(y - pad, x - pad)` of
/// `grid`, wrapped onto the torus. Cells `(pad + y, pad + x)` reproduce the
/// grid itself; the border repeats the opposite edge.
///
/// Fails with `GridTooLarge` when the padded grid's slots cannot be
/// counted in `usize`.
pub fn create_torus_padded_grid(grid: &GridBuffer, pad: usize) -> (r: Result<GridBuffer, GridError>)
    requires
        grid.wf(),
    ensures
        r is Err <==> (grid.height + 2 * pad) * (grid.width + 2 * pad) * grid.capacity > usize::MAX,
        r is Err ==> r == Err::<GridBuffer, GridError>(GridError::GridTooLarge),
        r matches Ok(p) ==> {
            &&& p.wf()
            &&& p.height == grid.height + 2 * pad
            &&& p.width == grid.width + 2 * pad
            &&& p.capacity == grid.capacity
            &&& p.dims == grid.dims
            &&& forall|q: int| 0 <= q < p.rows@.len() ==> (#[trigger] p.rows@[q])@ == grid.rows@[
                torus_source(q, pad as int, pad as int, grid.height as int, grid.width as int, p.width as int, grid.capacity as int)
            ]@
            &&& forall|y: int, x: int, c: int| 0 <= y < grid.height && 0 <= x < grid.width && 0 <= c < grid.capacity ==>
                (#[trigger] p.rows@[slot_of(pad + y, pad + x, c, p.width as int, p.capacity as int)])@
                    == grid.rows@[slot_of(y, x, c, grid.width as int, grid.capacity as int)]@
            &&& pad == 0 ==> same_grid(p, *grid)
        },
{
    let h2 = match pad.checked_mul(2) {
        Some(t) => match grid.height.checked_add(t) {
            Some(v) => v,
            None => {
                proof { too_large(grid, pad); }
                return Err(GridError::GridTooLarge);
            },
        },
        None => {
            proof { too_large(grid, pad); }
            return Err(GridError::GridTooLarge);
        },
    };
    let w2 = match grid.width.checked_add(2 * pad) {
        Some(v) => v,
        None => {
            proof { too_large(grid, pad); }
            return Err(GridError::GridTooLarge);
        },
    };
    let hw = match h2.checked_mul(w2) {
        Some(v) => v,
        None => {
            proof { lemma_mul_grows(h2 * w2, grid.capacity as int); }
            return Err(GridError::GridTooLarge);
        },
    };
    if hw.checked_mul(grid.capacity).is_none() {
        return Err(GridError::GridTooLarge);
    }
    let p = torus_copy(grid, pad as i128, pad as i128, h2, w2);
    proof {
        assert forall|y: int, x: int, c: int| 0 <= y < grid.height && 0 <= x < grid.width && 0 <= c < grid.capacity implies
            (#[trigger] p.rows@[slot_of(pad + y, pad + x, c, p.width as int, p.capacity as int)])@
                == grid.rows@[slot_of(y, x, c, grid.width as int, grid.capacity as int)]@ by {
            lemma_slot_compose(pad + y, pad + x, c, h2 as int, w2 as int, grid.capacity as int);
            lemma_small_mod(y as nat, grid.height as nat);
            lemma_small_mod(x as nat, grid.width as nat);
        }
        if pad == 0 {
            assert forall|q: int| 0 <= q < p.rows@.len() implies (#[trigger] p.rows@[q])@ == grid.rows@[q]@ by {
                lemma_slot_decompose(q, grid.height as int, grid.width as int, grid.capacity as int);
                lemma_small_mod(row_of(q, grid.width as int, grid.capacity as int) as nat, grid.height as nat);
                lemma_small_mod(col_of(q, grid.width as int, grid.capacity as int) as nat, grid.width as nat);
            }
        }
    }
    Ok(p)
}

/// A padded extent that overflows `usize` makes the slot count overflow.
proof fn too_large(grid: &GridBuffer, pad: usize)
    requires
        grid.wf(),
        grid.height + 2 * pad > usize::MAX || grid.width + 2 * pad > usize::MAX,
    ensures
        (grid.height + 2 * pad) * (grid.width + 2 * pad) * grid.capacity > usize::MAX,
{
    let a = grid.height + 2 * pad;
    let b = grid.width + 2 * pad;
    let c = grid.capacity as int;
    assert(a * b * c >= a && a * b * c >= b) by (nonlinear_arith)
        requires
            a >= 1,
            b >= 1,
            c >= 1,
    ;
}

/// Rolls the grid on the torus by `dx` columns and `dy` rows: cell
/// `(y, x)` of the result holds cell `(y - dy, x - dx)` of `grid`, wrapped.
pub fn shift_grid(grid: &GridBuffer, dx: i32, dy: i32) -> (r: GridBuffer)
    requires
        grid.wf(),
    ensures
        r.wf(),
        r.height == grid.height,
        r.width == grid.width,
        r.capacity == grid.capacity,
        r.dims == grid.dims,
        forall|q: int| 0 <= q < r.rows@.len() ==> (#[trigger] r.rows@[q])@ == grid.rows@[
            torus_source(q, dy as int, dx as int, grid.height as int, grid.width as int, grid.width as int, grid.capacity as int)
        ]@,
{
    proof {
        assert(grid.rows.len() == grid.rows@.len());
    }
    torus_copy(grid, dy as i128, dx as i128, grid.height, grid.width)
}

} // verus!
