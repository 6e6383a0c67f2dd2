//! The neighbour stencil: softened inverse-square forces accumulated over a
//! Chebyshev neighbourhood of cells on the torus.
//!
//! For every slot of the grid (the centre) and every cell offset
//! `(dx, dy)` with `-r <= dx, dy <= r`, every slot of the neighbour cell
//! adds `mass * delta / (|delta|^2 + SOFTENING)` along each axis, where
//! `delta` runs from the centre to the neighbour. No slot is left out:
//! empty slots carry zero mass and so add nothing, and the centre's own
//! term has `delta = 0`. On grids no wider than `2r + 1` a neighbour cell
//! can be reached through more than one offset and then counts once per
//! offset.
use vstd::prelude::*;
use crate::arith::{floor_div, lemma_div_between};
use crate::buffer::{GridBuffer, slot_of, row_of, col_of, lemma_slot_compose, lemma_slot_decompose};
use crate::geometry::{FIXED_ONE, GridError};
use crate::torus::create_torus_padded_grid;

verus! {

/// Channel of the x coordinate.
pub const POS_X: usize = 0;
/// Channel of the y coordinate.
pub const POS_Y: usize = 1;
/// Channel that receives the force along x.
pub const VEL_X: usize = 2;
/// Channel that receives the force along y.
pub const VEL_Y: usize = 3;
/// Channel of the mass.
pub const MASS: usize = 4;
/// Number of channels that the force law reads or writes.
pub const FORCE_CHANNELS: usize = 5;

/// Softening added to every squared distance, in squared fixed-point units
/// (0.01 in real units).
pub const SOFTENING: i64 = 42949673;
/// Largest magnitude of a position or a mass that the force law accepts.
pub const VALUE_LIMIT: i64 = 1073741824;
/// Largest magnitude of one pair term: `VALUE_LIMIT * FIXED_ONE`.
pub const TERM_LIMIT: i64 = 70368744177664;
/// Largest number of pair terms summed into one slot:
/// `(2r + 1)^2 * capacity`.
pub const MAX_PAIR_TERMS: u64 = 65536;

/// Force along x (or along y when `along_y`) that the `neighbor` row exerts
/// on the `center` row, in fixed-point units, rounded down.
pub open spec fn pair_term(center: Seq<i64>, neighbor: Seq<i64>, along_y: bool) -> int {
    let dx = neighbor[POS_X as int] - center[POS_X as int];
    let dy = neighbor[POS_Y as int] - center[POS_Y as int];
    let d2 = dx * dx + dy * dy + SOFTENING;
    let delta = if along_y { dy } else { dx };
    (neighbor[MASS as int] * delta * FIXED_ONE) / d2
}

/// The positions and mass of a row lie within `VALUE_LIMIT`.
pub open spec fn row_in_range(row: Seq<i64>) -> bool {
    &&& -VALUE_LIMIT <= row[POS_X as int] <= VALUE_LIMIT
    &&& -VALUE_LIMIT <= row[POS_Y as int] <= VALUE_LIMIT
    &&& -VALUE_LIMIT <= row[MASS as int] <= VALUE_LIMIT
}

proof fn lemma_pair_bound(m: int, delta: int, other: int)
    requires
        -VALUE_LIMIT <= m <= VALUE_LIMIT,
        -2 * VALUE_LIMIT <= delta <= 2 * VALUE_LIMIT,
        -2 * VALUE_LIMIT <= other <= 2 * VALUE_LIMIT,
    ensures
        -TERM_LIMIT <= (m * delta * FIXED_ONE) / (delta * delta + other * other + SOFTENING) <= TERM_LIMIT,
        -0x8_0000_0000_0000_0000_0000int <= m * delta * FIXED_ONE <= 0x8_0000_0000_0000_0000_0000int,
        0 < delta * delta + other * other + SOFTENING <= 0x8_0000_0000_0000_0000int,
        0 <= delta * delta <= 0x1_0000_0000_0000_0000int,
        0 <= other * other <= 0x1_0000_0000_0000_0000int,
        -(VALUE_LIMIT * 0x8000_0000) <= m * delta <= VALUE_LIMIT * 0x8000_0000,
{
    let d2 = delta * delta + other * other + SOFTENING;
    assert(0 <= other * other) by (nonlinear_arith);
    assert(0 <= delta * delta) by (nonlinear_arith);
    assert(delta <= delta * delta + 1 && -delta <= delta * delta + 1) by (nonlinear_arith);
    assert(delta * delta <= 0x1_0000_0000_0000_0000int) by (nonlinear_arith)
        requires
            -2 * VALUE_LIMIT <= delta <= 2 * VALUE_LIMIT,
    ;
    assert(other * other <= 0x1_0000_0000_0000_0000int) by (nonlinear_arith)
        requires
            -2 * VALUE_LIMIT <= other <= 2 * VALUE_LIMIT,
    ;
    assert(-(VALUE_LIMIT * d2) <= m * delta <= VALUE_LIMIT * d2) by (nonlinear_arith)
        requires
            -VALUE_LIMIT <= m <= VALUE_LIMIT,
            -d2 <= delta <= d2,
    ;
    assert(-(VALUE_LIMIT * 0x8000_0000) <= m * delta <= VALUE_LIMIT * 0x8000_0000) by (nonlinear_arith)
        requires
            -VALUE_LIMIT <= m <= VALUE_LIMIT,
            -2 * VALUE_LIMIT <= delta <= 2 * VALUE_LIMIT,
    ;
    let num = m * delta * FIXED_ONE;
    assert(d2 * (-TERM_LIMIT) <= num <= d2 * TERM_LIMIT) by (nonlinear_arith)
        requires
            -(VALUE_LIMIT * d2) <= m * delta <= VALUE_LIMIT * d2,
            num == m * delta * FIXED_ONE,
            d2 > 0,
    ;
    lemma_div_between(num, d2, -TERM_LIMIT as int, TERM_LIMIT as int);
}

/// Force along x and along y that `neighbor` exerts on `center`.
fn pair_force(center: &Vec<i64>, neighbor: &Vec<i64>) -> (r: (i128, i128))
    requires
        center@.len() >= FORCE_CHANNELS,
        neighbor@.len() >= FORCE_CHANNELS,
        row_in_range(center@),
        row_in_range(neighbor@),
    ensures
        r.0 == pair_term(center@, neighbor@, false),
        r.1 == pair_term(center@, neighbor@, true),
        -TERM_LIMIT <= r.0 <= TERM_LIMIT,
        -TERM_LIMIT <= r.1 <= TERM_LIMIT,
{
    let dx = neighbor[POS_X] as i128 - center[POS_X] as i128;
    let dy = neighbor[POS_Y] as i128 - center[POS_Y] as i128;
    let m = neighbor[MASS] as i128;
    proof {
        lemma_pair_bound(m as int, dx as int, dy as int);
        lemma_pair_bound(m as int, dy as int, dx as int);
        assert(dy * dy + dx * dx == dx * dx + dy * dy);
    }
    let d2 = dx * dx + dy * dy + SOFTENING as i128;
    let fx = floor_div(m * dx * FIXED_ONE as i128, d2);
    let fy = floor_div(m * dy * FIXED_ONE as i128, d2);
    (fx, fy)
}

/// Flat slot of lane `j` of the neighbour cell that offset number `o`
/// reaches from the cell of slot `q`, for radius `r`. Offsets are numbered
/// row by row: offset `o` is `(dx, dy) = (o % (2r + 1) - r, o / (2r + 1) - r)`.
pub open spec fn neighbor_slot(g: GridBuffer, r: int, q: int, o: int, j: int) -> int {
    let side = 2 * r + 1;
    let w = g.width as int;
    let c = g.capacity as int;
    slot_of(
        (row_of(q, w, c) + o / side - r) % (g.height as int),
        (col_of(q, w, c) + o % side - r) % w,
        j,
        w,
        c,
    )
}

/// Force on slot `q` from the first `k` slots of the neighbour cell at
/// offset number `o`.
pub open spec fn cell_force(g: GridBuffer, r: int, q: int, o: int, k: nat, along_y: bool) -> int
    decreases k,
{
    if k == 0 {
        0
    } else {
        cell_force(g, r, q, o, (k - 1) as nat, along_y)
            + pair_term(g.rows@[q]@, g.rows@[neighbor_slot(g, r, q, o, k - 1)]@, along_y)
    }
}

/// Force on slot `q` from all slots of the neighbour cells at the first `n`
/// offsets.
pub open spec fn stencil_force(g: GridBuffer, r: int, q: int, n: nat, along_y: bool) -> int
    decreases n,
{
    if n == 0 {
        0
    } else {
        stencil_force(g, r, q, (n - 1) as nat, along_y) + cell_force(g, r, q, n - 1, g.capacity as nat, along_y)
    }
}

/// Channel `d` of slot `q` in the stencil's result: the accumulated force
/// in `VEL_X` and `VEL_Y`, zero in every other channel.
pub open spec fn stencil_value(g: GridBuffer, r: int, q: int, d: int) -> int {
    let n = ((2 * r + 1) * (2 * r + 1)) as nat;
    if d == VEL_X {
        stencil_force(g, r, q, n, false)
    } else if d == VEL_Y {
        stencil_force(g, r, q, n, true)
    } else {
        0
    }
}

/// Every slot's positions and mass lie within `VALUE_LIMIT`.
pub open spec fn grid_in_range(g: GridBuffer) -> bool {
    forall|q: int| 0 <= q < g.rows@.len() ==> row_in_range(#[trigger] g.rows@[q]@)
}

/// The error that the stencil reports for radius `r`, if any, checked in
/// this order.
pub open spec fn stencil_error(g: GridBuffer, r: int) -> Option<GridError> {
    if r < 0 {
        Some(GridError::NegativeRadius)
    } else if g.dims < FORCE_CHANNELS {
        Some(GridError::MissingChannels)
    } else if (2 * r + 1) * (2 * r + 1) * g.capacity > MAX_PAIR_TERMS {
        Some(GridError::StencilTooLarge)
    } else if !grid_in_range(g) {
        Some(GridError::ValueOutOfRange)
    } else if (g.height + 2 * r) * (g.width + 2 * r) * g.capacity > usize::MAX {
        Some(GridError::GridTooLarge)
    } else {
        None
    }
}

/// Tells whether every slot's positions and mass lie within `VALUE_LIMIT`.
fn check_in_range(grid: &GridBuffer) -> (r: bool)
    requires
        grid.wf(),
        grid.dims >= FORCE_CHANNELS,
    ensures
        r == grid_in_range(*grid),
{
    let n = grid.rows.len();
    let mut q: usize = 0;
    while q < n
        invariant
            grid.wf(),
            grid.dims >= FORCE_CHANNELS,
            n == grid.rows@.len(),
            q <= n,
            forall|p: int| 0 <= p < q ==> row_in_range(#[trigger] grid.rows@[p]@),
        decreases n - q,
    {
        let row = &grid.rows[q];
        let (x, y, m) = (row[POS_X], row[POS_Y], row[MASS]);
        if x < -VALUE_LIMIT || x > VALUE_LIMIT || y < -VALUE_LIMIT || y > VALUE_LIMIT || m < -VALUE_LIMIT || m > VALUE_LIMIT {
            assert(!row_in_range(grid.rows@[q as int]@));
            return false;
        }
        q = q + 1;
    }
    true
}

/// A neighbour slot lies inside the grid.
proof fn lemma_neighbor_in_grid(g: GridBuffer, r: int, q: int, o: int, j: int)
    requires
        g.wf(),
        r >= 0,
        0 <= j < g.capacity,
    ensures
        0 <= neighbor_slot(g, r, q, o, j) < g.rows@.len(),
{
    let w = g.width as int;
    let c = g.capacity as int;
    let h = g.height as int;
    lemma_slot_compose(
        (row_of(q, w, c) + o / (2 * r + 1) - r) % h,
        (col_of(q, w, c) + o % (2 * r + 1) - r) % w,
        j, h, w, c);
}

proof fn lemma_cell_force_bound(g: GridBuffer, r: int, q: int, o: int, k: nat, along_y: bool)
    requires
        g.wf(),
        g.dims >= FORCE_CHANNELS,
        grid_in_range(g),
        r >= 0,
        0 <= q < g.rows@.len(),
        k <= g.capacity,
    ensures
        -(k * TERM_LIMIT) <= cell_force(g, r, q, o, k, along_y) <= k * TERM_LIMIT,
    decreases k,
{
    if k > 0 {
        lemma_cell_force_bound(g, r, q, o, (k - 1) as nat, along_y);
        let ns = neighbor_slot(g, r, q, o, k - 1);
        lemma_neighbor_in_grid(g, r, q, o, k - 1);
        let center = g.rows@[q]@;
        let neighbor = g.rows@[ns]@;
        assert(row_in_range(center));
        assert(row_in_range(neighbor));
        let dx = neighbor[POS_X as int] - center[POS_X as int];
        let dy = neighbor[POS_Y as int] - center[POS_Y as int];
        lemma_pair_bound(neighbor[MASS as int] as int, dx, dy);
        lemma_pair_bound(neighbor[MASS as int] as int, dy, dx);
        assert(dy * dy + dx * dx == dx * dx + dy * dy);
    }
}

proof fn lemma_stencil_force_bound(g: GridBuffer, r: int, q: int, n: nat, along_y: bool)
    requires
        g.wf(),
        g.dims >= FORCE_CHANNELS,
        grid_in_range(g),
        r >= 0,
        0 <= q < g.rows@.len(),
    ensures
        -(n * (g.capacity * TERM_LIMIT)) <= stencil_force(g, r, q, n, along_y) <= n * (g.capacity * TERM_LIMIT),
    decreases n,
{
    if n > 0 {
        lemma_stencil_force_bound(g, r, q, (n - 1) as nat, along_y);
        lemma_cell_force_bound(g, r, q, n - 1, g.capacity as nat, along_y);
        let ct = g.capacity * TERM_LIMIT;
        assert((n - 1) * ct + ct == n * ct) by (nonlinear_arith);
    }
}

/// `padded` is the torus halo of `grid` with a border of `r` cells.
pub open spec fn is_halo_of(padded: GridBuffer, grid: GridBuffer, r: int) -> bool {
    &&& padded.wf()
    &&& padded.height == grid.height + 2 * r
    &&& padded.width == grid.width + 2 * r
    &&& padded.capacity == grid.capacity
    &&& padded.dims == grid.dims
    &&& forall|p: int| 0 <= p < padded.rows@.len() ==> (#[trigger] padded.rows@[p])@ == grid.rows@[
        crate::torus::torus_source(p, r, r, grid.height as int, grid.width as int, padded.width as int, grid.capacity as int)
    ]@
}

/// Force along x and along y on slot `q`, reading neighbours through the
/// halo.
fn slot_force(grid: &GridBuffer, padded: &GridBuffer, r: usize, side: usize, q: usize) -> (f: (i64, i64))
    requires
        grid.wf(),
        grid.dims >= FORCE_CHANNELS,
        grid_in_range(*grid),
        is_halo_of(*padded, *grid, r as int),
        side == 2 * r + 1,
        side * side * grid.capacity <= MAX_PAIR_TERMS,
        q < grid.rows@.len(),
    ensures
        f.0 == stencil_force(*grid, r as int, q as int, (side * side) as nat, false),
        f.1 == stencil_force(*grid, r as int, q as int, (side * side) as nat, true),
{
    let ghost g = *grid;
    let cap = grid.capacity;
    let width = grid.width;
    let w2 = padded.width;
    proof {
        lemma_slot_decompose(q as int, grid.height as int, width as int, cap as int);
        assert(padded.rows.len() == padded.rows@.len());
        assert(side * side <= side * side * cap) by (nonlinear_arith)
            requires
                cap >= 1,
        ;
    }
    let side2 = side * side;
    let cell = q / cap;
    let y = cell / width;
    let x = cell % width;
    let center = &grid.rows[q];
    let mut fx: i128 = 0;
    let mut fy: i128 = 0;
    let mut o: usize = 0;
    while o < side2
        invariant
            g == *grid,
            grid.wf(),
            grid.dims >= FORCE_CHANNELS,
            grid_in_range(g),
            is_halo_of(*padded, g, r as int),
            padded.rows@.len() <= usize::MAX,
            side == 2 * r + 1,
            side2 == side * side,
            side2 * cap <= MAX_PAIR_TERMS,
            cap == grid.capacity,
            width == grid.width,
            w2 == padded.width,
            q < grid.rows@.len(),
            y == row_of(q as int, width as int, cap as int),
            x == col_of(q as int, width as int, cap as int),
            y < grid.height,
            x < width,
            center@ == grid.rows@[q as int]@,
            o <= side2,
            fx == stencil_force(g, r as int, q as int, o as nat, false),
            fy == stencil_force(g, r as int, q as int, o as nat, true),
        decreases side2 - o,
    {
        proof {
            assert(o / side < side && o % side < side) by (nonlinear_arith)
                requires
                    o < side * side,
                    side > 0,
            {
                vstd::arithmetic::div_mod::lemma_div_is_ordered(o as int, side * side - 1, side as int);
                vstd::arithmetic::div_mod::lemma_div_multiples_vanish(side as int - 1, side as int);
                assert(side * side - 1 == side * (side - 1) + (side - 1)) by (nonlinear_arith);
                vstd::arithmetic::div_mod::lemma_div_multiples_vanish_fancy(side as int - 1, side as int - 1, side as int);
            }
            assert(o * cap + cap <= side2 * cap) by (nonlinear_arith)
                requires
                    o < side2,
                    cap >= 0,
            ;
        }
        let py = y + o / side;
        let px = x + o % side;
        let ghost fx0 = fx;
        let ghost fy0 = fy;
        let mut j: usize = 0;
        while j < cap
            invariant
                g == *grid,
                grid.wf(),
                grid.dims >= FORCE_CHANNELS,
                grid_in_range(g),
                is_halo_of(*padded, g, r as int),
                padded.rows@.len() <= usize::MAX,
                side == 2 * r + 1,
                side2 == side * side,
                o < side2,
                o * cap + cap <= MAX_PAIR_TERMS,
                cap == grid.capacity,
                width == grid.width,
                w2 == padded.width,
                q < grid.rows@.len(),
                y == row_of(q as int, width as int, cap as int),
                x == col_of(q as int, width as int, cap as int),
                py == y + o / side,
                px == x + o % side,
                py < padded.height,
                px < w2,
                center@ == grid.rows@[q as int]@,
                j <= cap,
                fx0 == stencil_force(g, r as int, q as int, o as nat, false),
                fy0 == stencil_force(g, r as int, q as int, o as nat, true),
                fx == fx0 + cell_force(g, r as int, q as int, o as int, j as nat, false),
                fy == fy0 + cell_force(g, r as int, q as int, o as int, j as nat, true),
            decreases cap - j,
        {
            proof {
                lemma_slot_compose(py as int, px as int, j as int, padded.height as int, w2 as int, cap as int);
                assert(py * w2 + px <= padded.rows@.len()) by (nonlinear_arith)
                    requires
                        (py * w2 + px) * cap + j < padded.rows@.len(),
                        cap > 0,
                        py * w2 + px >= 0,
                ;
                lemma_neighbor_in_grid(g, r as int, q as int, o as int, j as int);
                lemma_stencil_force_bound(g, r as int, q as int, o as nat, false);
                lemma_stencil_force_bound(g, r as int, q as int, o as nat, true);
                lemma_cell_force_bound(g, r as int, q as int, o as int, j as nat, false);
                lemma_cell_force_bound(g, r as int, q as int, o as int, j as nat, true);
                let ct = cap * TERM_LIMIT;
                assert(o * ct <= MAX_PAIR_TERMS * TERM_LIMIT && j * TERM_LIMIT <= MAX_PAIR_TERMS * TERM_LIMIT) by (nonlinear_arith)
                    requires
                        o * cap + cap <= MAX_PAIR_TERMS,
                        j <= cap,
                        ct == cap * TERM_LIMIT,
                        o >= 0,
                ;
            }
            let ns = (py * w2 + px) * cap + j;
            let neighbor = &padded.rows[ns];
            assert(neighbor@ == grid.rows@[neighbor_slot(g, r as int, q as int, o as int, j as int)]@);
            let (tx, ty) = pair_force(center, neighbor);
            fx = fx + tx;
            fy = fy + ty;
            j = j + 1;
        }
        o = o + 1;
    }
    proof {
        lemma_stencil_force_bound(g, r as int, q as int, side2 as nat, false);
        lemma_stencil_force_bound(g, r as int, q as int, side2 as nat, true);
        assert(side2 * (cap * TERM_LIMIT) <= MAX_PAIR_TERMS * TERM_LIMIT) by (nonlinear_arith)
            requires
                side2 * cap <= MAX_PAIR_TERMS,
                side2 >= 0,
                cap >= 0,
        ;
    }
    (fx as i64, fy as i64)
}

/// Accumulates the softened inverse-square force on every slot from the
/// slots of all cells within Chebyshev distance `range` on the torus.
///
/// The result has the shape of `grid`; it holds the force along x in
/// `VEL_X`, the force along y in `VEL_Y`, and zero in every other channel.
pub fn solve_gravity_stencil(grid: &GridBuffer, range: i32) -> (res: Result<GridBuffer, GridError>)
    requires
        grid.wf(),
    ensures
        stencil_error(*grid, range as int) matches Some(e) ==> res == Err::<GridBuffer, GridError>(e),
        stencil_error(*grid, range as int) is None ==> (res matches Ok(out) && {
            &&& out.wf()
            &&& out.height == grid.height
            &&& out.width == grid.width
            &&& out.capacity == grid.capacity
            &&& out.dims == grid.dims
            &&& forall|q: int, d: int| 0 <= q < out.rows@.len() && 0 <= d < out.dims ==>
                #[trigger] out.value(q, d) == stencil_value(*grid, range as int, q, d)
        }),
{
    if range < 0 {
        return Err(GridError::NegativeRadius);
    }
    if grid.dims < FORCE_CHANNELS {
        return Err(GridError::MissingChannels);
    }
    let side_wide: u128 = 2 * (range as u128) + 1;
    assert(1 <= side_wide * side_wide <= 0x1_0000_0000_0000_0000int) by (nonlinear_arith)
        requires
            1 <= side_wide <= 0x1_0000_0000,
    ;
    let terms: u128 = side_wide * side_wide;
    if terms > MAX_PAIR_TERMS as u128 {
        proof {
            assert(terms * grid.capacity >= terms) by (nonlinear_arith)
                requires
                    grid.capacity >= 1,
                    terms >= 0,
            ;
        }
        return Err(GridError::StencilTooLarge);
    }
    if grid.capacity > MAX_PAIR_TERMS as usize {
        proof {
            assert(terms * grid.capacity >= grid.capacity) by (nonlinear_arith)
                requires
                    terms >= 1,
                    grid.capacity >= 0,
            ;
        }
        return Err(GridError::StencilTooLarge);
    }
    assert(terms * grid.capacity <= 0x1_0000_0000int) by (nonlinear_arith)
        requires
            terms <= 65536,
            grid.capacity <= 65536,
    ;
    if terms * (grid.capacity as u128) > MAX_PAIR_TERMS as u128 {
        return Err(GridError::StencilTooLarge);
    }
    if !check_in_range(grid) {
        return Err(GridError::ValueOutOfRange);
    }
    proof {
        assert(range <= 127) by (nonlinear_arith)
            requires
                (2 * range + 1) * (2 * range + 1) <= 65536,
                range >= 0,
        ;
    }
    let r = range as usize;
    let side = 2 * r + 1;
    let padded = match create_torus_padded_grid(grid, r) {
        Ok(p) => p,
        Err(_) => return Err(GridError::GridTooLarge),
    };
    let n = grid.rows.len();
    let dims = grid.dims;
    let mut rows: Vec<Vec<i64>> = Vec::new();
    let mut q: usize = 0;
    while q < n
        invariant
            grid.wf(),
            grid.dims >= FORCE_CHANNELS,
            grid_in_range(*grid),
            is_halo_of(padded, *grid, r as int),
            r == range,
            side == 2 * r + 1,
            side * side * grid.capacity <= MAX_PAIR_TERMS,
            n == grid.rows@.len(),
            dims == grid.dims,
            q <= n,
            rows@.len() == q,
            forall|p: int| 0 <= p < q ==> (#[trigger] rows@[p])@.len() == dims,
            forall|p: int, d: int| 0 <= p < q && 0 <= d < dims ==>
                #[trigger] rows@[p]@[d] == stencil_value(*grid, range as int, p, d),
        decreases n - q,
    {
        let (fx, fy) = slot_force(grid, &padded, r, side, q);
        let mut row: Vec<i64> = Vec::new();
        let mut d: usize = 0;
        while d < dims
            invariant
                d <= dims,
                row@.len() == d,
                fx == stencil_force(*grid, r as int, q as int, (side * side) as nat, false),
                fy == stencil_force(*grid, r as int, q as int, (side * side) as nat, true),
                side == 2 * r + 1,
                r == range,
                forall|e: int| 0 <= e < d ==> #[trigger] row@[e] == stencil_value(*grid, range as int, q as int, e),
            decreases dims - d,
        {
            let v = if d == VEL_X {
                fx
            } else if d == VEL_Y {
                fy
            } else {
                0
            };
            row.push(v);
            d = d + 1;
        }
        rows.push(row);
        q = q + 1;
    }
    Ok(GridBuffer { height: grid.height, width: grid.width, capacity: grid.capacity, dims, rows })
}

/// With radius zero the stencil combines each cell with itself only: its
/// single offset reaches the slots of the centre's own cell, and the force
/// on a slot is the sum over the slots of that cell.
pub proof fn lemma_zero_radius(g: GridBuffer, q: int)
    requires
        g.wf(),
        0 <= q < g.rows@.len(),
    ensures
        forall|j: int| 0 <= j < g.capacity ==>
            #[trigger] neighbor_slot(g, 0, q, 0, j)
                == slot_of(row_of(q, g.width as int, g.capacity as int), col_of(q, g.width as int, g.capacity as int), j, g.width as int, g.capacity as int),
        stencil_value(g, 0, q, VEL_X as int) == cell_force(g, 0, q, 0, g.capacity as nat, false),
        stencil_value(g, 0, q, VEL_Y as int) == cell_force(g, 0, q, 0, g.capacity as nat, true),
{
    let w = g.width as int;
    let c = g.capacity as int;
    lemma_slot_decompose(q, g.height as int, w, c);
    vstd::arithmetic::div_mod::lemma_small_mod(row_of(q, w, c) as nat, g.height as nat);
    vstd::arithmetic::div_mod::lemma_small_mod(col_of(q, w, c) as nat, g.width as nat);
    assert(0int / 1 == 0 && 0int % 1 == 0);
    assert((2 * 0int + 1) * (2 * 0int + 1) == 1) by (nonlinear_arith);
    assert(stencil_force(g, 0, q, 0, false) == 0);
    assert(stencil_force(g, 0, q, 0, true) == 0);
    assert(stencil_force(g, 0, q, 1, false) == cell_force(g, 0, q, 0, g.capacity as nat, false));
    assert(stencil_force(g, 0, q, 1, true) == cell_force(g, 0, q, 0, g.capacity as nat, true));
}

} // verus!
