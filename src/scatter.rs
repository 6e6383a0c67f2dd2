//! Scatter: binning agents into the slots of a fixed-capacity grid.
//!
//! Agent `i` goes to the cell under its position and to lane
//! `i % capacity` of that cell. Agents that land on the same slot are
//! averaged: the slot holds the floor of the mean of their state rows, and
//! the occupancy mask marks the slot with `1`, however many agents share it.
use vstd::prelude::*;
use crate::arith::{floor_div, lemma_div_between};
use crate::buffer::{GridBuffer, slot_of, lemma_slot_compose};
use crate::geometry::{GridError, SpatialGrid, cell_coord, wrap_coordinate};

verus! {

/// Flat slot of agent `i`: the cell under `(px[i], py[i])` on the torus,
/// and lane `i % capacity` inside it.
pub open spec fn agent_slot(config: SpatialGrid, px: Seq<i64>, py: Seq<i64>, i: int) -> int {
    let gx = cell_coord(px[i] as int, config.cell_size.0 as int, config.width as int);
    let gy = cell_coord(py[i] as int, config.cell_size.1 as int, config.height as int);
    slot_of(gy, gx, i % (config.capacity as int), config.width as int, config.capacity as int)
}

/// Number of the first `n` agents that go to slot `q`.
pub open spec fn occupants(config: SpatialGrid, px: Seq<i64>, py: Seq<i64>, q: int, n: nat) -> nat
    decreases n,
{
    if n == 0 {
        0
    } else {
        occupants(config, px, py, q, (n - 1) as nat) + if agent_slot(config, px, py, n - 1) == q {
            1nat
        } else {
            0nat
        }
    }
}

/// Sum of channel `d` over the first `n` agents that go to slot `q`.
pub open spec fn slot_total(
    config: SpatialGrid,
    px: Seq<i64>,
    py: Seq<i64>,
    state: Seq<Vec<i64>>,
    q: int,
    d: int,
    n: nat,
) -> int
    decreases n,
{
    if n == 0 {
        0
    } else {
        slot_total(config, px, py, state, q, d, (n - 1) as nat) + if agent_slot(config, px, py, n - 1) == q {
            state[n - 1]@[d] as int
        } else {
            0
        }
    }
}

/// Value of channel `d` at slot `q` after scattering all agents: the sum of
/// the agents there divided by their number (at least one), rounded down.
pub open spec fn slot_mean(config: SpatialGrid, px: Seq<i64>, py: Seq<i64>, state: Seq<Vec<i64>>, q: int, d: int) -> int {
    let c = occupants(config, px, py, q, state.len());
    slot_total(config, px, py, state, q, d, state.len()) / (if c == 0 { 1 } else { c as int })
}

/// Occupancy of slot `q` after scattering all agents: `1` when at least one
/// agent is there, `0` when none is.
pub open spec fn slot_mask(config: SpatialGrid, px: Seq<i64>, py: Seq<i64>, n: nat, q: int) -> u8 {
    if occupants(config, px, py, q, n) > 0 { 1 } else { 0 }
}

/// The error that scattering reports for these inputs, if any, checked in
/// this order: the geometry, the agent counts, the width of each state row.
pub open spec fn scatter_error(
    config: SpatialGrid,
    px: Seq<i64>,
    py: Seq<i64>,
    state: Seq<Vec<i64>>,
    state_dims: nat,
) -> Option<GridError> {
    if !config.valid() {
        Some(GridError::InvalidConfig)
    } else if px.len() != state.len() || py.len() != state.len() {
        Some(GridError::AgentCountMismatch)
    } else if exists|i: int| 0 <= i < state.len() && (#[trigger] state[i])@.len() != state_dims {
        Some(GridError::StateDimsMismatch)
    } else {
        None
    }
}

proof fn lemma_occupants_bound(config: SpatialGrid, px: Seq<i64>, py: Seq<i64>, q: int, n: nat)
    ensures
        occupants(config, px, py, q, n) <= n,
    decreases n,
{
    if n > 0 {
        lemma_occupants_bound(config, px, py, q, (n - 1) as nat);
    }
}

proof fn lemma_total_bounds(config: SpatialGrid, px: Seq<i64>, py: Seq<i64>, state: Seq<Vec<i64>>, q: int, d: int, n: nat)
    ensures
        occupants(config, px, py, q, n) * (i64::MIN as int) <= slot_total(config, px, py, state, q, d, n),
        slot_total(config, px, py, state, q, d, n) <= occupants(config, px, py, q, n) * (i64::MAX as int),
        occupants(config, px, py, q, n) == 0 ==> slot_total(config, px, py, state, q, d, n) == 0,
    decreases n,
{
    if n > 0 {
        lemma_total_bounds(config, px, py, state, q, d, (n - 1) as nat);
    }
}

/// Bins agents into a grid.
///
/// Returns the grid of averaged state rows, the occupancy mask (one value
/// per slot, `1` for an occupied slot and `0` for an empty one), and the
/// flat slot of each agent, which `grid_to_particles` takes to bring
/// results back to agent order.
pub fn particles_to_grid(
    pos_x: &Vec<i64>,
    pos_y: &Vec<i64>,
    state: &Vec<Vec<i64>>,
    state_dims: usize,
    config: &SpatialGrid,
) -> (r: Result<(GridBuffer, Vec<u8>, Vec<usize>), GridError>)
    ensures
        scatter_error(*config, pos_x@, pos_y@, state@, state_dims as nat) matches Some(e) ==> r == Err::<(GridBuffer, Vec<u8>, Vec<usize>), GridError>(e),
        scatter_error(*config, pos_x@, pos_y@, state@, state_dims as nat) is None ==> (r matches Ok((grid, mask, slots)) && {
            &&& grid.wf()
            &&& grid.height == config.height
            &&& grid.width == config.width
            &&& grid.capacity == config.capacity
            &&& grid.dims == state_dims
            &&& slots@.len() == state@.len()
            &&& forall|i: int| 0 <= i < slots@.len() ==> #[trigger] slots@[i] == agent_slot(*config, pos_x@, pos_y@, i)
            &&& mask@.len() == grid.rows@.len()
            &&& forall|q: int| 0 <= q < mask@.len() ==> #[trigger] mask@[q] == slot_mask(*config, pos_x@, pos_y@, state@.len(), q)
            &&& forall|q: int, d: int| 0 <= q < grid.rows@.len() && 0 <= d < state_dims ==>
                #[trigger] grid.value(q, d) == slot_mean(*config, pos_x@, pos_y@, state@, q, d)
        }),
{
    if !config.is_valid() {
        return Err(GridError::InvalidConfig);
    }
    let n = state.len();
    if pos_x.len() != n || pos_y.len() != n {
        return Err(GridError::AgentCountMismatch);
    }
    let mut k: usize = 0;
    while k < n
        invariant
            k <= n,
            n == state@.len(),
            config.valid(),
            pos_x@.len() == n,
            pos_y@.len() == n,
            forall|j: int| 0 <= j < k ==> (#[trigger] state@[j])@.len() == state_dims,
        decreases n - k,
    {
        if state[k].len() != state_dims {
            assert((state@[k as int])@.len() != state_dims);
            return Err(GridError::StateDimsMismatch);
        }
        k = k + 1;
    }
    let ghost cfg = *config;
    let ghost px = pos_x@;
    let ghost py = pos_y@;
    let ghost st = state@;
    let total = config.slot_count();
    let width = config.width;
    let height = config.height;
    let cap = config.capacity;

    // Running sums and counts per slot.
    let mut sums: Vec<Vec<i128>> = Vec::new();
    let mut counts: Vec<usize> = Vec::new();
    let mut q: usize = 0;
    while q < total
        invariant
            q <= total,
            sums@.len() == q,
            counts@.len() == q,
            forall|p: int| 0 <= p < q ==> (#[trigger] sums@[p])@.len() == state_dims,
            forall|p: int, d: int| 0 <= p < q && 0 <= d < state_dims ==> (#[trigger] sums@[p]@[d]) == 0,
            forall|p: int| 0 <= p < q ==> #[trigger] counts@[p] == 0,
        decreases total - q,
    {
        let mut zeros: Vec<i128> = Vec::new();
        let mut d: usize = 0;
        while d < state_dims
            invariant
                d <= state_dims,
                zeros@.len() == d,
                forall|e: int| 0 <= e < d ==> #[trigger] zeros@[e] == 0,
            decreases state_dims - d,
        {
            zeros.push(0);
            d = d + 1;
        }
        sums.push(zeros);
        counts.push(0);
        q = q + 1;
    }

    let mut slots: Vec<usize> = Vec::new();
    let mut i: usize = 0;
    while i < n
        invariant
            i <= n,
            n == st.len(),
            px == pos_x@,
            py == pos_y@,
            st == state@,
            cfg == *config,
            px.len() == n,
            py.len() == n,
            cfg.valid(),
            total == cfg.num_slots(),
            width == cfg.width,
            height == cfg.height,
            cap == cfg.capacity,
            forall|j: int| 0 <= j < n ==> (#[trigger] st[j])@.len() == state_dims,
            slots@.len() == i,
            forall|j: int| 0 <= j < i ==> #[trigger] slots@[j] == agent_slot(cfg, px, py, j),
            sums@.len() == total,
            counts@.len() == total,
            forall|p: int| 0 <= p < total ==> (#[trigger] sums@[p])@.len() == state_dims,
            forall|p: int, d: int| 0 <= p < total && 0 <= d < state_dims ==>
                (#[trigger] sums@[p]@[d]) == slot_total(cfg, px, py, st, p, d, i as nat),
            forall|p: int| 0 <= p < total ==> #[trigger] counts@[p] == occupants(cfg, px, py, p, i as nat),
        decreases n - i,
    {
        let gx = wrap_coordinate(pos_x[i], config.cell_size.0, width);
        let gy = wrap_coordinate(pos_y[i], config.cell_size.1, height);
        let lane = i % cap;
        proof {
            lemma_slot_compose(gy as int, gx as int, lane as int, height as int, width as int, cap as int);
            assert(gy * width + gx <= total) by (nonlinear_arith)
                requires
                    (gy * width + gx) * cap + lane < total,
                    cap > 0,
                    gy * width + gx >= 0,
            ;
        }
        let cell = gy * width + gx;
        let slot = cell * cap + lane;
        assert(slot == agent_slot(cfg, px, py, i as int));
        slots.push(slot);
        proof {
            lemma_occupants_bound(cfg, px, py, slot as int, i as nat);
        }
        let c = counts[slot];
        counts.set(slot, c + 1);

        let mut row: Vec<i128> = Vec::new();
        sums.set_and_swap(slot, &mut row);
        let ghost old_row = row@;
        let mut d: usize = 0;
        while d < state_dims
            invariant
                d <= state_dims,
                i < n,
                n == st.len(),
                st == state@,
                (st[i as int])@.len() == state_dims,
                row@.len() == state_dims,
                old_row.len() == state_dims,
                n <= usize::MAX,
                forall|e: int| 0 <= e < state_dims ==> old_row[e] == slot_total(cfg, px, py, st, slot as int, e, i as nat),
                forall|e: int| 0 <= e < d ==> #[trigger] row@[e] == old_row[e] + state@[i as int]@[e],
                forall|e: int| d <= e < state_dims ==> #[trigger] row@[e] == old_row[e],
            decreases state_dims - d,
        {
            proof {
                lemma_total_bounds(cfg, px, py, st, slot as int, d as int, i as nat);
                lemma_occupants_bound(cfg, px, py, slot as int, i as nat);
                let o = occupants(cfg, px, py, slot as int, i as nat);
                assert(o * (i64::MIN as int) >= (usize::MAX as int) * (i64::MIN as int)) by (nonlinear_arith)
                    requires
                        o <= usize::MAX,
                ;
                assert(o * (i64::MAX as int) <= (usize::MAX as int) * (i64::MAX as int)) by (nonlinear_arith)
                    requires
                        o <= usize::MAX,
                ;
            }
            let v = row[d] + state[i][d] as i128;
            row.set(d, v);
            d = d + 1;
        }
        sums.set(slot, row);
        i = i + 1;
    }

    // Divide each slot's sums by its count and clamp the count to a mask.
    let mut rows: Vec<Vec<i64>> = Vec::new();
    let mut mask: Vec<u8> = Vec::new();
    let mut q: usize = 0;
    while q < total
        invariant
            q <= total,
            n == st.len(),
            st == state@,
            px == pos_x@,
            py == pos_y@,
            cfg == *config,
            sums@.len() == total,
            counts@.len() == total,
            forall|p: int| 0 <= p < total ==> (#[trigger] sums@[p])@.len() == state_dims,
            forall|p: int, d: int| 0 <= p < total && 0 <= d < state_dims ==>
                (#[trigger] sums@[p]@[d]) == slot_total(cfg, px, py, st, p, d, n as nat),
            forall|p: int| 0 <= p < total ==> #[trigger] counts@[p] == occupants(cfg, px, py, p, n as nat),
            rows@.len() == q,
            mask@.len() == q,
            forall|p: int| 0 <= p < q ==> (#[trigger] rows@[p])@.len() == state_dims,
            forall|p: int, d: int| 0 <= p < q && 0 <= d < state_dims ==>
                #[trigger] rows@[p]@[d] == slot_mean(cfg, px, py, st, p, d),
            forall|p: int| 0 <= p < q ==> #[trigger] mask@[p] == slot_mask(cfg, px, py, n as nat, p),
        decreases total - q,
    {
        let c = counts[q];
        let div: usize = if c == 0 { 1 } else { c };
        let mut row: Vec<i64> = Vec::new();
        let mut d: usize = 0;
        while d < state_dims
            invariant
                d <= state_dims,
                q < total,
                sums@.len() == total,
                (sums@[q as int])@.len() == state_dims,
                c == occupants(cfg, px, py, q as int, n as nat),
                div == (if c == 0 { 1 } else { c }),
                forall|e: int| 0 <= e < state_dims ==>
                    (#[trigger] sums@[q as int]@[e]) == slot_total(cfg, px, py, st, q as int, e, n as nat),
                n == st.len(),
                row@.len() == d,
                forall|e: int| 0 <= e < d ==> #[trigger] row@[e] == slot_mean(cfg, px, py, st, q as int, e),
            decreases state_dims - d,
        {
            proof {
                lemma_total_bounds(cfg, px, py, st, q as int, d as int, n as nat);
                if c > 0 {
                    lemma_div_between(slot_total(cfg, px, py, st, q as int, d as int, n as nat), c as int, i64::MIN as int, i64::MAX as int);
                }
            }
            let m = floor_div(sums[q][d], div as i128);
            row.push(m as i64);
            d = d + 1;
        }
        rows.push(row);
        mask.push(if c == 0 { 0u8 } else { 1u8 });
        q = q + 1;
    }
    let grid = GridBuffer { height, width, capacity: cap, dims: state_dims, rows };
    assert(grid.num_slots() == total) by (nonlinear_arith)
        requires
            total == cfg.width * cfg.height * cfg.capacity,
            grid.height == cfg.height,
            grid.width == cfg.width,
            grid.capacity == cfg.capacity,
    ;
    Ok((grid, mask, slots))
}

proof fn lemma_sole_occupant(
    config: SpatialGrid,
    px: Seq<i64>,
    py: Seq<i64>,
    state: Seq<Vec<i64>>,
    i: int,
    d: int,
    k: nat,
)
    requires
        0 <= i < state.len(),
        k <= state.len(),
        forall|a: int, b: int| 0 <= a < b < state.len() ==>
            agent_slot(config, px, py, a) != agent_slot(config, px, py, b),
    ensures
        occupants(config, px, py, agent_slot(config, px, py, i), k) == (if i < k { 1nat } else { 0nat }),
        slot_total(config, px, py, state, agent_slot(config, px, py, i), d, k) == (if i < k { state[i]@[d] as int } else { 0 }),
    decreases k,
{
    if k > 0 {
        lemma_sole_occupant(config, px, py, state, i, d, (k - 1) as nat);
        if k - 1 != i {
            if k - 1 < i {
                assert(agent_slot(config, px, py, k - 1) != agent_slot(config, px, py, i));
            } else {
                assert(agent_slot(config, px, py, i) != agent_slot(config, px, py, k - 1));
            }
        }
    }
}

/// Round trip: when no two agents share a slot, gathering the scattered
/// grid gives back every agent's own state row. Agent `i` is read back
/// from `agent_slot(i)`, and that slot holds exactly its row.
pub proof fn lemma_round_trip(
    config: SpatialGrid,
    px: Seq<i64>,
    py: Seq<i64>,
    state: Seq<Vec<i64>>,
    state_dims: nat,
)
    requires
        scatter_error(config, px, py, state, state_dims) is None,
        forall|a: int, b: int| 0 <= a < b < state.len() ==>
            agent_slot(config, px, py, a) != agent_slot(config, px, py, b),
    ensures
        forall|i: int, d: int| 0 <= i < state.len() && 0 <= d < state_dims ==>
            #[trigger] slot_mean(config, px, py, state, agent_slot(config, px, py, i), d) == state[i]@[d],
        forall|i: int| 0 <= i < state.len() ==>
            #[trigger] slot_mask(config, px, py, state.len(), agent_slot(config, px, py, i)) == 1,
{
    assert forall|i: int, d: int| 0 <= i < state.len() && 0 <= d < state_dims implies
        #[trigger] slot_mean(config, px, py, state, agent_slot(config, px, py, i), d) == state[i]@[d] by {
        lemma_sole_occupant(config, px, py, state, i, d, state.len());
        let t = slot_total(config, px, py, state, agent_slot(config, px, py, i), d, state.len());
        assert(t / 1 == t);
    }
    assert forall|i: int| 0 <= i < state.len() implies
        #[trigger] slot_mask(config, px, py, state.len(), agent_slot(config, px, py, i)) == 1 by {
        lemma_sole_occupant(config, px, py, state, i, 0, state.len());
    }
}

/// Collision averaging: with one slot per cell, two agents in the same cell
/// share a slot, which holds the floor of the mean of their two state rows,
/// and whose mask is `1`, not `2`.
pub proof fn lemma_collision_average(
    config: SpatialGrid,
    px: Seq<i64>,
    py: Seq<i64>,
    state: Seq<Vec<i64>>,
    state_dims: nat,
)
    requires
        scatter_error(config, px, py, state, state_dims) is None,
        config.capacity == 1,
        state.len() == 2,
        cell_coord(px[0] as int, config.cell_size.0 as int, config.width as int)
            == cell_coord(px[1] as int, config.cell_size.0 as int, config.width as int),
        cell_coord(py[0] as int, config.cell_size.1 as int, config.height as int)
            == cell_coord(py[1] as int, config.cell_size.1 as int, config.height as int),
    ensures
        agent_slot(config, px, py, 0) == agent_slot(config, px, py, 1),
        occupants(config, px, py, agent_slot(config, px, py, 0), 2) == 2,
        slot_mask(config, px, py, 2, agent_slot(config, px, py, 0)) == 1,
        forall|d: int| 0 <= d < state_dims ==>
            #[trigger] slot_mean(config, px, py, state, agent_slot(config, px, py, 0), d)
                == (state[0]@[d] + state[1]@[d]) / 2,
{
    assert(0int % 1 == 0 && 1int % 1 == 0);
    reveal_with_fuel(occupants, 3);
    reveal_with_fuel(slot_total, 3);
    let q = agent_slot(config, px, py, 0);
    assert(occupants(config, px, py, q, 1) == 1);
    assert forall|d: int| 0 <= d < state_dims implies
        #[trigger] slot_mean(config, px, py, state, q, d) == (state[0]@[d] + state[1]@[d]) / 2 by {
        assert(slot_total(config, px, py, state, q, d, 1) == state[0]@[d]);
        assert(slot_total(config, px, py, state, q, d, 2) == state[0]@[d] + state[1]@[d]);
    }
}

} // verus!
