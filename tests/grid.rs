use simulator::arith::{floor_div, floor_mod};
use simulator::{
    create_torus_padded_grid, grid_to_particles, particles_to_grid, shift_grid, solve_gravity_stencil,
    wrap_coordinate, GridBuffer, GridError, SpatialGrid, FIXED_ONE, MASS, POS_X, POS_Y, VEL_X, VEL_Y,
};

fn config(width: usize, height: usize, capacity: usize) -> SpatialGrid {
    SpatialGrid { width, height, capacity, cell_size: (FIXED_ONE, FIXED_ONE) }
}

fn agent(x: i64, y: i64, mass: i64) -> Vec<i64> {
    vec![x, y, 0, 0, mass]
}

fn columns(state: &[Vec<i64>]) -> (Vec<i64>, Vec<i64>) {
    (state.iter().map(|r| r[POS_X]).collect(), state.iter().map(|r| r[POS_Y]).collect())
}

/// Grid whose slot `q` holds `q` in channel 0 and `100 + q` in channel 1.
fn numbered_grid(height: usize, width: usize, capacity: usize) -> GridBuffer {
    let rows = (0..height * width * capacity).map(|q| vec![q as i64, 100 + q as i64]).collect();
    GridBuffer { height, width, capacity, dims: 2, rows }
}

fn slot(y: usize, x: usize, c: usize, width: usize, capacity: usize) -> usize {
    (y * width + x) * capacity + c
}

#[test]
fn floor_division_rounds_down() {
    assert_eq!(floor_div(-7, 2), -4);
    assert_eq!(floor_div(7, 2), 3);
    assert_eq!(floor_div(-8, 2), -4);
    assert_eq!(floor_mod(-7, 2), 1);
    assert_eq!(floor_mod(-1, 4), 3);
    assert_eq!(floor_mod(9, 4), 1);
}

#[test]
fn negative_position_wraps_to_last_column() {
    let cw = FIXED_ONE;
    assert_eq!(wrap_coordinate(-cw / 2, cw, 4), 3);
    assert_eq!(wrap_coordinate(-cw, cw, 4), 3);
    assert_eq!(wrap_coordinate(-cw - 1, cw, 4), 2);
    assert_eq!(wrap_coordinate(0, cw, 4), 0);
    assert_eq!(wrap_coordinate(cw * 4, cw, 4), 0);
}

#[test]
fn negative_position_scatters_into_last_cell() {
    let cfg = config(4, 1, 1);
    let state = vec![agent(-FIXED_ONE / 2, 0, FIXED_ONE)];
    let (px, py) = columns(&state);
    let (grid, mask, slots) = particles_to_grid(&px, &py, &state, 5, &cfg).unwrap();
    assert_eq!(slots, vec![3]);
    assert_eq!(mask, vec![0, 0, 0, 1]);
    assert_eq!(grid.rows[3], state[0]);
}

#[test]
fn cell_coordinate_is_periodic() {
    let cw = 3 * FIXED_ONE / 2;
    for &p in &[-5 * FIXED_ONE, -1, 0, 7, 2 * FIXED_ONE + 11] {
        for k in -3i64..=3 {
            assert_eq!(wrap_coordinate(p + k * 5 * cw, cw, 5), wrap_coordinate(p, cw, 5));
        }
    }
}

#[test]
fn scatter_of_no_agents_is_all_zero() {
    let cfg = config(3, 2, 2);
    let (grid, mask, slots) = particles_to_grid(&vec![], &vec![], &vec![], 5, &cfg).unwrap();
    assert_eq!(grid.rows.len(), 12);
    assert!(grid.rows.iter().all(|r| r == &vec![0; 5]));
    assert_eq!(mask, vec![0; 12]);
    assert!(slots.is_empty());
}

#[test]
fn scatter_places_agents_by_cell_and_index() {
    let cfg = config(3, 2, 2);
    let one = FIXED_ONE;
    let state = vec![agent(one / 2, one / 2, one), agent(2 * one + 1, one + 5, 2 * one), agent(one, 0, 3)];
    let (px, py) = columns(&state);
    let (grid, mask, slots) = particles_to_grid(&px, &py, &state, 5, &cfg).unwrap();
    assert_eq!(slots, vec![slot(0, 0, 0, 3, 2), slot(1, 2, 1, 3, 2), slot(0, 1, 0, 3, 2)]);
    for (i, &q) in slots.iter().enumerate() {
        assert_eq!(grid.rows[q], state[i]);
        assert_eq!(mask[q], 1);
    }
    assert_eq!(mask.iter().filter(|&&m| m == 1).count(), 3);
}

#[test]
fn gather_after_scatter_returns_state() {
    let cfg = config(2, 2, 1);
    let one = FIXED_ONE;
    let state = vec![
        vec![0, 0, 7, -7, one],
        vec![one, 0, 1, 2, 3],
        vec![0, one, -5, 5, 9],
        vec![one + 3, one + 3, 11, 12, 13],
    ];
    let (px, py) = columns(&state);
    let (grid, _mask, slots) = particles_to_grid(&px, &py, &state, 5, &cfg).unwrap();
    let back = grid_to_particles(&grid, &slots).unwrap();
    assert_eq!(back, state);
}

#[test]
fn colliding_agents_are_averaged() {
    let cfg = config(2, 2, 1);
    let one = FIXED_ONE;
    let state = vec![vec![one / 4, one / 4, 10, 20, 4], vec![3 * one / 4, one / 2, 30, -40, 7]];
    let (px, py) = columns(&state);
    let (grid, mask, slots) = particles_to_grid(&px, &py, &state, 5, &cfg).unwrap();
    assert_eq!(slots, vec![0, 0]);
    assert_eq!(mask, vec![1, 0, 0, 0]);
    assert_eq!(grid.rows[0], vec![one / 2, 3 * one / 8, 20, -10, 5]);
    let back = grid_to_particles(&grid, &slots).unwrap();
    assert_eq!(back[0], back[1]);
}

#[test]
fn three_agents_in_one_slot_share_the_mean() {
    let cfg = config(1, 1, 2);
    let state = vec![agent(0, 0, 3), agent(0, 0, 100), agent(0, 0, 6), agent(0, 0, -1)];
    let (px, py) = columns(&state);
    let (grid, mask, slots) = particles_to_grid(&px, &py, &state, 5, &cfg).unwrap();
    assert_eq!(slots, vec![0, 1, 0, 1]);
    assert_eq!(mask, vec![1, 1]);
    assert_eq!(grid.rows[0][MASS], 4);
    assert_eq!(grid.rows[1][MASS], 49);
}

#[test]
fn scatter_rejects_bad_inputs() {
    let state = vec![agent(0, 0, 1)];
    let (px, py) = columns(&state);
    assert_eq!(particles_to_grid(&px, &py, &state, 5, &config(0, 2, 1)).unwrap_err(), GridError::InvalidConfig);
    assert_eq!(particles_to_grid(&px, &py, &state, 5, &config(2, 2, 0)).unwrap_err(), GridError::InvalidConfig);
    let flat = SpatialGrid { width: 2, height: 2, capacity: 1, cell_size: (FIXED_ONE, 0) };
    assert_eq!(particles_to_grid(&px, &py, &state, 5, &flat).unwrap_err(), GridError::InvalidConfig);
    let huge = config(usize::MAX, 2, 1);
    assert_eq!(particles_to_grid(&px, &py, &state, 5, &huge).unwrap_err(), GridError::InvalidConfig);
    assert_eq!(
        particles_to_grid(&vec![0, 0], &py, &state, 5, &config(2, 2, 1)).unwrap_err(),
        GridError::AgentCountMismatch
    );
    assert_eq!(particles_to_grid(&px, &py, &state, 4, &config(2, 2, 1)).unwrap_err(), GridError::StateDimsMismatch);
}

#[test]
fn gather_rejects_index_outside_grid() {
    let grid = numbered_grid(1, 2, 1);
    assert_eq!(grid_to_particles(&grid, &vec![0, 2]).unwrap_err(), GridError::IndexOutOfRange);
    assert_eq!(grid_to_particles(&grid, &vec![1, 0, 1]).unwrap(), vec![vec![1, 101], vec![0, 100], vec![1, 101]]);
}

#[test]
fn zero_padding_keeps_grid() {
    let grid = numbered_grid(2, 3, 2);
    let padded = create_torus_padded_grid(&grid, 0).unwrap();
    assert_eq!((padded.height, padded.width, padded.capacity, padded.dims), (2, 3, 2, 2));
    assert_eq!(padded.rows, grid.rows);
}

#[test]
fn padding_wraps_opposite_edges() {
    let (h, w, c) = (2, 3, 2);
    let grid = numbered_grid(h, w, c);
    let padded = create_torus_padded_grid(&grid, 1).unwrap();
    assert_eq!((padded.height, padded.width), (4, 5));
    let pw = 5;
    for y in 0..h {
        for x in 0..w {
            for l in 0..c {
                assert_eq!(padded.rows[slot(y + 1, x + 1, l, pw, c)], grid.rows[slot(y, x, l, w, c)]);
            }
        }
    }
    // Top-left corner of the halo is the bottom-right cell of the grid.
    assert_eq!(padded.rows[slot(0, 0, 1, pw, c)], grid.rows[slot(1, 2, 1, w, c)]);
    // Right border repeats the first column.
    assert_eq!(padded.rows[slot(2, 4, 0, pw, c)], grid.rows[slot(1, 0, 0, w, c)]);
    // Bottom border repeats the first row.
    assert_eq!(padded.rows[slot(3, 2, 0, pw, c)], grid.rows[slot(0, 1, 0, w, c)]);
}

#[test]
fn padding_wider_than_grid_still_wraps() {
    let grid = numbered_grid(1, 2, 1);
    let padded = create_torus_padded_grid(&grid, 3).unwrap();
    assert_eq!((padded.height, padded.width), (7, 8));
    for y in 0..7 {
        for x in 0..8usize {
            let src = (x + 2 * 2 - 3) % 2;
            assert_eq!(padded.rows[y * 8 + x], grid.rows[src]);
        }
    }
}

#[test]
fn padding_too_large_is_refused() {
    let grid = numbered_grid(1, 1, 1);
    assert_eq!(create_torus_padded_grid(&grid, usize::MAX / 2).unwrap_err(), GridError::GridTooLarge);
}

#[test]
fn shift_rolls_rows_and_columns() {
    let (h, w, c) = (3, 4, 1);
    let grid = numbered_grid(h, w, c);
    let rolled = shift_grid(&grid, 1, -1);
    for y in 0..h {
        for x in 0..w {
            let sy = (y + 1) % h;
            let sx = (x + w - 1) % w;
            assert_eq!(rolled.rows[slot(y, x, 0, w, c)], grid.rows[slot(sy, sx, 0, w, c)]);
        }
    }
    let same = shift_grid(&grid, 4, -3);
    assert_eq!(same.rows, grid.rows);
}

fn assert_close(value: i64, expected: f64) {
    let got = value as f64 / FIXED_ONE as f64;
    assert!((got - expected).abs() < 1e-3, "got {got}, expected {expected}");
}

#[test]
fn two_by_two_forces_match_inverse_square_sum() {
    let cfg = config(2, 2, 2);
    let one = FIXED_ONE;
    let state = vec![agent(0, 0, one), agent(one, 0, one), agent(0, one, one), agent(one, one, one)];
    let (px, py) = columns(&state);
    let (grid, _mask, slots) = particles_to_grid(&px, &py, &state, 5, &cfg).unwrap();
    let forces = solve_gravity_stencil(&grid, 1).unwrap();
    let per_agent = grid_to_particles(&forces, &slots).unwrap();
    // Each neighbour column and row is reached through two offsets and the
    // diagonal cell through four.
    let f = 2.0 / 1.01 + 4.0 / 2.01;
    let expected = [(f, f), (-f, f), (f, -f), (-f, -f)];
    for (row, &(ex, ey)) in per_agent.iter().zip(expected.iter()) {
        assert_close(row[VEL_X], ex);
        assert_close(row[VEL_Y], ey);
        assert_eq!(row[POS_X], 0);
        assert_eq!(row[POS_Y], 0);
        assert_eq!(row[MASS], 0);
    }
}

#[test]
fn zero_radius_ignores_other_cells() {
    let cfg = config(3, 1, 2);
    let one = FIXED_ONE;
    let state = vec![agent(one / 2, 0, one), agent(3 * one / 2, 0, one)];
    let (px, py) = columns(&state);
    let (grid, _mask, slots) = particles_to_grid(&px, &py, &state, 5, &cfg).unwrap();
    let forces = solve_gravity_stencil(&grid, 0).unwrap();
    for row in grid_to_particles(&forces, &slots).unwrap() {
        assert_eq!(row, vec![0; 5]);
    }
    let wide = solve_gravity_stencil(&grid, 1).unwrap();
    let per_agent = grid_to_particles(&wide, &slots).unwrap();
    assert!(per_agent[0][VEL_X] > 0);
    assert!(per_agent[1][VEL_X] < 0);
}

#[test]
fn zero_radius_combines_slots_of_one_cell() {
    let cfg = config(2, 1, 2);
    let one = FIXED_ONE;
    let state = vec![agent(0, 0, one), agent(one / 2, 0, one)];
    let (px, py) = columns(&state);
    let (grid, _mask, slots) = particles_to_grid(&px, &py, &state, 5, &cfg).unwrap();
    assert_eq!(slots, vec![0, 1]);
    let forces = solve_gravity_stencil(&grid, 0).unwrap();
    let f = 0.5 / (0.25 + 0.01);
    assert_close(forces.rows[0][VEL_X], f);
    assert_close(forces.rows[1][VEL_X], -f);
    assert_eq!(forces.rows[0][VEL_Y], 0);
}

#[test]
fn overlapping_agents_give_finite_force() {
    let cfg = config(1, 1, 2);
    let state = vec![agent(5, 5, FIXED_ONE), agent(5, 5, FIXED_ONE)];
    let (px, py) = columns(&state);
    let (grid, _mask, _slots) = particles_to_grid(&px, &py, &state, 5, &cfg).unwrap();
    let forces = solve_gravity_stencil(&grid, 0).unwrap();
    assert_eq!(forces.rows[0][VEL_X], 0);
    assert_eq!(forces.rows[1][VEL_Y], 0);
}

#[test]
fn stencil_rejects_bad_inputs() {
    let cfg = config(2, 2, 1);
    let state = vec![agent(0, 0, FIXED_ONE)];
    let (px, py) = columns(&state);
    let (grid, _mask, _slots) = particles_to_grid(&px, &py, &state, 5, &cfg).unwrap();
    assert_eq!(solve_gravity_stencil(&grid, -1).unwrap_err(), GridError::NegativeRadius);
    assert_eq!(solve_gravity_stencil(&grid, 128).unwrap_err(), GridError::StencilTooLarge);
    let narrow = numbered_grid(2, 2, 1);
    assert_eq!(solve_gravity_stencil(&narrow, 1).unwrap_err(), GridError::MissingChannels);
    let mut far = GridBuffer { height: 2, width: 2, capacity: 1, dims: 5, rows: grid.rows.clone() };
    far.rows[0][MASS] = 1 << 31;
    assert_eq!(solve_gravity_stencil(&far, 1).unwrap_err(), GridError::ValueOutOfRange);
    let wide = GridBuffer { height: 1, width: 1, capacity: 100, dims: 5, rows: vec![vec![0; 5]; 100] };
    assert_eq!(solve_gravity_stencil(&wide, 13).unwrap_err(), GridError::StencilTooLarge);
    assert!(solve_gravity_stencil(&wide, 12).is_ok());
}
