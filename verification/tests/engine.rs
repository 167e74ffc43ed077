use game_of_life::engine::{alive_neighbours, initialize, update};
use game_of_life::grid::SimulationState;

fn initialise_test_state() -> SimulationState {
    SimulationState::new_dead(40, 20)
}

fn count_live(state: &SimulationState) -> u32 {
    let mut n: u32 = 0;
    for row in &state.world {
        for &cell in row {
            if cell == 1 {
                n += 1;
            }
        }
    }
    n
}

/// A cell with no neighbours dies, as if by solitude.
#[test]
fn test_update_no_neighbours() {
    let mut initial_state = initialise_test_state();
    initial_state.world[1][1] = 1;
    initial_state.living = 1;

    let new_state = update(&initial_state);

    assert_eq!(new_state.living, 0);
}

/// A cell with one neighbour dies, as if by solitude.
#[test]
fn test_update_one_neighbour() {
    let mut initial_state = initialise_test_state();

    initial_state.world[1][1] = 1;
    initial_state.world[1][2] = 1;
    initial_state.living = 2;

    let new_state = update(&initial_state);

    assert_eq!(new_state.living, 0);
}

/// A cell with two neighbours survives; a dead cell with three neighbours
/// becomes populated.
#[test]
fn test_update_two_neighbours() {
    let mut initial_state = initialise_test_state();

    initial_state.world[1][1] = 1;
    initial_state.world[1][2] = 1;
    initial_state.world[2][1] = 1;
    initial_state.living = 3;

    let new_state = update(&initial_state);

    assert_eq!(new_state.living, 4);
    assert_eq!(new_state.world[1][1], 1);
    assert_eq!(new_state.world[1][2], 1);
    assert_eq!(new_state.world[2][1], 1);
    assert_eq!(new_state.world[2][2], 1);
}

/// A cell with three neighbours survives: the 2x2 block is a still life.
#[test]
fn test_update_three_neighbours() {
    let mut initial_state = initialise_test_state();

    initial_state.world[1][1] = 1;
    initial_state.world[1][2] = 1;
    initial_state.world[2][1] = 1;
    initial_state.world[2][2] = 1;
    initial_state.living = 4;

    let new_state = update(&initial_state);

    assert_eq!(new_state.living, 4);
    assert_eq!(new_state.world[1][1], 1);
    assert_eq!(new_state.world[1][2], 1);
    assert_eq!(new_state.world[2][1], 1);
    assert_eq!(new_state.world[2][2], 1);
}

/// A cell with four neighbours dies as if by overpopulation: the plus shape
/// becomes a ring of eight.
#[test]
fn test_update_four_neighbours() {
    let mut initial_state = initialise_test_state();

    initial_state.world[1][2] = 1;
    initial_state.world[2][1] = 1;
    initial_state.world[2][2] = 1;
    initial_state.world[2][3] = 1;
    initial_state.world[3][2] = 1;
    initial_state.living = 5;

    let new_state = update(&initial_state);

    assert_eq!(new_state.living, 8);
    assert_eq!(new_state.world[1][1], 1);
    assert_eq!(new_state.world[1][2], 1);
    assert_eq!(new_state.world[1][3], 1);
    assert_eq!(new_state.world[2][1], 1);
    assert_eq!(new_state.world[2][3], 1);
    assert_eq!(new_state.world[3][1], 1);
    assert_eq!(new_state.world[3][2], 1);
    assert_eq!(new_state.world[3][3], 1);
}

/// The plus-shape step kills the overpopulated center and nothing else dies.
#[test]
fn test_update_four_neighbours_center_dies() {
    let mut initial_state = initialise_test_state();

    initial_state.world[1][2] = 1;
    initial_state.world[2][1] = 1;
    initial_state.world[2][2] = 1;
    initial_state.world[2][3] = 1;
    initial_state.world[3][2] = 1;
    initial_state.living = 5;

    let new_state = update(&initial_state);

    assert_eq!(new_state.world[2][2], 0);
}

/// After an update, `living` equals an independent full recount of the grid.
#[test]
fn test_living_matches_recount() {
    let mut state = initialise_test_state();
    // An R-pentomino, which evolves busily.
    state.world[5][6] = 1;
    state.world[5][7] = 1;
    state.world[6][5] = 1;
    state.world[6][6] = 1;
    state.world[7][6] = 1;
    state.living = 5;

    for _ in 0..10 {
        state = update(&state);
        assert_eq!(state.living, count_live(&state));
    }
}

/// An all-dead grid stays all-dead over any number of updates, while the
/// generation counter still increments by one each call.
#[test]
fn test_all_dead_stays_dead() {
    let mut state = initialise_test_state();
    for expected_generation in 1..=5u32 {
        state = update(&state);
        assert_eq!(state.living, 0);
        assert_eq!(state.generation, expected_generation);
        assert_eq!(count_live(&state), 0);
    }
}

/// `update` never mutates the snapshot passed in.
#[test]
fn test_update_leaves_input_unchanged() {
    let mut state = initialise_test_state();
    state.world[1][1] = 1;
    state.world[1][2] = 1;
    state.world[2][1] = 1;
    state.living = 3;

    let world_before = state.world.clone();
    let living_before = state.living;
    let generation_before = state.generation;

    let _new_state = update(&state);

    assert_eq!(state.world, world_before);
    assert_eq!(state.living, living_before);
    assert_eq!(state.generation, generation_before);
}

/// A blinker oscillates between a horizontal and a vertical bar.
#[test]
fn test_update_blinker_oscillates() {
    let mut state = SimulationState::new_dead(5, 5);
    state.world[2][1] = 1;
    state.world[2][2] = 1;
    state.world[2][3] = 1;
    state.living = 3;

    let vertical = update(&state);
    assert_eq!(vertical.living, 3);
    assert_eq!(vertical.world[1][2], 1);
    assert_eq!(vertical.world[2][2], 1);
    assert_eq!(vertical.world[3][2], 1);
    assert_eq!(vertical.world[2][1], 0);
    assert_eq!(vertical.world[2][3], 0);

    let horizontal = update(&vertical);
    assert_eq!(horizontal.living, 3);
    assert_eq!(horizontal.world, state.world);
    assert_eq!(horizontal.generation, 2);
}

/// A block in the top-left corner is a still life: the sweep covers border
/// cells, whose out-of-range neighbours count as dead.
#[test]
fn test_update_corner_block() {
    let mut state = SimulationState::new_dead(4, 4);
    state.world[0][0] = 1;
    state.world[0][1] = 1;
    state.world[1][0] = 1;
    state.world[1][1] = 1;
    state.living = 4;

    let new_state = update(&state);

    assert_eq!(new_state.living, 4);
    assert_eq!(new_state.world[0][0], 1);
    assert_eq!(new_state.world[0][1], 1);
    assert_eq!(new_state.world[1][0], 1);
    assert_eq!(new_state.world[1][1], 1);
}

/// A lone live cell in the bottom-right corner dies of solitude.
#[test]
fn test_update_corner_cell_dies() {
    let mut state = SimulationState::new_dead(3, 3);
    state.world[2][2] = 1;
    state.living = 1;

    let new_state = update(&state);

    assert_eq!(new_state.living, 0);
    assert_eq!(new_state.world[2][2], 0);
}

/// Neighbour counting in the interior sees all eight surrounding cells and
/// not the center.
#[test]
fn test_alive_neighbours_interior() {
    let world = vec![
        vec![1u8, 1, 1],
        vec![1, 0, 1],
        vec![1, 1, 1],
    ];
    assert_eq!(alive_neighbours(1, 1, &world), 8);

    let world_full = vec![
        vec![1u8, 1, 1],
        vec![1, 1, 1],
        vec![1, 1, 1],
    ];
    assert_eq!(alive_neighbours(1, 1, &world_full), 8);
}

/// Neighbour counting at corners and edges omits out-of-range cells.
#[test]
fn test_alive_neighbours_borders() {
    let world = vec![
        vec![1u8, 1, 1],
        vec![1, 1, 1],
        vec![1, 1, 1],
    ];
    assert_eq!(alive_neighbours(0, 0, &world), 3);
    assert_eq!(alive_neighbours(0, 2, &world), 3);
    assert_eq!(alive_neighbours(2, 0, &world), 3);
    assert_eq!(alive_neighbours(2, 2, &world), 3);
    assert_eq!(alive_neighbours(0, 1, &world), 5);
    assert_eq!(alive_neighbours(1, 0, &world), 5);
    assert_eq!(alive_neighbours(1, 2, &world), 5);
    assert_eq!(alive_neighbours(2, 1, &world), 5);
}

/// A freshly built dead state has the declared shape and no live cells.
#[test]
fn test_new_dead_shape() {
    let state = SimulationState::new_dead(7, 3);
    assert_eq!(state.width, 7);
    assert_eq!(state.height, 3);
    assert_eq!(state.generation, 0);
    assert_eq!(state.living, 0);
    assert_eq!(state.world.len(), 3);
    for row in &state.world {
        assert_eq!(row.len(), 7);
        for &cell in row {
            assert_eq!(cell, 0);
        }
    }
}

/// A randomized state has the declared shape, binary cells, and a `living`
/// counter that matches a full recount.
#[test]
fn test_initialize_counts_match() {
    let state = initialize(40, 20, 20);
    assert_eq!(state.width, 40);
    assert_eq!(state.height, 20);
    assert_eq!(state.generation, 0);
    assert_eq!(state.world.len(), 20);
    for row in &state.world {
        assert_eq!(row.len(), 40);
        for &cell in row {
            assert!(cell == 0 || cell == 1);
        }
    }
    assert_eq!(state.living, count_live(&state));
}

/// A seed density of 0 leaves every cell dead; a density of 100 makes every
/// cell alive.
#[test]
fn test_initialize_extreme_densities() {
    let dead = initialize(10, 10, 0);
    assert_eq!(dead.living, 0);
    assert_eq!(count_live(&dead), 0);

    let full = initialize(10, 10, 100);
    assert_eq!(full.living, 100);
    assert_eq!(count_live(&full), 100);
}
