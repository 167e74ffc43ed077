//! The transition engine: the neighbor-counting rule and the
//! generation-transition algorithm, plus randomized initialization.

use vstd::prelude::*;

use crate::grid::{
    grid_of, grid_ok, gwidth, live_count, live_to, row_live_to, lemma_all_dead_extinct,
    lemma_extinct_all_dead, lemma_live_to_agree, lemma_live_to_bounds, lemma_prefix_live_split,
    lemma_row_live_to_agree, lemma_row_live_to_bounds, SimulationState,
};

verus! {

/// 1 if cell (r, c) lies inside the grid and is alive, else 0. Positions
/// outside the grid count as permanently dead.
pub open spec fn live_at(g: Seq<Seq<u8>>, r: int, c: int) -> int {
    if 0 <= r < g.len() && 0 <= c < g[r].len() && g[r][c] == 1 {
        1
    } else {
        0
    }
}

/// The number of live cells among the up to 8 neighbors of cell (r, c):
/// the 3x3 neighborhood minus the center, with no wrapping at the edges.
pub open spec fn neighbor_count(g: Seq<Seq<u8>>, r: int, c: int) -> int {
    live_at(g, r - 1, c - 1) + live_at(g, r - 1, c) + live_at(g, r - 1, c + 1) + live_at(
        g,
        r,
        c - 1,
    ) + live_at(g, r, c + 1) + live_at(g, r + 1, c - 1) + live_at(g, r + 1, c) + live_at(
        g,
        r + 1,
        c + 1,
    )
}

/// The Game-of-Life rule for one cell: a live cell dies of underpopulation
/// (fewer than 2 live neighbors) or overpopulation (more than 3); a dead cell
/// is born with exactly 3; everything else is unchanged.
pub open spec fn next_cell(g: Seq<Seq<u8>>, r: int, c: int) -> u8 {
    let n = neighbor_count(g, r, c);
    if live_at(g, r, c) == 1 {
        if n < 2 || n > 3 {
            0u8
        } else {
            1u8
        }
    } else {
        if n == 3 {
            1u8
        } else {
            0u8
        }
    }
}

/// One whole generation step: every cell of the grid, independently, moves to
/// its `next_cell` value, computed from the prior grid alone.
pub open spec fn step(g: Seq<Seq<u8>>) -> Seq<Seq<u8>> {
    Seq::new(g.len(), |r: int| Seq::new(g[r].len(), |c: int| next_cell(g, r, c)))
}

/// `n` generation steps in a row.
pub open spec fn step_n(g: Seq<Seq<u8>>, n: nat) -> Seq<Seq<u8>>
    decreases n,
{
    if n == 0 {
        g
    } else {
        step(step_n(g, (n - 1) as nat))
    }
}

/// Count the live cells among the up to 8 neighbors of cell (row, col).
///
/// Cells beyond any edge of the grid do not contribute: a border cell simply
/// has fewer candidate neighbors.
pub fn alive_neighbours(row: usize, col: usize, world: &Vec<Vec<u8>>) -> (n: u8)
    requires
        grid_ok(grid_of(world@)),
        row < world@.len(),
        col < world@[row as int]@.len(),
    ensures
        n == neighbor_count(grid_of(world@), row as int, col as int),
        n <= 8,
{
    let ghost g = grid_of(world@);
    let height = world.len();
    let width = world[row].len();
    proof {
        assert(g[row as int] == world@[row as int]@);
        assert(forall|i: int|
            0 <= i < world@.len() ==> (#[trigger] world@[i])@ == g[i] && g[i].len() == gwidth(g));
    }
    let mut n: u8 = 0;

    // top left
    if row > 0 && col > 0 {
        n += world[row - 1][col - 1];
    }
    // top
    if row > 0 {
        n += world[row - 1][col];
    }
    // top right
    if row > 0 && col + 1 < width {
        n += world[row - 1][col + 1];
    }
    // left
    if col > 0 {
        n += world[row][col - 1];
    }
    // right
    if col + 1 < width {
        n += world[row][col + 1];
    }
    // bottom left
    if row + 1 < height && col > 0 {
        n += world[row + 1][col - 1];
    }
    // bottom
    if row + 1 < height {
        n += world[row + 1][col];
    }
    // bottom right
    if row + 1 < height && col + 1 < width {
        n += world[row + 1][col + 1];
    }

    n
}

/// Compute the next generation from a read-only snapshot of the prior one.
///
/// Every cell's next value is a pure function of the prior grid's
/// neighborhood, never of values already updated in the same pass; the
/// `living` counter is maintained incrementally, one cell transition at a
/// time, without a recounting scan. The sweep covers the whole grid, border
/// rows and columns included: a cell beyond any edge counts as permanently
/// dead.
#[verifier::loop_isolation(false)]
pub fn update(state: &SimulationState) -> (next: SimulationState)
    requires
        state.wf(),
        state.generation < u32::MAX,
    ensures
        next.wf(),
        next.width == state.width,
        next.height == state.height,
        next.generation == state.generation + 1,
        next.grid() == step(state.grid()),
        next.living == live_count(step(state.grid())),
{
    let ghost g = state.grid();
    let width = state.width;
    let height = state.height;
    let mut living: u32 = state.living;
    let mut world: Vec<Vec<u8>> = Vec::new();
    proof {
        assert(forall|i: int| 0 <= i < height ==> #[trigger] g[i] == state.world@[i]@);
    }
    let mut x: usize = 0;
    while x < height
        invariant
            x <= height,
            world@.len() == x,
            forall|i: int| 0 <= i < x ==> (#[trigger] world@[i])@.len() == width,
            forall|i: int, j: int|
                0 <= i < x && 0 <= j < width ==> (#[trigger] world@[i]@[j]) == next_cell(g, i, j),
            living == state.living - live_to(g, x as int) + live_to(grid_of(world@), x as int),
        decreases height - x,
    {
        let mut row: Vec<u8> = Vec::new();
        let mut y: usize = 0;
        while y < width
            invariant
                y <= width,
                row@.len() == y,
                forall|j: int| 0 <= j < y ==> #[trigger] row@[j] == next_cell(g, x as int, j),
                living == state.living - live_to(g, x as int) - row_live_to(g[x as int], y as int)
                    + live_to(grid_of(world@), x as int) + row_live_to(row@, y as int),
            decreases width - y,
        {
            let cur = state.world[x][y];
            let alive = cur == 1;
            proof {
                assert(gwidth(g) == width);
            }
            let an = alive_neighbours(x, y, &state.world);
            let mut nv: u8 = cur;
            if alive && an < 2 {
                nv = 0;
            } else if alive && an > 3 {
                nv = 0;
            } else if !alive && an == 3 {
                nv = 1;
            }
            assert(nv == next_cell(g, x as int, y as int));
            if alive && nv == 0 {
                proof {
                    lemma_prefix_live_split(g, width as int, x as int, y as int);
                    lemma_live_to_bounds(grid_of(world@), width as int, 0, x as int);
                    lemma_row_live_to_bounds(row@, 0, y as int);
                }
                living = living - 1;
            } else if !alive && nv == 1 {
                proof {
                    lemma_prefix_live_split(g, width as int, x as int, y as int);
                    lemma_live_to_bounds(grid_of(world@), width as int, 0, x as int);
                    lemma_row_live_to_bounds(row@, 0, y as int);
                    assert((height - x) * width + x * width == height * width)
                        by (nonlinear_arith);
                }
                living = living + 1;
            }
            let ghost prev_row = row@;
            row.push(nv);
            proof {
                lemma_row_live_to_agree(prev_row, row@, y as int);
            }
            y = y + 1;
        }
        let ghost prev_world = world@;
        world.push(row);
        proof {
            lemma_live_to_agree(grid_of(prev_world), grid_of(world@), x as int);
            assert(grid_of(world@)[x as int] == row@);
        }
        x = x + 1;
    }
    let next = SimulationState {
        width,
        height,
        generation: state.generation + 1,
        living,
        world,
    };
    proof {
        let ng = next.grid();
        assert forall|r: int| 0 <= r < height implies #[trigger] ng[r] =~= step(g)[r] by {
            assert(step(g)[r].len() == g[r].len() == width);
        }
        assert(ng =~~= step(g));
    }
    next
}

/// One step of an extinct grid is again extinct, with the same dimensions.
pub proof fn lemma_extinction_step(g: Seq<Seq<u8>>)
    requires
        live_count(g) == 0,
    ensures
        step(g).len() == g.len(),
        forall|r: int| 0 <= r < g.len() ==> #[trigger] step(g)[r].len() == g[r].len(),
        live_count(step(g)) == 0,
{
    lemma_extinct_all_dead(g);
    assert forall|r: int, c: int|
        0 <= r < step(g).len() && 0 <= c < step(g)[r].len() implies step(g)[r][c] != 1 by {
        assert(neighbor_count(g, r, c) == 0);
        assert(step(g)[r][c] == next_cell(g, r, c));
    }
    lemma_all_dead_extinct(step(g));
}

/// An all-dead grid stays all-dead under any number of transition steps: the
/// live count remains 0 and the dimensions are unchanged.
pub proof fn lemma_extinction_stable(g: Seq<Seq<u8>>, n: nat)
    requires
        live_count(g) == 0,
    ensures
        step_n(g, n).len() == g.len(),
        forall|r: int| 0 <= r < g.len() ==> #[trigger] step_n(g, n)[r].len() == g[r].len(),
        live_count(step_n(g, n)) == 0,
    decreases n,
{
    if n > 0 {
        lemma_extinction_stable(g, (n - 1) as nat);
        lemma_extinction_step(step_n(g, (n - 1) as nat));
    }
}

/// Relies on rand::random_range: a uniform draw over the range 0..100, which
/// is nonempty, so the call never panics and the result is below 100.
#[verifier::external_body]
fn random_percent() -> (r: u8)
    ensures
        r < 100,
{
    rand::random_range(0..100u8)
}

/// Build a randomized starting state: generation 0, and each cell drawn
/// independently, alive with probability `seed_density` percent.
///
/// The `living` counter is the exact count of live cells produced, tallied
/// as the cells are drawn.
#[verifier::loop_isolation(false)]
pub fn initialize(width: usize, height: usize, seed_density: u8) -> (s: SimulationState)
    requires
        width >= 1,
        height >= 1,
        seed_density <= 100,
        width * height <= u32::MAX,
    ensures
        s.wf(),
        s.width == width,
        s.height == height,
        s.generation == 0,
        s.living == live_count(s.grid()),
{
    let mut living: u32 = 0;
    let mut world: Vec<Vec<u8>> = Vec::new();
    let mut x: usize = 0;
    while x < height
        invariant
            x <= height,
            world@.len() == x,
            forall|i: int| 0 <= i < x ==> (#[trigger] world@[i])@.len() == width,
            forall|i: int, j: int|
                0 <= i < x && 0 <= j < width ==> ((#[trigger] world@[i]@[j]) == 0
                    || world@[i]@[j] == 1),
            living == live_to(grid_of(world@), x as int),
        decreases height - x,
    {
        let mut row: Vec<u8> = Vec::new();
        let mut y: usize = 0;
        while y < width
            invariant
                y <= width,
                row@.len() == y,
                forall|j: int| 0 <= j < y ==> (#[trigger] row@[j] == 0 || row@[j] == 1),
                living == live_to(grid_of(world@), x as int) + row_live_to(row@, y as int),
            decreases width - y,
        {
            let draw = random_percent();
            let v: u8 = if draw < seed_density {
                1
            } else {
                0
            };
            if v == 1 {
                proof {
                    lemma_live_to_bounds(grid_of(world@), width as int, 0, x as int);
                    lemma_row_live_to_bounds(row@, 0, y as int);
                    assert(live_to(grid_of(world@), x as int) <= x * width);
                    assert(row_live_to(row@, y as int) <= y as int);
                    assert(x * width + width <= width * height) by (nonlinear_arith)
                        requires x < height, 0 <= width,
                    ;
                    assert(living + 1 <= width * height);
                }
                living = living + 1;
            }
            let ghost prev_row = row@;
            row.push(v);
            proof {
                lemma_row_live_to_agree(prev_row, row@, y as int);
            }
            y = y + 1;
        }
        let ghost prev_world = world@;
        world.push(row);
        proof {
            lemma_live_to_agree(grid_of(prev_world), grid_of(world@), x as int);
            assert(grid_of(world@)[x as int] == row@);
        }
        x = x + 1;
    }
    SimulationState { width, height, generation: 0, living, world }
}

} // verus!

