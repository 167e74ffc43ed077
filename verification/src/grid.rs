//! The grid model: a finite rectangular field of cells, each dead (0) or
//! alive (1), together with the spec-level machinery for counting live cells.

use vstd::prelude::*;

verus! {

/// The mathematical view of a grid: a sequence of rows, each a sequence of
/// cell values.
pub open spec fn grid_of(world: Seq<Vec<u8>>) -> Seq<Seq<u8>> {
    world.map_values(|row: Vec<u8>| row@)
}

/// The width of a grid: the length of its first row (0 for an empty grid).
pub open spec fn gwidth(g: Seq<Seq<u8>>) -> int {
    if g.len() == 0 {
        0
    } else {
        g[0].len() as int
    }
}

/// Every row has the same length `w`.
pub open spec fn grid_rect(g: Seq<Seq<u8>>, w: int) -> bool {
    forall|i: int| 0 <= i < g.len() ==> (#[trigger] g[i]).len() == w
}

/// Every cell holds 0 or 1 and nothing else.
pub open spec fn cells_binary(g: Seq<Seq<u8>>) -> bool {
    forall|i: int, j: int|
        0 <= i < g.len() && 0 <= j < g[i].len() ==> (#[trigger] g[i][j] == 0 || g[i][j] == 1)
}

/// A well-shaped grid: rectangular, with binary cells.
pub open spec fn grid_ok(g: Seq<Seq<u8>>) -> bool {
    grid_rect(g, gwidth(g)) && cells_binary(g)
}

/// The contribution of one cell value to a live count.
pub open spec fn live01(v: u8) -> int {
    if v == 1 {
        1
    } else {
        0
    }
}

/// Live cells among the first `c` cells of a row.
pub open spec fn row_live_to(row: Seq<u8>, c: int) -> int
    decreases c,
{
    if c <= 0 {
        0
    } else {
        row_live_to(row, c - 1) + live01(row[c - 1])
    }
}

/// Live cells in a whole row.
pub open spec fn row_live(row: Seq<u8>) -> int {
    row_live_to(row, row.len() as int)
}

/// Live cells in the first `r` rows of a grid.
pub open spec fn live_to(g: Seq<Seq<u8>>, r: int) -> int
    decreases r,
{
    if r <= 0 {
        0
    } else {
        live_to(g, r - 1) + row_live(g[r - 1])
    }
}

/// Live cells in a whole grid.
pub open spec fn live_count(g: Seq<Seq<u8>>) -> int {
    live_to(g, g.len() as int)
}

/// Live cells strictly before position (r, c) in row-major order: all of rows
/// `0..r` plus cells `0..c` of row `r`.
pub open spec fn prefix_live(g: Seq<Seq<u8>>, r: int, c: int) -> int {
    live_to(g, r) + row_live_to(g[r], c)
}

/// A partial row count only reads the cells it covers.
pub proof fn lemma_row_live_to_agree(s1: Seq<u8>, s2: Seq<u8>, c: int)
    requires
        forall|j: int| 0 <= j < c ==> s1[j] == s2[j],
    ensures
        row_live_to(s1, c) == row_live_to(s2, c),
    decreases c,
{
    if c > 0 {
        lemma_row_live_to_agree(s1, s2, c - 1);
    }
}

/// A partial grid count only reads the rows it covers.
pub proof fn lemma_live_to_agree(g1: Seq<Seq<u8>>, g2: Seq<Seq<u8>>, r: int)
    requires
        forall|i: int| 0 <= i < r ==> g1[i] == g2[i],
    ensures
        live_to(g1, r) == live_to(g2, r),
    decreases r,
{
    if r > 0 {
        lemma_live_to_agree(g1, g2, r - 1);
    }
}

/// A stretch of a row holds between 0 and one live cell per covered cell.
pub proof fn lemma_row_live_to_bounds(row: Seq<u8>, c1: int, c2: int)
    requires
        0 <= c1 <= c2,
    ensures
        0 <= row_live_to(row, c2) - row_live_to(row, c1) <= c2 - c1,
    decreases c2 - c1,
{
    if c1 < c2 {
        lemma_row_live_to_bounds(row, c1, c2 - 1);
    }
}

/// A stretch of rows, each of width `w`, holds between 0 and `w` live cells
/// per covered row.
pub proof fn lemma_live_to_bounds(g: Seq<Seq<u8>>, w: int, r1: int, r2: int)
    requires
        0 <= r1 <= r2 <= g.len(),
        grid_rect(g, w),
        0 <= w,
    ensures
        0 <= live_to(g, r2) - live_to(g, r1) <= (r2 - r1) * w,
    decreases r2 - r1,
{
    if r1 < r2 {
        lemma_live_to_bounds(g, w, r1, r2 - 1);
        lemma_row_live_to_bounds(g[r2 - 1], 0, w);
        assert((r2 - 1 - r1) * w + w == (r2 - r1) * w) by (nonlinear_arith);
    }
}

/// Splitting the live count of a grid at cell (r, c): the cells before it,
/// the cell itself, and the cells after it, whose count lies between 0 and
/// the number of such cells.
pub proof fn lemma_prefix_live_split(g: Seq<Seq<u8>>, w: int, r: int, c: int)
    requires
        grid_rect(g, w),
        0 <= r < g.len(),
        0 <= c < w,
    ensures
        prefix_live(g, r, c) + live01(g[r][c]) <= live_count(g),
        live_count(g) <= prefix_live(g, r, c) + live01(g[r][c]) + (g.len() - r) * w - c - 1,
{
    let h = g.len() as int;
    lemma_live_to_bounds(g, w, r + 1, h);
    lemma_row_live_to_bounds(g[r], c + 1, w);
    assert(live_to(g, r + 1) == live_to(g, r) + row_live(g[r]));
    assert(row_live_to(g[r], c + 1) == row_live_to(g[r], c) + live01(g[r][c]));
    assert((h - r - 1) * w + w == (h - r) * w) by (nonlinear_arith);
}

/// A partial live count of a row is never negative.
proof fn lemma_row_live_to_nonneg(row: Seq<u8>, c: int)
    ensures
        row_live_to(row, c) >= 0,
    decreases c,
{
    if c > 0 {
        lemma_row_live_to_nonneg(row, c - 1);
    }
}

/// A partial live count of a grid is never negative.
proof fn lemma_live_to_nonneg(g: Seq<Seq<u8>>, r: int)
    ensures
        live_to(g, r) >= 0,
    decreases r,
{
    if r > 0 {
        lemma_live_to_nonneg(g, r - 1);
        lemma_row_live_to_nonneg(g[r - 1], g[r - 1].len() as int);
    }
}

/// If the first `c` cells of a row hold no live cell, their count is 0.
proof fn lemma_row_all_dead(row: Seq<u8>, c: int)
    requires
        forall|j: int| 0 <= j < c ==> row[j] != 1,
    ensures
        row_live_to(row, c) == 0,
    decreases c,
{
    if c > 0 {
        lemma_row_all_dead(row, c - 1);
    }
}

/// A grid with no live cell among its first `r` rows counts 0 over them.
proof fn lemma_grid_all_dead(g: Seq<Seq<u8>>, r: int)
    requires
        forall|i: int, j: int| 0 <= i < g.len() && 0 <= j < g[i].len() ==> g[i][j] != 1,
        r <= g.len(),
    ensures
        live_to(g, r) == 0,
    decreases r,
{
    if r > 0 {
        lemma_grid_all_dead(g, r - 1);
        lemma_row_all_dead(g[r - 1], g[r - 1].len() as int);
    }
}

/// If the count over the first `c` cells of a row is 0, each of them is dead.
proof fn lemma_row_live_to_zero(row: Seq<u8>, c: int)
    requires
        row_live_to(row, c) == 0,
    ensures
        forall|j: int| 0 <= j < c ==> row[j] != 1,
    decreases c,
{
    if c > 0 {
        lemma_row_live_to_nonneg(row, c - 1);
        lemma_row_live_to_zero(row, c - 1);
    }
}

/// Helper: a zero count over the first `r` rows makes each of those rows
/// count 0.
proof fn lemma_live_to_zero(g: Seq<Seq<u8>>, r: int)
    requires
        live_to(g, r) == 0,
    ensures
        forall|i: int| 0 <= i < r ==> row_live(#[trigger] g[i]) == 0,
    decreases r,
{
    if r > 0 {
        lemma_live_to_nonneg(g, r - 1);
        lemma_row_live_to_nonneg(g[r - 1], g[r - 1].len() as int);
        lemma_live_to_zero(g, r - 1);
    }
}

/// In a grid whose live count is 0, every cell is dead.
pub proof fn lemma_extinct_all_dead(g: Seq<Seq<u8>>)
    requires
        live_count(g) == 0,
    ensures
        forall|r: int, c: int| 0 <= r < g.len() && 0 <= c < g[r].len() ==> g[r][c] != 1,
{
    lemma_live_to_zero(g, g.len() as int);
    assert forall|r: int, c: int|
        0 <= r < g.len() && 0 <= c < g[r].len() implies g[r][c] != 1 by {
        lemma_row_live_to_zero(g[r], g[r].len() as int);
    }
}

/// In a grid where every cell is dead, the live count is 0.
pub proof fn lemma_all_dead_extinct(g: Seq<Seq<u8>>)
    requires
        forall|i: int, j: int| 0 <= i < g.len() && 0 <= j < g[i].len() ==> g[i][j] != 1,
    ensures
        live_count(g) == 0,
{
    lemma_grid_all_dead(g, g.len() as int);
}

/// The whole state of the simulation: dimensions, a generation counter, the
/// number of living cells, and the grid itself.
pub struct SimulationState {
    pub width: usize,
    pub height: usize,
    pub generation: u32,
    pub living: u32,
    pub world: Vec<Vec<u8>>,
}

impl SimulationState {
    /// The mathematical view of this state's grid.
    pub open spec fn grid(&self) -> Seq<Seq<u8>> {
        grid_of(self.world@)
    }

    /// Well-formedness: the grid matches the declared dimensions, every cell
    /// is 0 or 1, the cell total fits a u32, and `living` is exactly the
    /// number of live cells.
    pub open spec fn wf(&self) -> bool {
        &&& self.grid().len() == self.height
        &&& grid_rect(self.grid(), self.width as int)
        &&& cells_binary(self.grid())
        &&& self.width * self.height <= u32::MAX
        &&& self.living == live_count(self.grid())
    }

    /// Build an all-dead state of the given dimensions, at generation 0.
    pub fn new_dead(width: usize, height: usize) -> (s: SimulationState)
        requires
            width * height <= u32::MAX,
        ensures
            s.wf(),
            s.width == width,
            s.height == height,
            s.generation == 0,
            s.living == 0,
            forall|i: int, j: int| 0 <= i < height && 0 <= j < width ==> s.grid()[i][j] == 0,
    {
        let mut world: Vec<Vec<u8>> = Vec::new();
        let mut x: usize = 0;
        while x < height
            invariant
                x <= height,
                world@.len() == x,
                forall|i: int| 0 <= i < x ==> (#[trigger] world@[i])@.len() == width,
                forall|i: int, j: int|
                    0 <= i < x && 0 <= j < width ==> (#[trigger] world@[i]@[j]) == 0,
                live_to(grid_of(world@), x as int) == 0,
            decreases height - x,
        {
            let mut row: Vec<u8> = Vec::new();
            let mut y: usize = 0;
            while y < width
                invariant
                    y <= width,
                    row@.len() == y,
                    forall|j: int| 0 <= j < y ==> row@[j] == 0,
                    row_live_to(row@, y as int) == 0,
                decreases width - y,
            {
                let ghost prev = row@;
                row.push(0u8);
                proof {
                    lemma_row_live_to_agree(prev, row@, y as int);
                }
                y = y + 1;
            }
            let ghost prev_world = world@;
            world.push(row);
            proof {
                lemma_live_to_agree(grid_of(prev_world), grid_of(world@), x as int);
            }
            x = x + 1;
        }
        SimulationState { width, height, generation: 0, living: 0, world }
    }
}

} // verus!
