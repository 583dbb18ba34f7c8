//! What becomes of some well-known configurations.

use crate::grid::{
    in_bounds,
    lemma_index_of_position,
    lemma_position_of_index,
    lemma_step_alive,
    Grid,
};
use vstd::prelude::*;

verus! {

/// Two grids of the same size in which the same positions are alive are the
/// same grid.
pub proof fn lemma_same_cells(a: Grid, b: Grid)
    requires
        a.wf(),
        b.wf(),
        a.width == b.width,
        a.height == b.height,
        forall|x: int, y: int|
            in_bounds(a.width, a.height, x, y) ==> a.alive(x, y) == b.alive(x, y),
    ensures
        a == b,
{
    assert forall|i: int| 0 <= i < a.cells.len() implies a.cells[i] == b.cells[i] by {
        lemma_position_of_index(a.width, a.height, i);
        let x = i % (a.width as int);
        let y = i / (a.width as int);
        assert(a.alive(x, y) == b.alive(x, y));
    }
    assert(a =~= b);
}

/// In a dead grid no position is alive.
proof fn lemma_dead_positions(grid: Grid, x: int, y: int)
    requires
        grid.wf(),
        grid.is_dead(),
    ensures
        !grid.alive(x, y),
        grid.population(x, y) == 0,
{
    if in_bounds(grid.width, grid.height, x, y) {
        lemma_index_of_position(grid.width, grid.height, x, y);
    }
}

/// A grid in which no position is alive is dead.
proof fn lemma_no_position_alive(grid: Grid)
    requires
        grid.wf(),
        forall|x: int, y: int| in_bounds(grid.width, grid.height, x, y) ==> !grid.alive(x, y),
    ensures
        grid.is_dead(),
{
    assert forall|i: int| 0 <= i < grid.cells.len() implies !grid.cells[i] by {
        lemma_position_of_index(grid.width, grid.height, i);
        assert(!grid.alive(i % (grid.width as int), i / (grid.width as int)));
    }
}

/// Nothing comes from nothing: a grid without a live cell has none after any
/// number of generations, and is the same grid as before.
pub proof fn lemma_dead_stays_dead(grid: Grid, n: nat)
    requires
        grid.wf(),
        grid.is_dead(),
    ensures
        grid.steps(n) == grid,
        grid.steps(n).is_dead(),
    decreases n,
{
    if n > 0 {
        assert forall|x: int, y: int| in_bounds(grid.width, grid.height, x, y) implies grid.step().alive(
            x,
            y,
        ) == grid.alive(x, y) by {
            lemma_step_alive(grid, x, y);
            lemma_dead_positions(grid, x, y);
            lemma_dead_positions(grid, x - 1, y + 1);
            lemma_dead_positions(grid, x, y + 1);
            lemma_dead_positions(grid, x + 1, y + 1);
            lemma_dead_positions(grid, x - 1, y);
            lemma_dead_positions(grid, x + 1, y);
            lemma_dead_positions(grid, x - 1, y - 1);
            lemma_dead_positions(grid, x, y - 1);
            lemma_dead_positions(grid, x + 1, y - 1);
        }
        lemma_same_cells(grid.step(), grid);
        lemma_dead_stays_dead(grid, (n - 1) as nat);
    }
}

/// A live cell without a live neighbour is dead in the next generation.
pub proof fn lemma_isolated_cell_dies(grid: Grid, x: int, y: int)
    requires
        grid.wf(),
        grid.alive(x, y),
        grid.live_neighbours(x, y) == 0,
    ensures
        !grid.step().alive(x, y),
{
    lemma_step_alive(grid, x, y);
}

/// A grid whose only live cell is the one at `(x, y)` is dead after one
/// generation and stays so ever after.
pub proof fn lemma_lone_cell_dies_out(grid: Grid, x: int, y: int, n: nat)
    requires
        grid.wf(),
        forall|a: int, b: int| grid.alive(a, b) <==> a == x && b == y,
        n >= 1,
    ensures
        grid.live_neighbours(x, y) == 0,
        grid.step().is_dead(),
        grid.steps(n).is_dead(),
{
    assert forall|a: int, b: int| in_bounds(grid.width, grid.height, a, b) implies !grid.step().alive(
        a,
        b,
    ) by {
        lemma_step_alive(grid, a, b);
        assert(grid.live_neighbours(a, b) <= 1);
    }
    assert(grid.alive(x, y));
    lemma_step_alive(grid, x, y);
    lemma_no_position_alive(grid.step());
    lemma_dead_stays_dead(grid.step(), (n - 1) as nat);
}

/// The live cells of `grid` are exactly the square of two by two cells whose
/// upper left corner is `(x, y)`.
pub open spec fn is_block(grid: Grid, x: int, y: int) -> bool {
    forall|a: int, b: int| grid.alive(a, b) <==> x <= a <= x + 1 && y <= b <= y + 1
}

/// The block is a still life: a grid whose live cells are a square of two by
/// two stays as it is through any number of generations, wherever in the grid
/// the square lies.
pub proof fn lemma_block_is_still(grid: Grid, x: int, y: int, n: nat)
    requires
        grid.wf(),
        is_block(grid, x, y),
    ensures
        grid.step() == grid,
        grid.steps(n) == grid,
    decreases n,
{
    assert forall|a: int, b: int| in_bounds(grid.width, grid.height, a, b) implies grid.step().alive(
        a,
        b,
    ) == grid.alive(a, b) by {
        lemma_step_alive(grid, a, b);
    }
    assert(grid.alive(x, y));
    lemma_step_alive(grid, x, y);
    lemma_same_cells(grid.step(), grid);
    if n > 0 {
        lemma_block_is_still(grid, x, y, (n - 1) as nat);
    }
}

/// The live cells of `grid` are exactly the three cells of row `y` around
/// column `x`.
pub open spec fn is_horizontal_blinker(grid: Grid, x: int, y: int) -> bool {
    forall|a: int, b: int| grid.alive(a, b) <==> b == y && x - 1 <= a <= x + 1
}

/// The live cells of `grid` are exactly the three cells of column `x` around
/// row `y`.
pub open spec fn is_vertical_blinker(grid: Grid, x: int, y: int) -> bool {
    forall|a: int, b: int| grid.alive(a, b) <==> a == x && y - 1 <= b <= y + 1
}

/// Three live cells side by side, with room above and below the middle one,
/// stand one above the other in the next generation.
pub proof fn lemma_blinker_turns_upright(grid: Grid, x: int, y: int)
    requires
        grid.wf(),
        is_horizontal_blinker(grid, x, y),
        in_bounds(grid.width, grid.height, x, y - 1),
        in_bounds(grid.width, grid.height, x, y + 1),
    ensures
        grid.step().wf(),
        is_vertical_blinker(grid.step(), x, y),
{
    lemma_step_alive(grid, x, y);
    assert forall|a: int, b: int| grid.step().alive(a, b) <==> a == x && y - 1 <= b <= y + 1 by {
        if in_bounds(grid.width, grid.height, a, b) {
            lemma_step_alive(grid, a, b);
        }
    }
}

/// Three live cells one above the other, with room to the left and to the
/// right of the middle one, lie side by side in the next generation.
pub proof fn lemma_blinker_lies_down(grid: Grid, x: int, y: int)
    requires
        grid.wf(),
        is_vertical_blinker(grid, x, y),
        in_bounds(grid.width, grid.height, x - 1, y),
        in_bounds(grid.width, grid.height, x + 1, y),
    ensures
        grid.step().wf(),
        is_horizontal_blinker(grid.step(), x, y),
{
    lemma_step_alive(grid, x, y);
    assert forall|a: int, b: int| grid.step().alive(a, b) <==> b == y && x - 1 <= a <= x + 1 by {
        if in_bounds(grid.width, grid.height, a, b) {
            lemma_step_alive(grid, a, b);
        }
    }
}

/// The blinker oscillates with period two: three live cells side by side in
/// open space stand upright after one generation and are back as they were
/// after two.
pub proof fn lemma_blinker_oscillates(grid: Grid, x: int, y: int)
    requires
        grid.wf(),
        is_horizontal_blinker(grid, x, y),
        in_bounds(grid.width, grid.height, x, y - 1),
        in_bounds(grid.width, grid.height, x, y + 1),
    ensures
        is_vertical_blinker(grid.step(), x, y),
        grid.step().step() == grid,
        grid.steps(2) == grid,
{
    lemma_blinker_turns_upright(grid, x, y);
    assert(grid.alive(x - 1, y) && grid.alive(x + 1, y));
    lemma_blinker_lies_down(grid.step(), x, y);
    lemma_same_cells(grid.step().step(), grid);
    reveal_with_fuel(Grid::steps, 3);
}

} // verus!
