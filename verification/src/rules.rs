//! The transition rule for a single cell.

use vstd::prelude::*;

verus! {

/// What the rule decides for a cell, given whether it is alive and how many of
/// its neighbours are: `Some(true)` to come alive, `Some(false)` to die, and
/// `None` where the rule leaves the cell as it is.
pub open spec fn decision(alive: bool, alive_neighbours: int) -> Option<bool> {
    if !alive && alive_neighbours == 3 {
        Some(true)
    } else if alive && (alive_neighbours < 2 || alive_neighbours > 3) {
        Some(false)
    } else {
        None
    }
}

/// Whether a cell is alive in the next generation.
pub open spec fn next_alive(alive: bool, alive_neighbours: int) -> bool {
    match decision(alive, alive_neighbours) {
        Some(state) => state,
        None => alive,
    }
}

/// Decides the next state of a cell from its own state and the number of its
/// neighbours that are alive.
pub fn decide(alive: bool, alive_neighbours: u8) -> (next_state: Option<bool>)
    ensures
        next_state == decision(alive, alive_neighbours as int),
{
    if !alive && alive_neighbours == 3 {
        Some(true)
    } else if alive && (alive_neighbours < 2 || alive_neighbours > 3) {
        Some(false)
    } else {
        None
    }
}

/// A dead cell with exactly three live neighbours comes alive; a live cell
/// with fewer than two or more than three dies; every other cell keeps its
/// state, so a live cell survives exactly with two or three live neighbours.
pub proof fn lemma_rule_cases(alive: bool, alive_neighbours: int)
    ensures
        !alive && alive_neighbours == 3 ==> next_alive(alive, alive_neighbours),
        alive && (alive_neighbours < 2 || alive_neighbours > 3) ==> !next_alive(
            alive,
            alive_neighbours,
        ),
        alive && 2 <= alive_neighbours <= 3 ==> next_alive(alive, alive_neighbours),
        !alive && alive_neighbours != 3 ==> !next_alive(alive, alive_neighbours),
        next_alive(alive, alive_neighbours) <==> alive_neighbours == 3 || (alive
            && alive_neighbours == 2),
{
}

} // verus!
