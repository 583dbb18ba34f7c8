//! One position of the grid.

use vstd::prelude::*;

verus! {

/// The character that stands for a live cell.
pub const ALIVE_SYMBOL: char = 'o';

/// The character that stands for a dead cell.
pub const DEAD_SYMBOL: char = ' ';

/// The character that shows a cell's state.
pub open spec fn symbol(alive: bool) -> char {
    if alive {
        ALIVE_SYMBOL
    } else {
        DEAD_SYMBOL
    }
}

/// The state of one grid position.
#[derive(Debug)]
pub struct Cell {
    /// Column, counted from the left.
    pub x: u32,
    /// Row, counted from the top.
    pub y: u32,
    /// Whether the cell is alive in the current generation.
    pub alive: bool,
    /// The state decided for the next generation and not yet applied.
    pub next_state: Option<bool>,
    /// Positions of the neighbouring cells in the world's cell list, once
    /// they have been looked up.
    pub neighbours: Option<Vec<usize>>,
}

impl Cell {
    /// A cell at `(x, y)` with nothing pending and no neighbours looked up.
    pub fn new(x: u32, y: u32, alive: bool) -> (cell: Cell)
        ensures
            cell.x == x,
            cell.y == y,
            cell.alive == alive,
            cell.next_state is None,
            cell.neighbours is None,
    {
        Cell { x, y, alive, next_state: None, neighbours: None }
    }

    /// The character that shows this cell.
    pub fn to_char(&self) -> (c: char)
        ensures
            c == symbol(self.alive),
    {
        if self.alive {
            ALIVE_SYMBOL
        } else {
            DEAD_SYMBOL
        }
    }

    /// Records the state decided for the next generation, replacing any
    /// earlier decision. The current state is left alone.
    pub fn next_state_is(&mut self, value: Option<bool>)
        ensures
            final(self).next_state == value,
            final(self).x == old(self).x,
            final(self).y == old(self).y,
            final(self).alive == old(self).alive,
            final(self).neighbours == old(self).neighbours,
    {
        self.next_state = value;
    }

    /// Makes the pending decision, if there is one, the current state and
    /// clears it.
    pub fn apply_pending_state(&mut self)
        ensures
            final(self).alive == match old(self).next_state {
                Some(state) => state,
                None => old(self).alive,
            },
            final(self).next_state is None,
            final(self).x == old(self).x,
            final(self).y == old(self).y,
            final(self).neighbours == old(self).neighbours,
    {
        match self.next_state {
            Some(state) => {
                self.alive = state;
            },
            None => {},
        }
        self.next_state = None;
    }
}

} // verus!
