//! The mathematical model of the grid: which positions exist, which cells
//! neighbour which, how one generation follows from the last and what the
//! rendered text looks like.

use crate::cell::{symbol, ALIVE_SYMBOL, DEAD_SYMBOL};
use crate::rules::next_alive;
use vstd::arithmetic::div_mod::{
    lemma_fundamental_div_mod,
    lemma_fundamental_div_mod_converse,
    lemma_mod_bound,
    lemma_multiply_divide_lt,
    lemma_div_pos_is_pos,
};
use vstd::prelude::*;

verus! {

/// The offset `(dx, dy)` of the `k`-th neighbouring position, for `k` from 0
/// to 7: first the row at `y + 1` from left to right, then the positions to
/// the left and to the right, then the row at `y - 1` from left to right.
pub open spec fn direction(k: int) -> (int, int) {
    if k == 0 {
        (-1, 1)
    } else if k == 1 {
        (0, 1)
    } else if k == 2 {
        (1, 1)
    } else if k == 3 {
        (-1, 0)
    } else if k == 4 {
        (1, 0)
    } else if k == 5 {
        (-1, -1)
    } else if k == 6 {
        (0, -1)
    } else {
        (1, -1)
    }
}

/// Whether `(x, y)` is a position of a grid of the given size.
pub open spec fn in_bounds(width: nat, height: nat, x: int, y: int) -> bool {
    0 <= x < width && 0 <= y < height
}

/// Where the cell at `(x, y)` stands when the rows are laid end to end.
pub open spec fn index_of(width: nat, x: int, y: int) -> int {
    y * width + x
}

/// The indices of those of the first `k` neighbouring positions of `(x, y)`
/// that lie inside the grid, in the order of [`direction`].
pub open spec fn neighbours_within(width: nat, height: nat, x: int, y: int, k: nat) -> Seq<int>
    decreases k,
{
    if k == 0 {
        Seq::empty()
    } else {
        let before = neighbours_within(width, height, x, y, (k - 1) as nat);
        let (dx, dy) = direction(k - 1);
        if in_bounds(width, height, x + dx, y + dy) {
            before.push(index_of(width, x + dx, y + dy))
        } else {
            before
        }
    }
}

/// The indices of the neighbours of `(x, y)`: the up to eight adjacent
/// positions that lie inside the grid. The grid does not wrap around.
pub open spec fn neighbours(width: nat, height: nat, x: int, y: int) -> Seq<int> {
    neighbours_within(width, height, x, y, 8)
}

/// A grid of cells, each alive or dead, stored row by row from the top.
#[verifier::ext_equal]
pub struct Grid {
    pub width: nat,
    pub height: nat,
    pub cells: Seq<bool>,
}

impl Grid {
    /// There is exactly one cell for each position.
    pub open spec fn wf(self) -> bool {
        self.cells.len() == self.width * self.height
    }

    /// Whether the cell at `(x, y)` is alive. Outside the grid nothing is.
    pub open spec fn alive(self, x: int, y: int) -> bool {
        in_bounds(self.width, self.height, x, y) && self.cells[index_of(self.width, x, y)]
    }

    /// No cell is alive.
    pub open spec fn is_dead(self) -> bool {
        forall|i: int| 0 <= i < self.cells.len() ==> !self.cells[i]
    }

    /// One if the cell at `(x, y)` is alive, else zero.
    pub open spec fn population(self, x: int, y: int) -> nat {
        if self.alive(x, y) {
            1
        } else {
            0
        }
    }

    /// How many of the eight positions around `(x, y)` hold a live cell.
    pub open spec fn live_neighbours(self, x: int, y: int) -> nat {
        self.population(x - 1, y + 1) + self.population(x, y + 1) + self.population(x + 1, y + 1)
            + self.population(x - 1, y) + self.population(x + 1, y) + self.population(
            x - 1,
            y - 1,
        ) + self.population(x, y - 1) + self.population(x + 1, y - 1)
    }

    /// How many of the cells at the given indices are alive.
    pub open spec fn live_among(self, indices: Seq<int>) -> nat
        decreases indices.len(),
    {
        if indices.len() == 0 {
            0
        } else {
            self.live_among(indices.drop_last()) + if self.cells[indices.last()] {
                1nat
            } else {
                0nat
            }
        }
    }

    /// The next generation: every cell follows the rule, all at once, on the
    /// neighbour counts of this generation.
    pub open spec fn step(self) -> Grid {
        Grid {
            width: self.width,
            height: self.height,
            cells: Seq::new(
                self.cells.len(),
                |i: int|
                    next_alive(
                        self.cells[i],
                        self.live_neighbours(i % (self.width as int), i / (self.width as int)) as int,
                    ),
            ),
        }
    }

    /// The grid after `n` generations.
    pub open spec fn steps(self, n: nat) -> Grid
        decreases n,
    {
        if n == 0 {
            self
        } else {
            self.step().steps((n - 1) as nat)
        }
    }

    /// Row `y` as text: one symbol for each cell from left to right, then a
    /// line feed.
    pub open spec fn line(self, y: int) -> Seq<char> {
        Seq::new(self.width, |x: int| symbol(self.alive(x, y))).push('\n')
    }

    /// The first `n` rows as text.
    pub open spec fn lines(self, n: nat) -> Seq<char>
        decreases n,
    {
        if n == 0 {
            Seq::empty()
        } else {
            self.lines((n - 1) as nat) + self.line(n - 1)
        }
    }

    /// The whole grid as text, row by row from the top.
    pub open spec fn rendering(self) -> Seq<char> {
        self.lines(self.height)
    }
}

/// The index of a position inside the grid is an index into the cell list,
/// and it determines the position.
pub proof fn lemma_index_of_position(width: nat, height: nat, x: int, y: int)
    requires
        in_bounds(width, height, x, y),
    ensures
        0 <= index_of(width, x, y) < width * height,
        index_of(width, x, y) % (width as int) == x,
        index_of(width, x, y) / (width as int) == y,
{
    let w = width as int;
    let h = height as int;
    assert(0 <= y * w && y * w + w <= h * w) by (nonlinear_arith)
        requires
            0 <= y < h,
            0 <= w,
    ;
    assert(h * w == w * h) by (nonlinear_arith);
    lemma_fundamental_div_mod_converse(y * w + x, w, y, x);
}

/// Every index into the cell list is the index of exactly one position
/// inside the grid: column `i % width` of row `i / width`.
pub proof fn lemma_position_of_index(width: nat, height: nat, i: int)
    requires
        0 <= i < width * height,
    ensures
        in_bounds(width, height, i % (width as int), i / (width as int)),
        index_of(width, i % (width as int), i / (width as int)) == i,
{
    let w = width as int;
    let h = height as int;
    assert(w > 0) by (nonlinear_arith)
        requires
            0 <= i < w * h,
            0 <= w,
            0 <= h,
    ;
    lemma_fundamental_div_mod(i, w);
    lemma_mod_bound(i, w);
    lemma_div_pos_is_pos(i, w);
    lemma_multiply_divide_lt(i, w, h);
    assert(w * (i / w) == (i / w) * w) by (nonlinear_arith);
}

/// A cell has at most eight neighbours, and each is an index into the cell
/// list.
pub proof fn lemma_neighbours_in_range(width: nat, height: nat, x: int, y: int, k: nat)
    ensures
        neighbours_within(width, height, x, y, k).len() <= k,
        forall|j: int|
            0 <= j < neighbours_within(width, height, x, y, k).len() ==> 0
                <= #[trigger] neighbours_within(width, height, x, y, k)[j] < width * height,
    decreases k,
{
    if k > 0 {
        lemma_neighbours_in_range(width, height, x, y, (k - 1) as nat);
        let (dx, dy) = direction(k - 1);
        if in_bounds(width, height, x + dx, y + dy) {
            lemma_index_of_position(width, height, x + dx, y + dy);
        }
    }
}

/// How many of the first `k` neighbouring positions of `(x, y)` hold a live
/// cell.
spec fn live_within(grid: Grid, x: int, y: int, k: nat) -> nat
    decreases k,
{
    if k == 0 {
        0
    } else {
        let (dx, dy) = direction(k - 1);
        live_within(grid, x, y, (k - 1) as nat) + grid.population(x + dx, y + dy)
    }
}

proof fn lemma_live_among_within(grid: Grid, x: int, y: int, k: nat)
    ensures
        grid.live_among(neighbours_within(grid.width, grid.height, x, y, k)) == live_within(
            grid,
            x,
            y,
            k,
        ),
    decreases k,
{
    if k > 0 {
        lemma_live_among_within(grid, x, y, (k - 1) as nat);
        let before = neighbours_within(grid.width, grid.height, x, y, (k - 1) as nat);
        let (dx, dy) = direction(k - 1);
        if in_bounds(grid.width, grid.height, x + dx, y + dy) {
            let index = index_of(grid.width, x + dx, y + dy);
            assert(before.push(index).drop_last() =~= before);
        }
    }
}

/// Counting the live cells among the neighbours of `(x, y)` gives the number
/// of live cells around `(x, y)`.
pub proof fn lemma_live_among_neighbours(grid: Grid, x: int, y: int)
    ensures
        grid.live_among(neighbours(grid.width, grid.height, x, y)) == grid.live_neighbours(x, y),
{
    lemma_live_among_within(grid, x, y, 8);
    reveal_with_fuel(live_within, 9);
}

/// One generation applies the rule to every cell at once. A dead cell with
/// exactly three live neighbours is alive in the next generation, and a live
/// cell with two or three stays alive; a live cell with fewer than two or more
/// than three is dead in the next generation, and a dead cell with any number
/// but three stays dead.
pub proof fn lemma_step_alive(grid: Grid, x: int, y: int)
    requires
        grid.wf(),
        in_bounds(grid.width, grid.height, x, y),
    ensures
        grid.step().wf(),
        grid.step().alive(x, y) == next_alive(grid.alive(x, y), grid.live_neighbours(x, y) as int),
        !grid.alive(x, y) && grid.live_neighbours(x, y) == 3 ==> grid.step().alive(x, y),
        !grid.alive(x, y) && grid.live_neighbours(x, y) != 3 ==> !grid.step().alive(x, y),
        grid.alive(x, y) && 2 <= grid.live_neighbours(x, y) <= 3 ==> grid.step().alive(x, y),
        grid.alive(x, y) && (grid.live_neighbours(x, y) < 2 || grid.live_neighbours(x, y) > 3)
            ==> !grid.step().alive(x, y),
{
    lemma_index_of_position(grid.width, grid.height, x, y);
}

/// The cells of a grid stay where they are: after any number of generations
/// the grid has the size it had.
pub proof fn lemma_steps_keep_size(grid: Grid, n: nat)
    requires
        grid.wf(),
    ensures
        grid.steps(n).wf(),
        grid.steps(n).width == grid.width,
        grid.steps(n).height == grid.height,
    decreases n,
{
    if n > 0 {
        lemma_steps_keep_size(grid.step(), (n - 1) as nat);
    }
}

/// The corners of the grid.
pub open spec fn is_corner(width: nat, height: nat, x: int, y: int) -> bool {
    (x == 0 || x == width - 1) && (y == 0 || y == height - 1)
}

/// The outermost rows and columns of the grid.
pub open spec fn is_edge(width: nat, height: nat, x: int, y: int) -> bool {
    x == 0 || x == width - 1 || y == 0 || y == height - 1
}

/// The grid does not wrap around: a cell in a corner has at most three
/// neighbours and a cell on an edge at most five. In a grid of at least two
/// rows and two columns a corner cell has exactly three, and in one of at
/// least three rows and three columns an edge cell that is not a corner has
/// exactly five and every other cell eight. No cell has more live neighbours
/// than it has neighbours.
pub proof fn lemma_boundary_neighbours(grid: Grid, x: int, y: int)
    requires
        in_bounds(grid.width, grid.height, x, y),
    ensures
        is_corner(grid.width, grid.height, x, y) ==> neighbours(grid.width, grid.height, x, y).len()
            <= 3,
        is_edge(grid.width, grid.height, x, y) ==> neighbours(grid.width, grid.height, x, y).len()
            <= 5,
        neighbours(grid.width, grid.height, x, y).len() <= 8,
        grid.width >= 2 && grid.height >= 2 && is_corner(grid.width, grid.height, x, y)
            ==> neighbours(grid.width, grid.height, x, y).len() == 3,
        grid.width >= 3 && grid.height >= 3 && is_edge(grid.width, grid.height, x, y)
            && !is_corner(grid.width, grid.height, x, y) ==> neighbours(
            grid.width,
            grid.height,
            x,
            y,
        ).len() == 5,
        !is_edge(grid.width, grid.height, x, y) ==> neighbours(grid.width, grid.height, x, y).len()
            == 8,
        grid.live_neighbours(x, y) <= neighbours(grid.width, grid.height, x, y).len(),
{
    reveal_with_fuel(neighbours_within, 9);
}

/// The character of column `x` in line `y` of a text whose lines all hold
/// `width` characters and a line feed. Column `width` is the line feed.
pub open spec fn char_at(text: Seq<char>, width: nat, x: int, y: int) -> char {
    text[y * (width + 1) + x]
}

proof fn lemma_lines_shape(grid: Grid, n: nat)
    ensures
        grid.lines(n).len() == n * (grid.width + 1),
        forall|x: int, y: int|
            0 <= y < n && 0 <= x <= grid.width ==> #[trigger] char_at(
                grid.lines(n),
                grid.width,
                x,
                y,
            ) == grid.line(y)[x],
    decreases n,
{
    let w = grid.width as int;
    if n > 0 {
        let before = grid.lines((n - 1) as nat);
        lemma_lines_shape(grid, (n - 1) as nat);
        assert((n - 1) * (w + 1) + (w + 1) == n * (w + 1)) by (nonlinear_arith);
        assert forall|x: int, y: int| 0 <= y < n && 0 <= x <= w implies #[trigger] char_at(
            grid.lines(n),
            grid.width,
            x,
            y,
        ) == grid.line(y)[x] by {
            if y < n - 1 {
                assert(0 <= y * (w + 1) && y * (w + 1) + (w + 1) <= (n - 1) * (w + 1))
                    by (nonlinear_arith)
                    requires
                        0 <= y < n - 1,
                        0 <= w,
                ;
                assert(char_at(before, grid.width, x, y) == grid.line(y)[x]);
            }
        }
    } else {
        assert(n * (w + 1) == 0) by (nonlinear_arith)
            requires
                n == 0,
        ;
    }
}

/// The rendered text has one line for each row. Each line holds one symbol
/// for each cell of its row, alive or dead, from left to right, and then a
/// line feed; the text holds nothing else.
pub proof fn lemma_rendering_shape(grid: Grid)
    ensures
        grid.rendering().len() == grid.height * (grid.width + 1),
        forall|x: int, y: int|
            in_bounds(grid.width, grid.height, x, y) ==> #[trigger] char_at(
                grid.rendering(),
                grid.width,
                x,
                y,
            ) == symbol(grid.alive(x, y)),
        forall|x: int, y: int|
            in_bounds(grid.width, grid.height, x, y) ==> {
                ||| #[trigger] char_at(grid.rendering(), grid.width, x, y) == ALIVE_SYMBOL
                ||| char_at(grid.rendering(), grid.width, x, y) == DEAD_SYMBOL
            },
        forall|y: int|
            0 <= y < grid.height ==> #[trigger] char_at(
                grid.rendering(),
                grid.width,
                grid.width as int,
                y,
            ) == '\n',
{
    lemma_lines_shape(grid, grid.height);
    assert forall|x: int, y: int| in_bounds(grid.width, grid.height, x, y) implies #[trigger] char_at(
        grid.rendering(),
        grid.width,
        x,
        y,
    ) == symbol(grid.alive(x, y)) by {
        assert(grid.line(y)[x] == symbol(grid.alive(x, y)));
    }
    assert forall|y: int| 0 <= y < grid.height implies #[trigger] char_at(
        grid.rendering(),
        grid.width,
        grid.width as int,
        y,
    ) == '\n' by {
        assert(grid.line(y)[grid.width as int] == '\n');
    }
}

} // verus!
