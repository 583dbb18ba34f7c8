//! The world: the grid of cells and its generations.

use crate::cell::{symbol, Cell};
use crate::chance::one_chance_in;
use crate::grid::{
    direction,
    in_bounds,
    index_of,
    lemma_index_of_position,
    lemma_live_among_neighbours,
    lemma_neighbours_in_range,
    neighbours,
    neighbours_within,
    Grid,
};
use crate::rules::{decide, decision};
use vstd::prelude::*;

verus! {

/// A fixed grid of cells that lives through generations.
pub struct World {
    width: u32,
    height: u32,
    tick_count: u32,
    cells: Vec<Cell>,
}

/// A list of positions in the cell list, as the model counts them.
pub open spec fn as_indices(list: Seq<usize>) -> Seq<int> {
    list.map_values(|index: usize| index as int)
}

impl View for World {
    type V = Grid;

    /// The size of the grid and the state of each cell, row by row.
    closed spec fn view(&self) -> Grid {
        Grid {
            width: self.width as nat,
            height: self.height as nat,
            cells: Seq::new(self.cells@.len(), |i: int| self.cells@[i].alive),
        }
    }
}

/// A new cell is alive with a chance of one in this many.
pub const ALIVE_ODDS: u32 = 5;

/// `String::push` appends the character to the end of the string.
pub assume_specification[ String::push ](text: &mut String, ch: char)
    ensures
        final(text)@ == old(text)@.push(ch),
;

/// Draws the states of `count` cells, each alive with a chance of one in
/// [`ALIVE_ODDS`], independently of the others.
fn random_states(count: usize) -> (states: Vec<bool>)
    ensures
        states@.len() == count,
{
    let mut states: Vec<bool> = Vec::new();
    while states.len() < count
        invariant
            states@.len() <= count,
        decreases count - states@.len(),
    {
        states.push(one_chance_in(ALIVE_ODDS));
    }
    states
}

/// The `k`-th of the eight offsets at which a cell's neighbours lie.
fn nth_direction(k: usize) -> (offset: (i8, i8))
    requires
        k < 8,
    ensures
        (offset.0 as int, offset.1 as int) == direction(k as int),
{
    if k == 0 {
        (-1, 1)
    } else if k == 1 {
        (0, 1)
    } else if k == 2 {
        (1, 1)
    } else if k == 3 {
        (-1, 0)
    } else if k == 4 {
        (1, 0)
    } else if k == 5 {
        (-1, -1)
    } else if k == 6 {
        (0, -1)
    } else {
        (1, -1)
    }
}

impl World {
    /// If `cell` has looked up its neighbours, they are the neighbours of its
    /// position in this world.
    pub open spec fn cache_holds(&self, cell: &Cell) -> bool {
        cell.neighbours matches Some(list) ==> as_indices(list@) == neighbours(
            self@.width,
            self@.height,
            cell.x as int,
            cell.y as int,
        )
    }

    /// Every position of the grid has its cell, in its place in the cell
    /// list, and no cell remembers wrong neighbours.
    pub closed spec fn laid_out(&self) -> bool {
        &&& self.width >= 1
        &&& self.height >= 1
        &&& self.cells@.len() == self.width * self.height
        &&& forall|i: int|
            0 <= i < self.cells@.len() ==> {
                &&& (#[trigger] self.cells@[i]).x == i % (self.width as int)
                &&& self.cells@[i].y == i / (self.width as int)
                &&& self.cache_holds(&self.cells@[i])
            }
    }

    /// Between generations: no decision is pending and every cell has looked
    /// up its neighbours.
    pub closed spec fn settled(&self) -> bool {
        forall|i: int|
            0 <= i < self.cells@.len() ==> {
                &&& (#[trigger] self.cells@[i]).next_state is None
                &&& self.cells@[i].neighbours is Some
            }
    }

    /// The invariant of a world between two calls.
    pub open spec fn wf(&self) -> bool {
        self.laid_out() && self.settled()
    }

    /// The model of a world has one cell for each position.
    pub proof fn lemma_grid_wf(&self)
        requires
            self.laid_out(),
        ensures
            self@.wf(),
            self@.width >= 1,
            self@.height >= 1,
    {
    }

    /// How many generations have passed since the world was made.
    pub closed spec fn spec_tick_count(&self) -> u32 {
        self.tick_count
    }

    /// How many generations have passed since the world was made.
    #[verifier::when_used_as_spec(spec_tick_count)]
    pub fn tick_count(&self) -> (count: u32)
        ensures
            count == self.tick_count(),
    {
        self.tick_count
    }

    /// The number of columns.
    pub fn width(&self) -> (width: u32)
        ensures
            width == self@.width,
    {
        self.width
    }

    /// The number of rows.
    pub fn height(&self) -> (height: u32)
        ensures
            height == self@.height,
    {
        self.height
    }

    /// The first `n` cells are in their places in the cell list, with nothing
    /// pending and no neighbours looked up.
    spec fn placed(&self, n: int) -> bool {
        &&& self.cells@.len() == n
        &&& forall|i: int|
            0 <= i < n ==> {
                &&& (#[trigger] self.cells@[i]).x == i % (self.width as int)
                &&& self.cells@[i].y == i / (self.width as int)
                &&& self.cells@[i].next_state is None
                &&& self.cells@[i].neighbours is None
            }
    }

    /// A world of `width` columns and `height` rows in which each cell is
    /// alive with a chance of one in [`ALIVE_ODDS`], drawn afresh for every
    /// world. Every cell has its neighbours looked up.
    pub fn new(width: u32, height: u32) -> (world: World)
        requires
            width >= 1,
            height >= 1,
            width * height <= usize::MAX,
        ensures
            world.wf(),
            world@.wf(),
            world@.width == width,
            world@.height == height,
            world.tick_count() == 0,
    {
        assert(0 <= width * height) by (nonlinear_arith);
        let states = random_states(width as usize * height as usize);
        World::from_states(width, height, &states)
    }

    /// A world of `width` columns and `height` rows whose cells have the given
    /// states, row by row from the top: the cell at `(x, y)` is alive exactly
    /// if `states[y * width + x]` is. Every cell has its neighbours looked up.
    pub fn from_states(width: u32, height: u32, states: &Vec<bool>) -> (world: World)
        requires
            width >= 1,
            height >= 1,
            states@.len() == width * height,
        ensures
            world.wf(),
            world@ == (Grid { width: width as nat, height: height as nat, cells: states@ }),
            world.tick_count() == 0,
    {
        let mut world = World { width, height, tick_count: 0, cells: Vec::new() };
        world.populate_cells(states);
        world.prepopulate_neighbours();
        assert(world@ =~= (Grid { width: width as nat, height: height as nat, cells: states@ }));
        world
    }

    /// Makes the cells, row by row, with the given states.
    fn populate_cells(&mut self, states: &Vec<bool>)
        requires
            old(self).width >= 1,
            old(self).height >= 1,
            old(self).cells@.len() == 0,
            states@.len() == old(self).width * old(self).height,
        ensures
            final(self).width == old(self).width,
            final(self).height == old(self).height,
            final(self).tick_count == old(self).tick_count,
            final(self).placed(states@.len() as int),
            forall|i: int| 0 <= i < states@.len() ==> final(self).cells@[i].alive == states@[i],
    {
        let mut y: u32 = 0;
        while y < self.height
            invariant
                y <= self.height,
                self.width == old(self).width >= 1,
                self.height == old(self).height,
                self.tick_count == old(self).tick_count,
                states@.len() == self.width * self.height,
                self.placed(y * self.width),
                forall|i: int|
                    0 <= i < self.cells@.len() && i < states@.len() ==> self.cells@[i].alive
                        == states@[i],
            decreases self.height - y,
        {
            let mut x: u32 = 0;
            while x < self.width
                invariant
                    x <= self.width,
                    y < self.height,
                    self.width == old(self).width >= 1,
                    self.height == old(self).height,
                    self.tick_count == old(self).tick_count,
                    states@.len() == self.width * self.height,
                    self.placed(y * self.width + x),
                    forall|i: int|
                        0 <= i < self.cells@.len() && i < states@.len() ==> self.cells@[i].alive
                            == states@[i],
                decreases self.width - x,
            {
                proof {
                    lemma_index_of_position(
                        self.width as nat,
                        self.height as nat,
                        x as int,
                        y as int,
                    );
                }
                let alive = states[self.cells.len()];
                self.add_cell(x, y, alive);
                x += 1;
            }
            assert(y * self.width + self.width == (y + 1) * self.width) by (nonlinear_arith);
            y += 1;
        }
        assert(y * self.width == self.width * self.height) by (nonlinear_arith)
            requires
                y == self.height,
        ;
    }

    /// Has every cell that has not done so look up its neighbours, so that no
    /// later count has to.
    fn prepopulate_neighbours(&mut self)
        requires
            old(self).laid_out(),
        ensures
            final(self).laid_out(),
            final(self)@ == old(self)@,
            final(self).tick_count == old(self).tick_count,
            forall|i: int|
                0 <= i < final(self).cells@.len() ==> {
                    &&& (#[trigger] final(self).cells@[i]).neighbours is Some
                    &&& final(self).cells@[i].next_state == old(self).cells@[i].next_state
                },
    {
        let count = self.cells.len();
        let mut i: usize = 0;
        while i < count
            invariant
                i <= count == self.cells@.len() == old(self).cells@.len(),
                self.laid_out(),
                self@ == old(self)@,
                self.tick_count == old(self).tick_count,
                forall|j: int| 0 <= j < i ==> (#[trigger] self.cells@[j]).neighbours is Some,
                forall|j: int|
                    0 <= j < count ==> (#[trigger] self.cells@[j]).next_state == old(
                        self,
                    ).cells@[j].next_state,
            decreases count - i,
        {
            if self.cells[i].neighbours.is_none() {
                let list = self.neighbours_around(&self.cells[i]);
                self.cells[i].neighbours = Some(list);
                assert(self@ =~= old(self)@);
            }
            i += 1;
        }
    }

    /// Appends the cell for `(x, y)`, which must be the next position in row
    /// order, and hands it back.
    fn add_cell(&mut self, x: u32, y: u32, alive: bool) -> (cell: &Cell)
        requires
            x < old(self).width,
            old(self).placed(index_of(old(self).width as nat, x as int, y as int)),
            index_of(old(self).width as nat, x as int, y as int) % (old(self).width as int) == x,
            index_of(old(self).width as nat, x as int, y as int) / (old(self).width as int) == y,
        ensures
            final(self).width == old(self).width,
            final(self).height == old(self).height,
            final(self).tick_count == old(self).tick_count,
            final(self).placed(old(self).cells@.len() as int + 1),
            final(self).cells@ == old(self).cells@.push(*cell),
            cell.alive == alive,
    {
        let cell = Cell::new(x, y, alive);
        self.cells.push(cell);
        &self.cells[self.cells.len() - 1]
    }

    /// The grid as text: one line for each row from the top, each holding one
    /// symbol for each cell from left to right and ending in a line feed.
    pub fn render(&self) -> (rendering: String)
        requires
            self.laid_out(),
        ensures
            rendering@ == self@.rendering(),
    {
        let mut rendering = String::new();
        let mut y: u32 = 0;
        while y < self.height
            invariant
                y <= self.height,
                self.laid_out(),
                rendering@ == self@.lines(y as nat),
            decreases self.height - y,
        {
            let mut x: u32 = 0;
            while x < self.width
                invariant
                    x <= self.width,
                    y < self.height,
                    self.laid_out(),
                    rendering@ == self@.lines(y as nat) + Seq::new(
                        x as nat,
                        |k: int| symbol(self@.alive(k, y as int)),
                    ),
                decreases self.width - x,
            {
                let cell = self.cell_at(x as i64, y as i64).unwrap();
                rendering.push(cell.to_char());
                assert(rendering@ =~= self@.lines(y as nat) + Seq::new(
                    (x + 1) as nat,
                    |k: int| symbol(self@.alive(k, y as int)),
                ));
                x += 1;
            }
            rendering.push('\n');
            assert(rendering@ =~= self@.lines(y as nat) + self@.line(y as int));
            y += 1;
        }
        rendering
    }

    /// Where the cell at `(x, y)` stands in the cell list, if `(x, y)` is
    /// inside the grid.
    fn index_at(&self, x: i64, y: i64) -> (index: Option<usize>)
        requires
            self.laid_out(),
        ensures
            match index {
                Some(i) => {
                    &&& in_bounds(self@.width, self@.height, x as int, y as int)
                    &&& i == index_of(self@.width, x as int, y as int)
                    &&& i < self.cells@.len()
                },
                None => !in_bounds(self@.width, self@.height, x as int, y as int),
            },
    {
        if 0 <= x && x < self.width as i64 && 0 <= y && y < self.height as i64 {
            proof {
                lemma_index_of_position(self@.width, self@.height, x as int, y as int);
                assert(0 <= y * self.width) by (nonlinear_arith)
                    requires
                        0 <= y,
                        0 <= self.width,
                ;
                assert(self.cells@.len() == self.cells.len());
            }
            Some(y as usize * self.width as usize + x as usize)
        } else {
            None
        }
    }

    /// The cell at `(x, y)`, or nothing if `(x, y)` lies outside the grid.
    /// The grid does not wrap around.
    pub fn cell_at(&self, x: i64, y: i64) -> (cell: Option<&Cell>)
        requires
            self.laid_out(),
        ensures
            cell is Some <==> in_bounds(self@.width, self@.height, x as int, y as int),
            cell matches Some(found) ==> {
                &&& found.x == x
                &&& found.y == y
                &&& found.alive == self@.alive(x as int, y as int)
                &&& self.cache_holds(found)
                &&& self.settled() ==> found.next_state is None && found.neighbours is Some
            },
    {
        match self.index_at(x, y) {
            Some(index) => {
                proof {
                    lemma_index_of_position(self@.width, self@.height, x as int, y as int);
                }
                Some(&self.cells[index])
            },
            None => None,
        }
    }

    /// Looks up the neighbours of `cell`: the positions in the cell list of
    /// the up to eight cells around it, fewer at the edges of the grid.
    pub fn neighbours_around(&self, cell: &Cell) -> (list: Vec<usize>)
        requires
            self.laid_out(),
        ensures
            as_indices(list@) == neighbours(
                self@.width,
                self@.height,
                cell.x as int,
                cell.y as int,
            ),
    {
        let mut list: Vec<usize> = Vec::new();
        let mut k: usize = 0;
        while k < 8
            invariant
                k <= 8,
                self.laid_out(),
                as_indices(list@) == neighbours_within(
                    self@.width,
                    self@.height,
                    cell.x as int,
                    cell.y as int,
                    k as nat,
                ),
            decreases 8 - k,
        {
            let offset = nth_direction(k);
            let x: i64 = cell.x as i64 + offset.0 as i64;
            let y: i64 = cell.y as i64 + offset.1 as i64;
            let ghost before = list@;
            match self.index_at(x, y) {
                Some(index) => {
                    list.push(index);
                    assert(as_indices(list@) =~= as_indices(before).push(index as int));
                },
                None => {},
            }
            k += 1;
        }
        list
    }

    /// A list of a cell's neighbours has at most eight entries, each the
    /// place of a cell.
    proof fn lemma_neighbours_are_cells(&self, cell: &Cell, list: Seq<usize>)
        requires
            self.laid_out(),
            as_indices(list) == neighbours(
                self@.width,
                self@.height,
                cell.x as int,
                cell.y as int,
            ),
        ensures
            list.len() <= 8,
            forall|j: int| 0 <= j < list.len() ==> list[j] < self.cells@.len(),
    {
        lemma_neighbours_in_range(self@.width, self@.height, cell.x as int, cell.y as int, 8);
        assert forall|j: int| 0 <= j < list.len() implies list[j] < self.cells@.len() by {
            assert(as_indices(list)[j] == list[j]);
        }
    }

    /// How many of the cells at the given places in the cell list are alive.
    fn alive_among(&self, list: &Vec<usize>) -> (count: u8)
        requires
            list@.len() <= 8,
            forall|j: int| 0 <= j < list@.len() ==> list@[j] < self.cells@.len(),
        ensures
            count == self@.live_among(as_indices(list@)),
            count <= list@.len(),
    {
        let mut count: u8 = 0;
        let mut i: usize = 0;
        while i < list.len()
            invariant
                i <= list@.len() <= 8,
                forall|j: int| 0 <= j < list@.len() ==> list@[j] < self.cells@.len(),
                count <= i,
                count == self@.live_among(as_indices(list@).take(i as int)),
            decreases list@.len() - i,
        {
            assert(as_indices(list@).take(i + 1).drop_last() =~= as_indices(list@).take(i as int));
            if self.cells[list[i]].alive {
                count += 1;
            }
            i += 1;
        }
        assert(as_indices(list@).take(list@.len() as int) =~= as_indices(list@));
        count
    }

    /// How many neighbours of `cell` are alive.
    pub fn alive_neighbours_around(&self, cell: &Cell) -> (count: u8)
        requires
            self.laid_out(),
            self.cache_holds(cell),
        ensures
            count == self@.live_neighbours(cell.x as int, cell.y as int),
            count <= 8,
    {
        proof {
            lemma_live_among_neighbours(self@, cell.x as int, cell.y as int);
        }
        match &cell.neighbours {
            Some(list) => {
                proof {
                    self.lemma_neighbours_are_cells(cell, list@);
                }
                self.alive_among(list)
            },
            None => {
                let list = self.neighbours_around(cell);
                proof {
                    self.lemma_neighbours_are_cells(cell, list@);
                }
                self.alive_among(&list)
            },
        }
    }

    /// Advances the world by one generation. First every cell's next state is
    /// decided from the neighbour counts of the current generation; only then
    /// are the decisions applied, so no cell sees a neighbour's new state.
    pub fn tick(&mut self)
        requires
            old(self).wf(),
            old(self).tick_count() < u32::MAX,
        ensures
            final(self).wf(),
            final(self)@ == old(self)@.step(),
            final(self).tick_count() == old(self).tick_count() + 1,
    {
        let count = self.cells.len();
        let mut i: usize = 0;
        while i < count
            invariant
                i <= count == self.cells@.len(),
                self.laid_out(),
                self@ == old(self)@,
                self.tick_count == old(self).tick_count,
                forall|j: int| 0 <= j < count ==> (#[trigger] self.cells@[j]).neighbours is Some,
                forall|j: int|
                    0 <= j < i ==> (#[trigger] self.cells@[j]).next_state == decision(
                        self.cells@[j].alive,
                        self@.live_neighbours(self.cells@[j].x as int, self.cells@[j].y as int) as int,
                    ),
                forall|j: int| i <= j < count ==> (#[trigger] self.cells@[j]).next_state is None,
            decreases count - i,
        {
            let alive_neighbours = self.alive_neighbours_around(&self.cells[i]);
            let next_state = decide(self.cells[i].alive, alive_neighbours);
            self.cells[i].next_state_is(next_state);
            assert(self@ =~= old(self)@);
            i += 1;
        }
        let ghost before = self@;
        let mut i: usize = 0;
        while i < count
            invariant
                i <= count == self.cells@.len(),
                self.laid_out(),
                before == old(self)@,
                before.cells.len() == count,
                self@.width == before.width,
                self@.height == before.height,
                self.tick_count == old(self).tick_count,
                forall|j: int| 0 <= j < count ==> (#[trigger] self.cells@[j]).neighbours is Some,
                forall|j: int|
                    0 <= j < i ==> {
                        &&& (#[trigger] self.cells@[j]).next_state is None
                        &&& self.cells@[j].alive == before.step().cells[j]
                    },
                forall|j: int|
                    i <= j < count ==> {
                        &&& (#[trigger] self.cells@[j]).alive == before.cells[j]
                        &&& self.cells@[j].next_state == decision(
                            before.cells[j],
                            before.live_neighbours(
                                self.cells@[j].x as int,
                                self.cells@[j].y as int,
                            ) as int,
                        )
                    },
            decreases count - i,
        {
            self.cells[i].apply_pending_state();
            i += 1;
        }
        self.tick_count += 1;
        assert(self@ =~= old(self)@.step());
    }
}

} // verus!
