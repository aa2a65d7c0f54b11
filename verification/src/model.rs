//! The automaton engine: a toroidal grid of cells advanced by Conway's rule.

use vstd::prelude::*;
use vstd::arithmetic::div_mod::lemma_fundamental_div_mod_converse;
use vstd::arithmetic::div_mod::lemma_mod_add_multiples_vanish;
use vstd::arithmetic::div_mod::lemma_mod_bound;
use vstd::arithmetic::div_mod::lemma_mod_twice;
use vstd::arithmetic::div_mod::lemma_small_mod;

verus! {

/// One cell of the grid: an immutable identity (its 0-indexed coordinates)
/// and a mutable alive flag.
#[derive(Debug, Clone, Copy, PartialEq, Eq, Structural)]
pub struct Cell {
    x: i32,
    y: i32,
    alive: bool,
}

impl Cell {
    /// The x coordinate of the cell's identity.
    pub closed spec fn spec_x(&self) -> int {
        self.x as int
    }

    /// The y coordinate of the cell's identity.
    pub closed spec fn spec_y(&self) -> int {
        self.y as int
    }

    /// Whether the cell is alive.
    pub closed spec fn spec_alive(&self) -> bool {
        self.alive
    }

    /// Create a new cell.
    pub fn new(x: i32, y: i32, alive: bool) -> (c: Cell)
        ensures
            c.spec_x() == x as int,
            c.spec_y() == y as int,
            c.spec_alive() == alive,
    {
        Cell { x, y, alive }
    }

    /// Check if the cell is alive.
    pub fn is_alive(&self) -> (r: bool)
        ensures
            r == self.spec_alive(),
    {
        self.alive
    }

    /// Set the cell alive or dead; the cell's coordinates are untouched.
    pub fn set_alive(&mut self, alive: bool)
        ensures
            final(self).spec_alive() == alive,
            final(self).spec_x() == old(self).spec_x(),
            final(self).spec_y() == old(self).spec_y(),
    {
        self.alive = alive;
    }

    /// Get the position of the cell.
    pub fn get_position(&self) -> (r: (i32, i32))
        ensures
            r.0 as int == self.spec_x(),
            r.1 as int == self.spec_y(),
    {
        (self.x, self.y)
    }
}

/// A named seed shape: a fixed set of coordinates marked alive when the
/// pattern is applied to a grid.
#[derive(Debug, Clone, Copy)]
pub enum Pattern {
    Blinker,
    Toad,
    Glider,
    Beacon,
}

/// The fixed coordinate list of each pattern, as a predicate: whether the
/// pattern marks the cell at `(x, y)` alive.
pub open spec fn pattern_contains(pattern: Pattern, x: int, y: int) -> bool {
    match pattern {
        Pattern::Blinker => {
            ||| (x == 1 && y == 1)
            ||| (x == 2 && y == 1)
            ||| (x == 3 && y == 1)
        },
        Pattern::Toad => {
            ||| (x == 2 && y == 1)
            ||| (x == 3 && y == 1)
            ||| (x == 4 && y == 1)
            ||| (x == 1 && y == 2)
            ||| (x == 2 && y == 2)
            ||| (x == 3 && y == 2)
        },
        Pattern::Glider => {
            ||| (x == 2 && y == 1)
            ||| (x == 3 && y == 2)
            ||| (x == 1 && y == 3)
            ||| (x == 2 && y == 3)
            ||| (x == 3 && y == 3)
        },
        Pattern::Beacon => {
            ||| (x == 2 && y == 1)
            ||| (x == 3 && y == 1)
            ||| (x == 2 && y == 2)
            ||| (x == 3 && y == 2)
            ||| (x == 4 && y == 3)
            ||| (x == 5 && y == 3)
            ||| (x == 4 && y == 4)
            ||| (x == 5 && y == 4)
        },
    }
}

/// Conway's rule: the state of a cell in the next generation, from its
/// current state and the number of alive cells among its eight neighbors.
pub open spec fn life_rule(alive: bool, neighbors: int) -> bool {
    if alive {
        neighbors == 2 || neighbors == 3
    } else {
        neighbors == 3
    }
}

/// The error cases of the engine.
#[derive(Debug, Clone, Copy, PartialEq, Eq, Structural)]
pub enum LifeGameError {
    /// A grid dimension was zero.
    InvalidDimensions,
}

/// The life-game model: a toroidal grid of `width * height` cells in
/// row-major order, a generation counter, and the flag saying whether the
/// most recent step produced at least one living cell.
#[derive(Debug)]
pub struct LifeGame {
    width: usize,
    height: usize,
    cells: Vec<Cell>,
    generation: i32,
    keep_alive: bool,
}

impl LifeGame {
    /// The fixed width of the grid.
    pub closed spec fn spec_width(&self) -> int {
        self.width as int
    }

    /// The fixed height of the grid.
    pub closed spec fn spec_height(&self) -> int {
        self.height as int
    }

    /// The generation counter.
    pub closed spec fn spec_generation(&self) -> int {
        self.generation as int
    }

    /// Whether the most recent step produced at least one living cell.
    pub closed spec fn spec_keep_alive(&self) -> bool {
        self.keep_alive
    }

    /// The cell storage, in row-major order.
    pub closed spec fn spec_cells(&self) -> Seq<Cell> {
        self.cells@
    }

    /// Whether `(x, y)` lies inside the grid without wrapping.
    pub open spec fn in_bounds(&self, x: int, y: int) -> bool {
        0 <= x < self.spec_width() && 0 <= y < self.spec_height()
    }

    /// The flat storage index of the cell at `(x, y)`, with each axis
    /// wrapped by Euclidean remainder: the sole indexing primitive.
    pub open spec fn spec_index(&self, x: int, y: int) -> int
        recommends
            1 <= self.spec_width(),
            1 <= self.spec_height(),
    {
        (y % self.spec_height()) * self.spec_width() + (x % self.spec_width())
    }

    /// Whether the cell at toroidally-wrapped `(x, y)` is alive.
    pub open spec fn alive(&self, x: int, y: int) -> bool {
        self.spec_cells()[self.spec_index(x, y)].spec_alive()
    }

    /// The cell at `(x, y)` counted as 0 or 1, for summing neighbors.
    pub open spec fn alive_as_count(&self, x: int, y: int) -> int {
        if self.alive(x, y) {
            1
        } else {
            0
        }
    }

    /// The number of alive cells among the eight toroidally-wrapped
    /// neighbors of `(x, y)`, the cell itself excluded.
    pub open spec fn neighbor_count(&self, x: int, y: int) -> int {
        self.alive_as_count(x - 1, y - 1) + self.alive_as_count(x, y - 1) + self.alive_as_count(
            x + 1,
            y - 1,
        ) + self.alive_as_count(x - 1, y) + self.alive_as_count(x + 1, y) + self.alive_as_count(
            x - 1,
            y + 1,
        ) + self.alive_as_count(x, y + 1) + self.alive_as_count(x + 1, y + 1)
    }

    /// The state the cell at `(x, y)` takes in the next generation.
    pub open spec fn next_alive(&self, x: int, y: int) -> bool {
        life_rule(self.alive(x, y), self.neighbor_count(x, y))
    }

    /// Whether at least one cell of the grid is alive.
    pub open spec fn has_live_cell(&self) -> bool {
        exists|x: int, y: int| self.in_bounds(x, y) && #[trigger] self.alive(x, y)
    }

    /// Whether this grid is what one simultaneous application of Conway's
    /// rule to every cell of `prev` produces: same dimensions, and every
    /// cell's state computed from `prev` alone.
    pub open spec fn is_next_generation_of(&self, prev: LifeGame) -> bool {
        &&& self.spec_width() == prev.spec_width()
        &&& self.spec_height() == prev.spec_height()
        &&& forall|x: int, y: int|
            prev.in_bounds(x, y) ==> #[trigger] self.alive(x, y) == prev.next_alive(x, y)
    }

    /// Well-formedness: positive dimensions, a cell count that matches them
    /// and fits the index arithmetic, a non-negative generation, and every
    /// cell carrying the coordinates its storage slot stands for.
    pub open spec fn well_formed(&self) -> bool {
        &&& 1 <= self.spec_width()
        &&& 1 <= self.spec_height()
        &&& self.spec_width() * self.spec_height() <= i32::MAX as int
        &&& self.spec_cells().len() == self.spec_width() * self.spec_height()
        &&& 0 <= self.spec_generation()
        &&& forall|i: int|
            0 <= i < self.spec_cells().len() ==> {
                &&& (#[trigger] self.spec_cells()[i]).spec_x() == i % self.spec_width()
                &&& self.spec_cells()[i].spec_y() == i / self.spec_width()
            }
    }

    /// Create a new life-game model. Both dimensions must be positive;
    /// otherwise the grid is refused. A fresh grid is all dead, at
    /// generation 0.
    pub fn new(width: usize, height: usize) -> (r: Result<LifeGame, LifeGameError>)
        requires
            width * height <= i32::MAX as int,
        ensures
            r is Ok <==> (width >= 1 && height >= 1),
            r matches Err(e) ==> e == LifeGameError::InvalidDimensions,
            r matches Ok(g) ==> {
                &&& g.well_formed()
                &&& g.spec_width() == width as int
                &&& g.spec_height() == height as int
                &&& g.spec_generation() == 0
                &&& !g.spec_keep_alive()
                &&& forall|x: int, y: int| g.in_bounds(x, y) ==> !#[trigger] g.alive(x, y)
            },
    {
        if width == 0 || height == 0 {
            return Err(LifeGameError::InvalidDimensions);
        }
        let size: usize = width * height;
        let mut cells: Vec<Cell> = Vec::new();
        let mut i: usize = 0;
        while i < size
            invariant
                1 <= width,
                1 <= height,
                size == width * height,
                size <= i32::MAX as int,
                i <= size,
                cells@.len() == i as int,
                forall|j: int|
                    0 <= j < i as int ==> {
                        &&& (#[trigger] cells@[j]).spec_x() == j % (width as int)
                        &&& cells@[j].spec_y() == j / (width as int)
                        &&& !cells@[j].spec_alive()
                    },
            decreases size - i,
        {
            proof {
                lemma_mod_bound(i as int, width as int);
                assert(width as int <= (width as int) * (height as int)) by (nonlinear_arith)
                    requires
                        1 <= height as int,
                        0 <= width as int,
                ;
                assert((i as int) / (width as int) < (height as int)) by (nonlinear_arith)
                    requires
                        1 <= width as int,
                        (i as int) < (width as int) * (height as int),
                ;
                assert(0 <= (i as int) / (width as int)) by (nonlinear_arith)
                    requires
                        1 <= width as int,
                        0 <= i as int,
                ;
            }
            let x: i32 = (i % width) as i32;
            let y: i32 = (i / width) as i32;
            cells.push(Cell::new(x, y, false));
            i = i + 1;
        }
        let game = LifeGame { width, height, cells, generation: 0, keep_alive: false };
        proof {
            assert forall|x: int, y: int| game.in_bounds(x, y) implies !game.alive(x, y) by {
                lemma_index_in_range(game, x, y);
            }
        }
        Ok(game)
    }

    /// Get the width of the life-game.
    pub fn get_width(&self) -> (r: usize)
        ensures
            r as int == self.spec_width(),
    {
        self.width
    }

    /// Get the height of the life-game.
    pub fn get_height(&self) -> (r: usize)
        ensures
            r as int == self.spec_height(),
    {
        self.height
    }

    /// Get the generation of the life-game.
    pub fn get_generation(&self) -> (r: i32)
        ensures
            r as int == self.spec_generation(),
    {
        self.generation
    }

    /// Whether the most recent step left at least one cell alive, so that an
    /// external scheduler can stop stepping an extinct grid.
    pub fn keep_alive(&self) -> (r: bool)
        ensures
            r == self.spec_keep_alive(),
    {
        self.keep_alive
    }

    /// Set the generation counter back to 0; the cells are untouched.
    pub fn reset_generation(&mut self)
        ensures
            final(self).spec_generation() == 0,
            final(self).spec_width() == old(self).spec_width(),
            final(self).spec_height() == old(self).spec_height(),
            final(self).spec_cells() == old(self).spec_cells(),
            final(self).spec_keep_alive() == old(self).spec_keep_alive(),
            old(self).well_formed() ==> final(self).well_formed(),
    {
        self.generation = 0;
    }

    /// Wrap `pos + delta` into `0 .. max` by Euclidean remainder.
    fn add_position(pos: i32, delta: i32, max: i32) -> (r: i32)
        requires
            1 <= max,
            i32::MIN <= pos + delta <= i32::MAX,
        ensures
            r as int == (pos + delta) % (max as int),
            0 <= r < max,
    {
        let sum: i32 = pos + delta;
        proof {
            lemma_mod_bound(sum as int, max as int);
        }
        sum.checked_rem_euclid(max).unwrap()
    }

    /// Calculate the flat vector index from a position. Any integer
    /// coordinates are accepted: each axis wraps modulo its size.
    pub fn get_index(&self, x: i32, y: i32) -> (index: usize)
        requires
            self.well_formed(),
        ensures
            index as int == self.spec_index(x as int, y as int),
            index < self.spec_cells().len(),
    {
        proof {
            assert(self.spec_width() <= self.spec_width() * self.spec_height())
                by (nonlinear_arith)
                requires
                    0 <= self.spec_width(),
                    1 <= self.spec_height(),
            ;
            assert(self.spec_height() <= self.spec_width() * self.spec_height())
                by (nonlinear_arith)
                requires
                    1 <= self.spec_width(),
                    0 <= self.spec_height(),
            ;
        }
        let w: i32 = self.width as i32;
        let h: i32 = self.height as i32;
        let wrapped_x: i32 = LifeGame::add_position(x, 0, w);
        let wrapped_y: i32 = LifeGame::add_position(y, 0, h);
        proof {
            lemma_index_in_range(*self, x as int, y as int);
        }
        (wrapped_y * w + wrapped_x) as usize
    }

    /// Get the cell at the wrapped position; with a well-formed grid the
    /// lookup always succeeds.
    pub fn get_cell(&self, x: i32, y: i32) -> (cell: Option<&Cell>)
        requires
            self.well_formed(),
        ensures
            cell matches Some(c) && *c == self.spec_cells()[self.spec_index(
                x as int,
                y as int,
            )],
    {
        let index: usize = self.get_index(x, y);
        Some(&self.cells[index])
    }

    /// Get the cell at the wrapped position (mutable); with a well-formed
    /// grid the lookup always succeeds. The grid after the call holds
    /// whatever the caller leaves behind the returned reference; everything
    /// else is untouched.
    pub fn get_cell_mut(&mut self, x: i32, y: i32) -> (cell: Option<&mut Cell>)
        requires
            old(self).well_formed(),
        ensures
            cell matches Some(c) && {
                &&& *c == old(self).spec_cells()[old(self).spec_index(x as int, y as int)]
                &&& final(self).spec_cells() == old(self).spec_cells().update(
                    old(self).spec_index(x as int, y as int),
                    *final(c),
                )
                &&& final(self).spec_width() == old(self).spec_width()
                &&& final(self).spec_height() == old(self).spec_height()
                &&& final(self).spec_generation() == old(self).spec_generation()
                &&& final(self).spec_keep_alive() == old(self).spec_keep_alive()
            },
    {
        let index: usize = self.get_index(x, y);
        Some(&mut self.cells[index])
    }

    /// Count the number of alive neighbors of a cell at a given position.
    fn count_alive_neighbors(&self, x: i32, y: i32) -> (n: usize)
        requires
            self.well_formed(),
            i32::MIN < x < i32::MAX,
            i32::MIN < y < i32::MAX,
        ensures
            n as int == self.neighbor_count(x as int, y as int),
            n <= 8,
    {
        let mut count: usize = 0;
        if let Some(neighbor) = self.get_cell(x - 1, y - 1) {
            if neighbor.is_alive() {
                count = count + 1;
            }
        }
        if let Some(neighbor) = self.get_cell(x, y - 1) {
            if neighbor.is_alive() {
                count = count + 1;
            }
        }
        if let Some(neighbor) = self.get_cell(x + 1, y - 1) {
            if neighbor.is_alive() {
                count = count + 1;
            }
        }
        if let Some(neighbor) = self.get_cell(x - 1, y) {
            if neighbor.is_alive() {
                count = count + 1;
            }
        }
        if let Some(neighbor) = self.get_cell(x + 1, y) {
            if neighbor.is_alive() {
                count = count + 1;
            }
        }
        if let Some(neighbor) = self.get_cell(x - 1, y + 1) {
            if neighbor.is_alive() {
                count = count + 1;
            }
        }
        if let Some(neighbor) = self.get_cell(x, y + 1) {
            if neighbor.is_alive() {
                count = count + 1;
            }
        }
        if let Some(neighbor) = self.get_cell(x + 1, y + 1) {
            if neighbor.is_alive() {
                count = count + 1;
            }
        }
        count
    }

    /// Update the state of the game to the next generation: Conway's rule,
    /// applied to every cell simultaneously. The new states are computed
    /// entirely from the prior grid into a separate buffer, then swapped in,
    /// so evaluation order never affects the result. Increments the
    /// generation counter and records whether any cell survived.
    #[verifier::loop_isolation(false)]
    pub fn next_generation(&mut self)
        requires
            old(self).well_formed(),
            old(self).spec_generation() < i32::MAX as int,
        ensures
            final(self).well_formed(),
            final(self).is_next_generation_of(*old(self)),
            final(self).spec_generation() == old(self).spec_generation() + 1,
            final(self).spec_keep_alive() == final(self).has_live_cell(),
    {
        let w: usize = self.width;
        let len: usize = self.cells.len();
        let mut new_cells: Vec<Cell> = Vec::new();
        let mut any_alive: bool = false;
        let mut i: usize = 0;
        while i < len
            invariant
                i <= len,
                new_cells@.len() == i as int,
                forall|j: int|
                    0 <= j < i as int ==> {
                        &&& (#[trigger] new_cells@[j]).spec_x() == j % old(self).spec_width()
                        &&& new_cells@[j].spec_y() == j / old(self).spec_width()
                        &&& new_cells@[j].spec_alive() == old(self).next_alive(
                            j % old(self).spec_width(),
                            j / old(self).spec_width(),
                        )
                    },
                any_alive == exists|j: int|
                    0 <= j < i as int && (#[trigger] new_cells@[j]).spec_alive(),
            decreases len - i,
        {
            proof {
                lemma_index_surjective(*self, i as int);
                assert(self.spec_width() <= self.spec_width() * self.spec_height())
                    by (nonlinear_arith)
                    requires
                        0 <= self.spec_width(),
                        1 <= self.spec_height(),
                ;
                assert(self.spec_height() <= self.spec_width() * self.spec_height())
                    by (nonlinear_arith)
                    requires
                        1 <= self.spec_width(),
                        0 <= self.spec_height(),
                ;
            }
            let x: i32 = (i % w) as i32;
            let y: i32 = (i / w) as i32;
            let alive_neighbors: usize = self.count_alive_neighbors(x, y);
            let current: bool = self.cells[i].is_alive();
            let new_state: bool = match (current, alive_neighbors) {
                (true, 2) | (true, 3) => true,
                (true, _) => false,
                (false, 3) => true,
                (false, _) => false,
            };
            if new_state {
                any_alive = true;
            }
            let ghost pre_cells = new_cells@;
            new_cells.push(Cell::new(x, y, new_state));
            proof {
                assert(self.alive(x as int, y as int) == current);
                assert(new_cells@[i as int].spec_alive() == new_state);
                if new_state {
                    assert(new_cells@[i as int].spec_alive());
                } else if any_alive {
                    let j0 = choose|j: int|
                        0 <= j < i as int && (#[trigger] pre_cells[j]).spec_alive();
                    assert(new_cells@[j0].spec_alive());
                }
            }
            i = i + 1;
        }
        self.cells = new_cells;
        self.generation = self.generation + 1;
        self.keep_alive = any_alive;
        proof {
            let prev = *old(self);
            let w_int = prev.spec_width();
            assert forall|x: int, y: int| prev.in_bounds(x, y) implies #[trigger] self.alive(
                x,
                y,
            ) == prev.next_alive(x, y) by {
                lemma_index_in_range(prev, x, y);
                let j = y * w_int + x;
                lemma_fundamental_div_mod_converse(j, w_int, y, x);
            }
            if any_alive {
                let j0 = choose|j: int|
                    0 <= j < len as int && (#[trigger] self.spec_cells()[j]).spec_alive();
                lemma_index_surjective(prev, j0);
                assert(self.alive(j0 % w_int, j0 / w_int));
                assert(self.has_live_cell());
            } else {
                assert forall|x: int, y: int|
                    self.in_bounds(x, y) implies !#[trigger] self.alive(x, y) by {
                    lemma_index_in_range(prev, x, y);
                    assert(!self.spec_cells()[self.spec_index(x, y)].spec_alive());
                }
            }
        }
    }

    /// Reset the game: every cell dead, generation 0. The dimensions and the
    /// `keep_alive` flag are untouched.
    #[verifier::loop_isolation(false)]
    pub fn reset(&mut self)
        requires
            old(self).well_formed(),
        ensures
            final(self).well_formed(),
            final(self).spec_width() == old(self).spec_width(),
            final(self).spec_height() == old(self).spec_height(),
            final(self).spec_generation() == 0,
            final(self).spec_keep_alive() == old(self).spec_keep_alive(),
            forall|x: int, y: int|
                final(self).in_bounds(x, y) ==> !#[trigger] final(self).alive(x, y),
            !final(self).has_live_cell(),
    {
        let len: usize = self.cells.len();
        let mut i: usize = 0;
        while i < len
            invariant
                i <= len,
                self.spec_width() == old(self).spec_width(),
                self.spec_height() == old(self).spec_height(),
                self.spec_generation() == old(self).spec_generation(),
                self.spec_keep_alive() == old(self).spec_keep_alive(),
                self.spec_cells().len() == len as int,
                forall|j: int|
                    0 <= j < len as int ==> {
                        &&& (#[trigger] self.spec_cells()[j]).spec_x() == old(
                            self,
                        ).spec_cells()[j].spec_x()
                        &&& self.spec_cells()[j].spec_y() == old(self).spec_cells()[j].spec_y()
                    },
                forall|j: int|
                    0 <= j < i as int ==> !(#[trigger] self.spec_cells()[j]).spec_alive(),
            decreases len - i,
        {
            let cell: &mut Cell = &mut self.cells[i];
            cell.set_alive(false);
            i = i + 1;
        }
        self.generation = 0;
        proof {
            assert forall|x: int, y: int|
                self.in_bounds(x, y) implies !#[trigger] self.alive(x, y) by {
                lemma_index_in_range(*self, x, y);
            }
        }
    }

    /// Mark the cell at `(x, y)` alive if those coordinates lie inside the
    /// grid; offsets that fall outside are silently dropped, not wrapped.
    fn mark_alive(&mut self, x: i32, y: i32)
        requires
            old(self).well_formed(),
            0 <= x,
            0 <= y,
        ensures
            final(self).well_formed(),
            final(self).spec_width() == old(self).spec_width(),
            final(self).spec_height() == old(self).spec_height(),
            final(self).spec_generation() == old(self).spec_generation(),
            final(self).spec_keep_alive() == old(self).spec_keep_alive(),
            forall|x2: int, y2: int|
                old(self).in_bounds(x2, y2) ==> #[trigger] final(self).alive(x2, y2) == (old(
                    self,
                ).alive(x2, y2) || (x2 == x as int && y2 == y as int)),
    {
        if (x as usize) < self.width && (y as usize) < self.height {
            proof {
                lemma_index_in_range(*self, x as int, y as int);
            }
            match self.get_cell_mut(x, y) {
                Some(cell) => {
                    cell.set_alive(true);
                },
                None => {},
            }
            proof {
                let prev = *old(self);
                let index = prev.spec_index(x as int, y as int);
                assert forall|x2: int, y2: int|
                    prev.in_bounds(x2, y2) implies #[trigger] self.alive(x2, y2) == (prev.alive(
                    x2,
                    y2,
                ) || (x2 == x as int && y2 == y as int)) by {
                    lemma_index_in_range(prev, x2, y2);
                    if prev.spec_index(x2, y2) == index {
                        lemma_index_injective(prev, x2, y2, x as int, y as int);
                    }
                }
            }
        }
    }

    /// Set the initial pattern: reset the whole grid, then mark alive every
    /// cell named by the pattern's fixed coordinate list. Pattern offsets
    /// that do not fit in the grid are silently dropped. The generation is
    /// set back to 0.
    pub fn set_initialize_pattern(&mut self, pattern: Pattern)
        requires
            old(self).well_formed(),
        ensures
            final(self).well_formed(),
            final(self).spec_width() == old(self).spec_width(),
            final(self).spec_height() == old(self).spec_height(),
            final(self).spec_generation() == 0,
            final(self).spec_keep_alive() == old(self).spec_keep_alive(),
            forall|x: int, y: int|
                final(self).in_bounds(x, y) ==> #[trigger] final(self).alive(x, y)
                    == pattern_contains(pattern, x, y),
    {
        self.reset();
        match pattern {
            Pattern::Blinker => {
                self.mark_alive(1, 1);
                self.mark_alive(2, 1);
                self.mark_alive(3, 1);
            },
            Pattern::Toad => {
                self.mark_alive(2, 1);
                self.mark_alive(3, 1);
                self.mark_alive(4, 1);
                self.mark_alive(1, 2);
                self.mark_alive(2, 2);
                self.mark_alive(3, 2);
            },
            Pattern::Glider => {
                self.mark_alive(2, 1);
                self.mark_alive(3, 2);
                self.mark_alive(1, 3);
                self.mark_alive(2, 3);
                self.mark_alive(3, 3);
            },
            Pattern::Beacon => {
                self.mark_alive(2, 1);
                self.mark_alive(3, 1);
                self.mark_alive(2, 2);
                self.mark_alive(3, 2);
                self.mark_alive(4, 3);
                self.mark_alive(5, 3);
                self.mark_alive(4, 4);
                self.mark_alive(5, 4);
            },
        }
        self.generation = 0;
    }
}

/// The wrapped index always lands inside the storage, and on in-bounds
/// coordinates it is exactly the row-major index `y * width + x`.
pub proof fn lemma_index_in_range(g: LifeGame, x: int, y: int)
    requires
        1 <= g.spec_width(),
        1 <= g.spec_height(),
    ensures
        0 <= g.spec_index(x, y) < g.spec_width() * g.spec_height(),
        g.in_bounds(x, y) ==> g.spec_index(x, y) == y * g.spec_width() + x,
{
    let w = g.spec_width();
    let h = g.spec_height();
    lemma_mod_bound(x, w);
    lemma_mod_bound(y, h);
    assert(0 <= (y % h) * w + (x % w) < w * h) by (nonlinear_arith)
        requires
            0 <= x % w < w,
            0 <= y % h < h,
            1 <= w,
    ;
    if g.in_bounds(x, y) {
        lemma_small_mod(x as nat, w as nat);
        lemma_small_mod(y as nat, h as nat);
    }
}

/// Every storage slot is the image of an in-bounds coordinate pair, namely
/// `(j % width, j / width)`.
pub proof fn lemma_index_surjective(g: LifeGame, j: int)
    requires
        1 <= g.spec_width(),
        1 <= g.spec_height(),
        0 <= j < g.spec_width() * g.spec_height(),
    ensures
        g.in_bounds(j % g.spec_width(), j / g.spec_width()),
        g.spec_index(j % g.spec_width(), j / g.spec_width()) == j,
{
    let w = g.spec_width();
    let h = g.spec_height();
    lemma_mod_bound(j, w);
    assert(0 <= j / w < h) by (nonlinear_arith)
        requires
            1 <= w,
            0 <= j < w * h,
    ;
    lemma_mod_twice(j, w);
    lemma_small_mod((j / w) as nat, h as nat);
    vstd::arithmetic::div_mod::lemma_fundamental_div_mod(j, w);
    assert((j / w) * w == w * (j / w)) by (nonlinear_arith);
}

/// On in-bounds coordinates the index map is injective: two coordinate pairs
/// inside the grid share a storage slot only if they are the same pair.
pub proof fn lemma_index_injective(g: LifeGame, x1: int, y1: int, x2: int, y2: int)
    requires
        1 <= g.spec_width(),
        1 <= g.spec_height(),
        g.in_bounds(x1, y1),
        g.in_bounds(x2, y2),
        g.spec_index(x1, y1) == g.spec_index(x2, y2),
    ensures
        x1 == x2,
        y1 == y2,
{
    let w = g.spec_width();
    lemma_index_in_range(g, x1, y1);
    lemma_index_in_range(g, x2, y2);
    let j = g.spec_index(x1, y1);
    lemma_fundamental_div_mod_converse(j, w, y1, x1);
    lemma_fundamental_div_mod_converse(j, w, y2, x2);
}

/// Translating a coordinate by a full grid width or height lands on the same
/// cell: the grid is a torus.
pub proof fn lemma_index_toroidal(g: LifeGame, x: int, y: int)
    requires
        1 <= g.spec_width(),
        1 <= g.spec_height(),
    ensures
        g.spec_index(x + g.spec_width(), y) == g.spec_index(x, y),
        g.spec_index(x, y + g.spec_height()) == g.spec_index(x, y),
        g.alive(x + g.spec_width(), y) == g.alive(x, y),
        g.alive(x, y + g.spec_height()) == g.alive(x, y),
{
    lemma_mod_add_multiples_vanish(x, g.spec_width());
    lemma_mod_add_multiples_vanish(y, g.spec_height());
}

/// Any integer coordinates name the same cell as their in-bounds wrapped
/// representatives, so a cell lookup is total over all of `int x int`.
pub proof fn lemma_alive_wraps(g: LifeGame, x: int, y: int)
    requires
        1 <= g.spec_width(),
        1 <= g.spec_height(),
    ensures
        g.in_bounds(x % g.spec_width(), y % g.spec_height()),
        g.spec_index(x, y) == g.spec_index(x % g.spec_width(), y % g.spec_height()),
        g.alive(x, y) == g.alive(x % g.spec_width(), y % g.spec_height()),
{
    lemma_mod_bound(x, g.spec_width());
    lemma_mod_bound(y, g.spec_height());
    lemma_mod_twice(x, g.spec_width());
    lemma_mod_twice(y, g.spec_height());
}

/// A live cell with exactly 2 or 3 alive neighbors survives the step.
pub proof fn lemma_live_cell_survives(prev: LifeGame, next: LifeGame, x: int, y: int)
    requires
        next.is_next_generation_of(prev),
        prev.in_bounds(x, y),
        prev.alive(x, y),
        prev.neighbor_count(x, y) == 2 || prev.neighbor_count(x, y) == 3,
    ensures
        next.alive(x, y),
{
}

/// A live cell with any other neighbor count dies in the step.
pub proof fn lemma_live_cell_dies(prev: LifeGame, next: LifeGame, x: int, y: int)
    requires
        next.is_next_generation_of(prev),
        prev.in_bounds(x, y),
        prev.alive(x, y),
        prev.neighbor_count(x, y) != 2,
        prev.neighbor_count(x, y) != 3,
    ensures
        !next.alive(x, y),
{
}

/// A dead cell with exactly 3 alive neighbors becomes alive in the step.
pub proof fn lemma_dead_cell_becomes_alive(prev: LifeGame, next: LifeGame, x: int, y: int)
    requires
        next.is_next_generation_of(prev),
        prev.in_bounds(x, y),
        !prev.alive(x, y),
        prev.neighbor_count(x, y) == 3,
    ensures
        next.alive(x, y),
{
}

/// A dead cell with any other neighbor count stays dead in the step.
pub proof fn lemma_dead_cell_stays_dead(prev: LifeGame, next: LifeGame, x: int, y: int)
    requires
        next.is_next_generation_of(prev),
        prev.in_bounds(x, y),
        !prev.alive(x, y),
        prev.neighbor_count(x, y) != 3,
    ensures
        !next.alive(x, y),
{
}

/// Stepping a grid with no live cell produces a grid with no live cell: an
/// extinct automaton stays extinct.
pub proof fn lemma_extinct_grid_stays_extinct(prev: LifeGame, next: LifeGame)
    requires
        1 <= prev.spec_width(),
        1 <= prev.spec_height(),
        next.is_next_generation_of(prev),
        !prev.has_live_cell(),
    ensures
        !next.has_live_cell(),
{
    assert forall|x: int, y: int| next.in_bounds(x, y) implies !#[trigger] next.alive(x, y) by {
        lemma_alive_wraps(prev, x, y);
        lemma_alive_wraps(prev, x - 1, y - 1);
        lemma_alive_wraps(prev, x, y - 1);
        lemma_alive_wraps(prev, x + 1, y - 1);
        lemma_alive_wraps(prev, x - 1, y);
        lemma_alive_wraps(prev, x + 1, y);
        lemma_alive_wraps(prev, x - 1, y + 1);
        lemma_alive_wraps(prev, x, y + 1);
        lemma_alive_wraps(prev, x + 1, y + 1);
        assert(prev.neighbor_count(x, y) == 0);
        assert(next.alive(x, y) == prev.next_alive(x, y));
    }
}

} // verus!
