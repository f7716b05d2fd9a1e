//! The grid that holds the cells and advances them.

use vstd::prelude::*;
use crate::board::{next_state, Board};
use crate::cell::Cell;
use crate::laws::lemma_generations_add;

verus! {

/// A position on a grid: column `x`, row `y`.
#[derive(Debug, Copy, Clone, PartialEq, Eq, Structural)]
pub struct Point {
    pub x: usize,
    pub y: usize,
}

impl View for Point {
    type V = (int, int);

    open spec fn view(&self) -> (int, int) {
        (self.x as int, self.y as int)
    }
}

impl From<(usize, usize)> for Point {
    fn from(item: (usize, usize)) -> (point: Point) {
        Point { x: item.0, y: item.1 }
    }
}

impl vstd::std_specs::convert::FromSpecImpl<(usize, usize)> for Point {
    open spec fn obeys_from_spec() -> bool {
        true
    }

    open spec fn from_spec(item: (usize, usize)) -> Point {
        Point { x: item.0, y: item.1 }
    }
}

/// The positions that a list of points names.
pub open spec fn positions(points: Seq<Point>) -> Seq<(int, int)> {
    points.map_values(|p: Point| p@)
}

/// Why a grid operation was rejected.
#[derive(Debug, Copy, Clone, PartialEq, Eq, Structural)]
pub enum GridError {
    /// The extents asked for are zero, or their product does not fit the machine.
    Configuration,
    /// A position lies outside the grid.
    OutOfBounds,
}

/// A dense grid of two-state cells in row-major order that advances by the
/// rule of Conway's Game of Life, with clipped edges.
pub struct Grid {
    width: usize,
    height: usize,
    cells: Vec<Cell>,
}

impl View for Grid {
    type V = Board;

    closed spec fn view(&self) -> Board {
        Board {
            width: self.width as nat,
            height: self.height as nat,
            cells: self.cells@.map_values(|c: Cell| c@),
        }
    }
}

/// A vector of `n` dead cells.
fn dead_cells(n: usize) -> (cells: Vec<Cell>)
    ensures
        cells@.len() == n,
        forall|i: int| 0 <= i < n ==> !(#[trigger] cells@[i])@,
{
    let mut cells: Vec<Cell> = Vec::new();
    let mut i: usize = 0;
    while i < n
        invariant
            i <= n,
            cells@.len() == i,
            forall|j: int| 0 <= j < i ==> !(#[trigger] cells@[j])@,
        decreases n - i,
    {
        cells.push(Cell::new(false));
        i += 1;
    }
    cells
}

impl Grid {
    /// The grid's invariant: positive extents, and one cell for each position.
    pub open spec fn wf(&self) -> bool {
        self@.wf()
    }

    /// Makes a grid of `width` columns and `height` rows with every cell dead.
    /// Extents of zero, and extents whose product exceeds `usize::MAX`, are
    /// rejected.
    pub fn new(width: usize, height: usize) -> (made: Result<Grid, GridError>)
        ensures
            made is Ok <==> width > 0 && height > 0 && width * height <= usize::MAX,
            made matches Ok(grid) ==> grid.wf() && grid@ == Board::empty(
                width as nat,
                height as nat,
            ),
            made matches Err(e) ==> e == GridError::Configuration,
    {
        if width == 0 || height == 0 {
            return Err(GridError::Configuration);
        }
        match width.checked_mul(height) {
            None => Err(GridError::Configuration),
            Some(n) => {
                let grid = Grid { width, height, cells: dead_cells(n) };
                assert(grid@.cells =~= Board::empty(width as nat, height as nat).cells);
                Ok(grid)
            },
        }
    }

    /// The number of columns.
    pub fn width(&self) -> (width: usize)
        ensures
            width == self@.width,
    {
        self.width
    }

    /// The number of rows.
    pub fn height(&self) -> (height: usize)
        ensures
            height == self@.height,
    {
        self.height
    }

    /// Whether `pos` lies on the grid.
    pub fn contains(&self, pos: Point) -> (inside: bool)
        ensures
            inside == self@.contains(pos.x as int, pos.y as int),
    {
        pos.x < self.width && pos.y < self.height
    }

    /// A read-only view of the cells, in row-major order.
    pub fn cells(&self) -> (cells: &Vec<Cell>)
        ensures
            cells@.map_values(|c: Cell| c@) == self@.cells,
    {
        &self.cells
    }

    /// The state of every cell, in row-major order.
    pub fn states(&self) -> (states: Vec<bool>)
        ensures
            states@ == self@.cells,
    {
        let mut states: Vec<bool> = Vec::new();
        let mut i: usize = 0;
        while i < self.cells.len()
            invariant
                i <= self.cells@.len(),
                states@.len() == i,
                forall|j: int| 0 <= j < i ==> states@[j] == self@.cells[j],
            decreases self.cells@.len() - i,
        {
            states.push(self.cells[i].is_alive());
            i += 1;
        }
        assert(states@ =~= self@.cells);
        states
    }

    /// Converts a pair of cell coordinates to the index of the cell.
    pub fn coords_to_index(&self, pos: Point) -> (index: usize)
        requires
            self.wf(),
            self@.contains(pos.x as int, pos.y as int),
        ensures
            index == self@.index_of(pos.x as int, pos.y as int),
            index < self@.cells.len(),
            self@.column_of(index as int) == pos.x,
            self@.row_of(index as int) == pos.y,
    {
        proof {
            self@.lemma_index_of(pos.x as int, pos.y as int);
            assert(self@.cells.len() == self.cells.len());
            assert(0 <= pos.y * self.width) by (nonlinear_arith);
        }
        pos.y * self.width + pos.x
    }

    /// Converts the index of a cell to its pair of coordinates.
    pub fn index_to_coords(&self, index: usize) -> (pos: Point)
        requires
            self.wf(),
            index < self@.cells.len(),
        ensures
            pos.x == self@.column_of(index as int),
            pos.y == self@.row_of(index as int),
            self@.contains(pos.x as int, pos.y as int),
            self@.index_of(pos.x as int, pos.y as int) == index,
    {
        proof {
            self@.lemma_coords_of(index as int);
        }
        Point { x: index % self.width, y: index / self.width }
    }

    /// Reads the cell at `pos`; a position off the grid is rejected.
    pub fn get(&self, pos: Point) -> (read: Result<bool, GridError>)
        requires
            self.wf(),
        ensures
            read is Ok <==> self@.contains(pos.x as int, pos.y as int),
            read matches Ok(alive) ==> alive == self@.alive(pos.x as int, pos.y as int),
            read matches Err(e) ==> e == GridError::OutOfBounds,
    {
        if !self.contains(pos) {
            return Err(GridError::OutOfBounds);
        }
        let index = self.coords_to_index(pos);
        Ok(self.cells[index].is_alive())
    }

    /// Writes the cell at `pos` and leaves every other cell as it was; a
    /// position off the grid is rejected and nothing changes.
    pub fn set(&mut self, pos: Point, alive: bool) -> (written: Result<(), GridError>)
        requires
            old(self).wf(),
        ensures
            final(self).wf(),
            written is Ok <==> old(self)@.contains(pos.x as int, pos.y as int),
            written is Ok ==> final(self)@ == (Board {
                cells: old(self)@.cells.update(
                    old(self)@.index_of(pos.x as int, pos.y as int),
                    alive,
                ),
                ..old(self)@
            }),
            written matches Err(e) ==> e == GridError::OutOfBounds && final(self)@ == old(self)@,
    {
        if !self.contains(pos) {
            return Err(GridError::OutOfBounds);
        }
        let index = self.coords_to_index(pos);
        self.cells.set(index, Cell::new(alive));
        assert(self@.cells =~= old(self)@.cells.update(index as int, alive));
        Ok(())
    }

    /// 1 if the position one column and one row before `pos`, moved on by
    /// `dx` columns and `dy` rows, holds a live cell; 0 if it is dead or off
    /// the grid.
    fn live_at(&self, pos: Point, dx: usize, dy: usize) -> (n: u8)
        requires
            self.wf(),
            self@.contains(pos.x as int, pos.y as int),
            dx <= 2,
            dy <= 2,
        ensures
            n == self@.live(pos.x + dx - 1, pos.y + dy - 1),
            n <= 1,
    {
        let is_offscreen_left = dx == 0 && pos.x == 0;
        let is_offscreen_right = dx == 2 && pos.x == self.width - 1;
        let is_offscreen_top = dy == 0 && pos.y == 0;
        let is_offscreen_bottom = dy == 2 && pos.y == self.height - 1;
        if is_offscreen_left || is_offscreen_right || is_offscreen_top || is_offscreen_bottom {
            return 0;
        }
        let neighbour_pos = Point { x: pos.x + dx - 1, y: pos.y + dy - 1 };
        let index = self.coords_to_index(neighbour_pos);
        if self.cells[index].is_alive() {
            1
        } else {
            0
        }
    }

    /// Counts the live cells among the eight positions around `pos`; those
    /// off the grid count as absent.
    pub fn live_neighbours(&self, pos: Point) -> (count: u8)
        requires
            self.wf(),
            self@.contains(pos.x as int, pos.y as int),
        ensures
            count == self@.neighbours(pos.x as int, pos.y as int),
            count <= 8,
    {
        let mut count: u8 = 0;
        count += self.live_at(pos, 0, 0);
        count += self.live_at(pos, 1, 0);
        count += self.live_at(pos, 2, 0);
        count += self.live_at(pos, 0, 1);
        count += self.live_at(pos, 2, 1);
        count += self.live_at(pos, 0, 2);
        count += self.live_at(pos, 1, 2);
        count += self.live_at(pos, 2, 2);
        count
    }

    /// The state that the cell at `cell_idx` takes in the next generation.
    pub fn cell_next_state(&self, cell_idx: usize) -> (next: bool)
        requires
            self.wf(),
            cell_idx < self@.cells.len(),
        ensures
            next == self@.next_cell(cell_idx as int),
    {
        let cell = self.cells[cell_idx];
        let cell_pos = self.index_to_coords(cell_idx);
        let num_neighbour_alive = self.live_neighbours(cell_pos);
        next_state(cell.is_alive(), num_neighbour_alive)
    }

    /// Advances the grid by one generation. Every next state is computed
    /// from the current generation before any cell changes.
    pub fn update(&mut self)
        requires
            old(self).wf(),
        ensures
            final(self).wf(),
            final(self)@ == old(self)@.step(),
    {
        let n = self.cells.len();
        let mut next_cells: Vec<Cell> = Vec::new();
        let mut idx: usize = 0;
        while idx < n
            invariant
                *self == *old(self),
                self.wf(),
                n == self@.cells.len(),
                idx <= n,
                next_cells@.len() == idx,
                forall|j: int| 0 <= j < idx ==> (#[trigger] next_cells@[j])@ == self@.next_cell(j),
            decreases n - idx,
        {
            next_cells.push(Cell::new(self.cell_next_state(idx)));
            idx += 1;
        }
        self.cells = next_cells;
        assert(self@.cells =~= old(self)@.step().cells);
    }

    /// Advances the grid by the given number of generations, one after the
    /// other.
    pub fn advance(&mut self, generations: usize)
        requires
            old(self).wf(),
        ensures
            final(self).wf(),
            final(self)@ == old(self)@.generations(generations as nat),
    {
        let mut done: usize = 0;
        while done < generations
            invariant
                self.wf(),
                done <= generations,
                self@ == old(self)@.generations(done as nat),
            decreases generations - done,
        {
            let ghost reached = self@;
            self.update();
            proof {
                assert(reached.generations(1) == reached.step().generations(0));
                lemma_generations_add(old(self)@, done as nat, 1);
            }
            done += 1;
        }
    }

    /// Resets the whole grid to dead cells, then makes the listed cells
    /// alive. If any listed position lies off the grid the call is rejected
    /// and nothing changes.
    pub fn set_state(&mut self, cells_coords: &[Point]) -> (seeded: Result<(), GridError>)
        requires
            old(self).wf(),
        ensures
            final(self).wf(),
            seeded is Ok <==> forall|k: int|
                0 <= k < cells_coords@.len() ==> old(self)@.contains(
                    (#[trigger] cells_coords@[k]).x as int,
                    cells_coords@[k].y as int,
                ),
            seeded is Ok ==> final(self)@ == Board::seeded(
                old(self)@.width,
                old(self)@.height,
                positions(cells_coords@),
            ),
            seeded matches Err(e) ==> e == GridError::OutOfBounds && final(self)@ == old(self)@,
    {
        let mut k: usize = 0;
        while k < cells_coords.len()
            invariant
                *self == *old(self),
                self.wf(),
                k <= cells_coords@.len(),
                forall|j: int|
                    0 <= j < k ==> self@.contains(
                        (#[trigger] cells_coords@[j]).x as int,
                        cells_coords@[j].y as int,
                    ),
            decreases cells_coords@.len() - k,
        {
            if !self.contains(cells_coords[k]) {
                return Err(GridError::OutOfBounds);
            }
            k += 1;
        }
        let ghost points = positions(cells_coords@);
        let ghost before = self@;
        self.cells = dead_cells(self.cells.len());
        let mut k: usize = 0;
        while k < cells_coords.len()
            invariant
                self.wf(),
                self@.width == before.width,
                self@.height == before.height,
                before == old(self)@,
                points == positions(cells_coords@),
                k <= cells_coords@.len(),
                forall|j: int|
                    0 <= j < cells_coords@.len() ==> before.contains(
                        (#[trigger] cells_coords@[j]).x as int,
                        cells_coords@[j].y as int,
                    ),
                forall|i: int|
                    0 <= i < self@.cells.len() ==> #[trigger] self@.cells[i] == Board::listed_before(
                        points,
                        k as int,
                        self@.column_of(i),
                        self@.row_of(i),
                    ),
            decreases cells_coords@.len() - k,
        {
            let pos = cells_coords[k];
            let ghost earlier = self@;
            let idx = self.coords_to_index(pos);
            self.cells.set(idx, Cell::new(true));
            proof {
                assert(points[k as int] == (pos.x as int, pos.y as int));
                assert forall|i: int| 0 <= i < self@.cells.len() implies #[trigger] self@.cells[i]
                    == Board::listed_before(
                    points,
                    k + 1,
                    self@.column_of(i),
                    self@.row_of(i),
                ) by {
                    let x = self@.column_of(i);
                    let y = self@.row_of(i);
                    earlier.lemma_coords_of(i);
                    if i != idx && !earlier.cells[i] && Board::listed_before(points, k + 1, x, y) {
                        assert(Board::listed_before(points, k as int, x, y));
                    }
                }
            }
            k += 1;
        }
        assert(self@.cells =~= Board::seeded(before.width, before.height, points).cells);
        Ok(())
    }

    /// Replaces the state of every cell by the given values, in row-major
    /// order. A list whose length is not the number of cells is rejected and
    /// nothing changes.
    pub fn fill_state(&mut self, states: &[bool]) -> (filled: Result<(), GridError>)
        requires
            old(self).wf(),
        ensures
            final(self).wf(),
            filled is Ok <==> states@.len() == old(self)@.cells.len(),
            filled is Ok ==> final(self)@ == (Board { cells: states@, ..old(self)@ }),
            filled matches Err(e) ==> e == GridError::Configuration && final(self)@ == old(
                self,
            )@,
    {
        let n = self.cells.len();
        if states.len() != n {
            return Err(GridError::Configuration);
        }
        let mut cells: Vec<Cell> = Vec::new();
        let mut i: usize = 0;
        while i < n
            invariant
                n == states@.len(),
                i <= n,
                cells@.len() == i,
                forall|j: int| 0 <= j < i ==> (#[trigger] cells@[j])@ == states@[j],
            decreases n - i,
        {
            cells.push(Cell::new(states[i]));
            i += 1;
        }
        self.cells = cells;
        assert(self@.cells =~= states@);
        Ok(())
    }
}

} // verus!
