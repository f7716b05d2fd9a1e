//! The mathematical model of a grid and of its generations.

use vstd::prelude::*;
use vstd::arithmetic::div_mod::{
    lemma_fundamental_div_mod, lemma_fundamental_div_mod_converse, lemma_multiply_divide_lt,
};

verus! {

/// The transition rule of Conway's Game of Life: a live cell survives with two
/// or three live neighbours, a dead cell comes alive with exactly three.
pub open spec fn survives(alive: bool, neighbours: nat) -> bool {
    (alive && (neighbours == 2 || neighbours == 3)) || (!alive && neighbours == 3)
}

/// Applies the transition rule to one cell, given the count of its live
/// neighbours.
pub fn next_state(alive: bool, neighbours: u8) -> (next: bool)
    ensures
        next == survives(alive, neighbours as nat),
{
    if alive && (neighbours == 2 || neighbours == 3) {
        return true;
    }
    if !alive && neighbours == 3 {
        return true;
    }
    false
}

/// The mathematical model of a grid: its extents and its cells in row-major
/// order, `true` for a live cell.
pub struct Board {
    pub width: nat,
    pub height: nat,
    pub cells: Seq<bool>,
}

impl Board {
    /// Both extents are positive and there is one cell per coordinate pair.
    pub open spec fn wf(self) -> bool {
        &&& self.width > 0
        &&& self.height > 0
        &&& self.cells.len() == self.width * self.height
    }

    /// The board of the given extents on which every cell is dead.
    pub open spec fn empty(width: nat, height: nat) -> Board {
        Board { width, height, cells: Seq::new(width * height, |i: int| false) }
    }

    /// Whether column `x`, row `y` lies on the board.
    pub open spec fn contains(self, x: int, y: int) -> bool {
        0 <= x < self.width && 0 <= y < self.height
    }

    /// The row-major index of column `x`, row `y`.
    pub open spec fn index_of(self, x: int, y: int) -> int {
        y * self.width + x
    }

    /// The column of the cell at index `i`.
    pub open spec fn column_of(self, i: int) -> int {
        i % (self.width as int)
    }

    /// The row of the cell at index `i`.
    pub open spec fn row_of(self, i: int) -> int {
        i / (self.width as int)
    }

    /// Whether the cell at column `x`, row `y` is alive. A position off the
    /// board holds no cell, so nothing is alive there: the edges are clipped,
    /// not wrapped.
    pub open spec fn alive(self, x: int, y: int) -> bool {
        self.contains(x, y) && self.cells[self.index_of(x, y)]
    }

    /// 1 for a live cell at column `x`, row `y`, else 0.
    pub open spec fn live(self, x: int, y: int) -> nat {
        if self.alive(x, y) {
            1
        } else {
            0
        }
    }

    /// The number of live cells among the eight positions around column `x`,
    /// row `y`.
    pub open spec fn neighbours(self, x: int, y: int) -> nat {
        self.live(x - 1, y - 1) + self.live(x, y - 1) + self.live(x + 1, y - 1)
            + self.live(x - 1, y) + self.live(x + 1, y)
            + self.live(x - 1, y + 1) + self.live(x, y + 1) + self.live(x + 1, y + 1)
    }

    /// The state in the next generation of the cell at index `i`.
    pub open spec fn next_cell(self, i: int) -> bool {
        survives(self.cells[i], self.neighbours(self.column_of(i), self.row_of(i)))
    }

    /// The next generation: every cell moves at once, each from the cells of
    /// this generation alone.
    pub open spec fn step(self) -> Board {
        Board {
            width: self.width,
            height: self.height,
            cells: Seq::new(self.cells.len(), |i: int| self.next_cell(i)),
        }
    }

    /// The board after `n` generations.
    pub open spec fn generations(self, n: nat) -> Board
        decreases n,
    {
        if n == 0 {
            self
        } else {
            self.step().generations((n - 1) as nat)
        }
    }

    /// Whether `(x, y)` is one of the first `n` listed positions.
    pub open spec fn listed_before(points: Seq<(int, int)>, n: int, x: int, y: int) -> bool {
        exists|k: int| 0 <= k < n && k < points.len() && #[trigger] points[k] == (x, y)
    }

    /// Whether `(x, y)` is one of the listed positions.
    pub open spec fn listed(points: Seq<(int, int)>, x: int, y: int) -> bool {
        Self::listed_before(points, points.len() as int, x, y)
    }

    /// The board of the given extents on which exactly the listed positions
    /// are alive.
    pub open spec fn seeded(width: nat, height: nat, points: Seq<(int, int)>) -> Board {
        Board {
            width,
            height,
            cells: Seq::new(
                width * height,
                |i: int| Self::listed(points, i % (width as int), i / (width as int)),
            ),
        }
    }

    /// A position on the board has an index below the number of cells, and
    /// column and row give the position back.
    pub proof fn lemma_index_of(self, x: int, y: int)
        requires
            self.wf(),
            self.contains(x, y),
        ensures
            0 <= self.index_of(x, y) < self.cells.len(),
            self.column_of(self.index_of(x, y)) == x,
            self.row_of(self.index_of(x, y)) == y,
    {
        let w = self.width as int;
        let h = self.height as int;
        lemma_fundamental_div_mod_converse(y * w + x, w, y, x);
        assert(y * w + x < w * h) by (nonlinear_arith)
            requires
                0 <= x < w,
                0 <= y < h,
        ;
        assert(0 <= y * w + x) by (nonlinear_arith)
            requires
                0 <= x < w,
                0 <= y < h,
        ;
    }

    /// An index below the number of cells has its column and row on the
    /// board, and they give the index back.
    pub proof fn lemma_coords_of(self, i: int)
        requires
            self.wf(),
            0 <= i < self.cells.len(),
        ensures
            self.contains(self.column_of(i), self.row_of(i)),
            self.index_of(self.column_of(i), self.row_of(i)) == i,
    {
        let w = self.width as int;
        let h = self.height as int;
        lemma_fundamental_div_mod(i, w);
        lemma_multiply_divide_lt(i, w, h);
        assert(w * (i / w) == (i / w) * w) by (nonlinear_arith);
        assert(0 <= i / w) by (nonlinear_arith)
            requires
                0 <= i,
                0 < w,
        ;
        assert(0 <= i % w < w);
    }
}

} // verus!
