//! A single two-state cell.

use vstd::prelude::*;

verus! {

/// One cell of a two-state automaton: alive or dead.
#[derive(Debug, Clone, Copy)]
pub struct Cell {
    alive: bool,
}

impl View for Cell {
    type V = bool;

    closed spec fn view(&self) -> bool {
        self.alive
    }
}

impl Cell {
    /// Makes a cell in the given state.
    pub fn new(alive: bool) -> (cell: Cell)
        ensures
            cell@ == alive,
    {
        Cell { alive }
    }

    /// Whether the cell is alive.
    pub fn is_alive(&self) -> (alive: bool)
        ensures
            alive == self@,
    {
        self.alive
    }

    /// Puts the cell in the given state.
    pub fn set_state(&mut self, alive: bool)
        ensures
            final(self)@ == alive,
    {
        self.alive = alive;
    }
}

} // verus!
