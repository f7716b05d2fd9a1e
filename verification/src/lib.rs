//! Conway's Game of Life on a dense grid with clipped edges: the grid, the
//! transition rule, the step from one generation to the next, and what holds
//! of them.

pub mod board;
pub mod cell;
pub mod grid;
pub mod laws;
