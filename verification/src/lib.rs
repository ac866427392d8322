//! A nonogram ("picross") puzzle board: a rectangular grid of cells, each
//! unresolved, filled, or empty, annotated with per-row and per-column
//! run-length clues.  The crate parses a board from a token stream, checks
//! whether a fully resolved grid satisfies every clue exactly, and renders
//! the board as an aligned ASCII grid with clues along the top and left
//! margins.

use vstd::prelude::*;

pub mod digits;
pub mod display;
pub mod grid;
pub mod parse;
pub mod validate;

verus! {

/// One cell of a nonogram grid: not yet resolved, filled in, or known empty.
#[derive(Clone, Copy, PartialEq, Eq, Structural, Debug)]
pub enum Cell {
    Unknown,
    Filled,
    Empty,
}

/// A nonogram board.
///
/// `cells` is stored row-major and addressed `cells[y][x]`; `row_clues[y]`
/// constrains row `y` (runs left to right) and `col_clues[x]` constrains
/// column `x` (runs top to bottom).  The fields are public and a board is
/// not structurally constrained at construction time: the validator checks
/// the dimension invariants itself and reports `false` on any mismatch.
pub struct Picross {
    pub height: usize,
    pub length: usize,
    pub row_clues: Vec<Vec<usize>>,
    pub col_clues: Vec<Vec<usize>>,
    pub cells: Vec<Vec<Cell>>,
}

/// The mathematical view of a cell grid: the sequence of its rows, each a
/// sequence of cells.
pub open spec fn grid_view(cells: &Vec<Vec<Cell>>) -> Seq<Seq<Cell>> {
    cells@.map_values(|r: Vec<Cell>| r@)
}

} // verus!
