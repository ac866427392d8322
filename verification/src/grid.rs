//! The cell grid and its column-major view: building a fresh grid, reading
//! and writing rows and columns, and the transpose shared by the validator
//! and the renderer.

use vstd::prelude::*;

use crate::grid_view;
use crate::Cell;
use crate::Picross;

verus! {

/// Column `x` of a grid: the cells `g[0][x], g[1][x], ...` top to bottom.
pub open spec fn spec_column(g: Seq<Seq<Cell>>, x: int) -> Seq<Cell> {
    Seq::new(g.len(), |y: int| g[y][x])
}

/// The column-major reindexing of a grid whose rows have length `cols`.
pub open spec fn spec_transpose(g: Seq<Seq<Cell>>, cols: nat) -> Seq<Seq<Cell>> {
    Seq::new(cols, |x: int| spec_column(g, x))
}

/// True when every row of the grid has exactly `cols` cells.
pub open spec fn is_rectangular(g: Seq<Seq<Cell>>, cols: nat) -> bool {
    forall|y: int| 0 <= y < g.len() ==> (#[trigger] g[y]).len() == cols
}

/// Transposing twice gives the original grid back: the transpose of a
/// rectangular `rows x cols` grid is a rectangular `cols x rows` grid, and
/// transposing it again restores every cell.
pub proof fn lemma_transpose_involution(g: Seq<Seq<Cell>>, cols: nat)
    requires
        is_rectangular(g, cols),
    ensures
        is_rectangular(spec_transpose(g, cols), g.len()),
        spec_transpose(spec_transpose(g, cols), g.len()) == g,
{
    let t = spec_transpose(g, cols);
    let u = spec_transpose(t, g.len());
    assert forall|y: int| 0 <= y < u.len() implies u[y] =~= g[y] by {
        assert(u[y].len() == cols);
    }
    assert(u =~~= g);
}

/// A `height x length` grid with every cell `Unknown`.
pub fn unknown_grid(height: usize, length: usize) -> (r: Vec<Vec<Cell>>)
    ensures
        r@.len() == height,
        forall|y: int| 0 <= y < height ==> (#[trigger] r@[y])@.len() == length,
        forall|y: int, x: int|
            0 <= y < height && 0 <= x < length ==> (#[trigger] r@[y]@[x]) == Cell::Unknown,
{
    let mut rows: Vec<Vec<Cell>> = Vec::new();
    let mut y: usize = 0;
    while y < height
        invariant
            0 <= y <= height,
            rows@.len() == y,
            forall|j: int| 0 <= j < y ==> (#[trigger] rows@[j])@.len() == length,
            forall|j: int, x: int|
                0 <= j < y && 0 <= x < length ==> (#[trigger] rows@[j]@[x]) == Cell::Unknown,
        decreases height - y,
    {
        let mut row: Vec<Cell> = Vec::new();
        let mut x: usize = 0;
        while x < length
            invariant
                0 <= x <= length,
                row@.len() == x,
                forall|k: int| 0 <= k < x ==> (#[trigger] row@[k]) == Cell::Unknown,
            decreases length - x,
        {
            row.push(Cell::Unknown);
            x = x + 1;
        }
        rows.push(row);
        y = y + 1;
    }
    rows
}

/// The column-major view of a rectangular grid whose rows have length
/// `cols`: row `x` of the result is column `x` of the input.
pub fn transpose(cells: &Vec<Vec<Cell>>, cols: usize) -> (r: Vec<Vec<Cell>>)
    requires
        is_rectangular(grid_view(cells), cols as nat),
    ensures
        grid_view(&r) == spec_transpose(grid_view(cells), cols as nat),
        r@.len() == cols,
        forall|x: int| 0 <= x < cols ==> (#[trigger] r@[x])@.len() == cells@.len(),
        forall|x: int, y: int|
            0 <= x < cols && 0 <= y < cells@.len() ==> (#[trigger] r@[x]@[y]) == cells@[y]@[x],
{
    let rows = cells.len();
    let mut out: Vec<Vec<Cell>> = Vec::new();
    let mut x: usize = 0;
    while x < cols
        invariant
            0 <= x <= cols,
            rows == cells@.len(),
            is_rectangular(grid_view(cells), cols as nat),
            out@.len() == x,
            forall|i: int|
                0 <= i < x ==> (#[trigger] out@[i])@ == spec_column(grid_view(cells), i),
        decreases cols - x,
    {
        let mut col: Vec<Cell> = Vec::new();
        let mut y: usize = 0;
        while y < rows
            invariant
                0 <= y <= rows,
                x < cols,
                rows == cells@.len(),
                is_rectangular(grid_view(cells), cols as nat),
                col@.len() == y,
                forall|j: int| 0 <= j < y ==> (#[trigger] col@[j]) == cells@[j]@[x as int],
            decreases rows - y,
        {
            proof {
                assert(grid_view(cells)[y as int] == cells@[y as int]@);
            }
            col.push(cells[y][x]);
            y = y + 1;
        }
        proof {
            assert(col@ =~= spec_column(grid_view(cells), x as int));
        }
        out.push(col);
        x = x + 1;
    }
    proof {
        assert(grid_view(&out) =~= spec_transpose(grid_view(cells), cols as nat));
    }
    out
}

impl Picross {
    /// Replaces row `y` of the grid wholesale.
    pub fn set_row(&mut self, y: usize, row: Vec<Cell>)
        requires
            y < old(self).cells@.len(),
        ensures
            final(self).cells@ == old(self).cells@.update(y as int, row),
            final(self).height == old(self).height,
            final(self).length == old(self).length,
            final(self).row_clues == old(self).row_clues,
            final(self).col_clues == old(self).col_clues,
    {
        self.cells[y] = row;
    }

    /// Scatters `col` into column `x`: cell `y` of `col` replaces
    /// `cells[y][x]` in every row.
    pub fn set_col(&mut self, x: usize, col: Vec<Cell>)
        requires
            col@.len() == old(self).cells@.len(),
            forall|y: int|
                0 <= y < old(self).cells@.len() ==> x < (#[trigger] old(self).cells@[y])@.len(),
        ensures
            final(self).cells@.len() == old(self).cells@.len(),
            forall|y: int|
                0 <= y < final(self).cells@.len() ==> (#[trigger] final(self).cells@[y])@ == old(
                    self,
                ).cells@[y]@.update(x as int, col@[y]),
            final(self).height == old(self).height,
            final(self).length == old(self).length,
            final(self).row_clues == old(self).row_clues,
            final(self).col_clues == old(self).col_clues,
    {
        let n = self.cells.len();
        let mut y: usize = 0;
        while y < n
            invariant
                0 <= y <= n,
                n == self.cells@.len(),
                n == old(self).cells@.len(),
                col@.len() == n,
                forall|j: int|
                    0 <= j < n ==> x < (#[trigger] old(self).cells@[j])@.len(),
                forall|j: int|
                    y <= j < n ==> (#[trigger] self.cells@[j]) == old(self).cells@[j],
                forall|j: int|
                    0 <= j < y ==> (#[trigger] self.cells@[j])@ == old(self).cells@[j]@.update(
                        x as int,
                        col@[j],
                    ),
                self.height == old(self).height,
                self.length == old(self).length,
                self.row_clues == old(self).row_clues,
                self.col_clues == old(self).col_clues,
            decreases n - y,
        {
            self.cells[y][x] = col[y];
            y = y + 1;
        }
    }
}

} // verus!
