//! The validator: whether a board's filled/empty pattern satisfies every
//! row's and column's run-length clue exactly.

use vstd::prelude::*;

use crate::grid::is_rectangular;
use crate::grid::spec_column;
use crate::grid::transpose;
use crate::grid_view;
use crate::Cell;
use crate::Picross;

verus! {

/// Length of the maximal run of `Filled` cells at the end of a line.
pub open spec fn open_run(line: Seq<Cell>) -> int
    decreases line.len(),
{
    if line.len() == 0 {
        0
    } else if line.last() == Cell::Filled {
        open_run(line.drop_last()) + 1
    } else {
        0
    }
}

/// The lengths of the runs already closed by an `Empty` cell, in order of
/// appearance, left to right.
pub open spec fn closed_runs(line: Seq<Cell>) -> Seq<int>
    decreases line.len(),
{
    if line.len() == 0 {
        Seq::empty()
    } else if line.last() == Cell::Empty && open_run(line.drop_last()) > 0 {
        closed_runs(line.drop_last()).push(open_run(line.drop_last()))
    } else {
        closed_runs(line.drop_last())
    }
}

/// The run-length decomposition of a line: the lengths of its maximal
/// contiguous blocks of `Filled` cells, in order of appearance.
pub open spec fn runs_of(line: Seq<Cell>) -> Seq<int> {
    if open_run(line) > 0 {
        closed_runs(line).push(open_run(line))
    } else {
        closed_runs(line)
    }
}

/// True when no cell of the line is still `Unknown`.
pub open spec fn all_known(line: Seq<Cell>) -> bool {
    forall|i: int| 0 <= i < line.len() ==> (#[trigger] line[i]) != Cell::Unknown
}

/// A clue's run lengths as mathematical integers.
pub open spec fn clue_ints(clue: Seq<usize>) -> Seq<int> {
    clue.map_values(|v: usize| v as int)
}

/// A line satisfies a clue when it is fully resolved to `Filled`/`Empty`
/// and its run-length decomposition equals the clue exactly.
pub open spec fn line_matches(line: Seq<Cell>, clue: Seq<usize>) -> bool {
    all_known(line) && runs_of(line) == clue_ints(clue)
}

/// A board is valid when its dimensions are consistent and every row and
/// every column matches its clue.
pub open spec fn spec_valid(p: &Picross) -> bool {
    &&& p.cells@.len() == p.height
    &&& is_rectangular(grid_view(&p.cells), p.length as nat)
    &&& p.row_clues@.len() == p.height
    &&& p.col_clues@.len() == p.length
    &&& forall|y: int|
        0 <= y < p.height ==> line_matches(
            #[trigger] grid_view(&p.cells)[y],
            p.row_clues@[y]@,
        )
    &&& forall|x: int|
        0 <= x < p.length ==> line_matches(
            #[trigger] spec_column(grid_view(&p.cells), x),
            p.col_clues@[x]@,
        )
}

/// The runs closed within a prefix of a line stay closed, with the same
/// lengths, in the whole line.
proof fn lemma_closed_runs_prefix(line: Seq<Cell>, i: int)
    requires
        0 <= i <= line.len(),
    ensures
        closed_runs(line.take(i)).len() <= closed_runs(line).len(),
        forall|k: int|
            0 <= k < closed_runs(line.take(i)).len() ==> closed_runs(line)[k] == #[trigger] closed_runs(
                line.take(i),
            )[k],
    decreases line.len() - i,
{
    if i < line.len() {
        lemma_closed_runs_prefix(line, i + 1);
        let t = line.take(i + 1);
        assert(t.drop_last() =~= line.take(i));
        let a = closed_runs(line.take(i));
        let b = closed_runs(t);
        assert forall|k: int| 0 <= k < a.len() implies closed_runs(line)[k] == a[k] by {
            assert(b[k] == a[k]);
            assert(closed_runs(line)[k] == b[k]);
        }
    } else {
        assert(line.take(i) =~= line);
    }
}

/// Every closed run of a line is a run of the whole line, in place.
proof fn lemma_closed_runs_of(line: Seq<Cell>)
    ensures
        closed_runs(line).len() <= runs_of(line).len(),
        forall|k: int|
            0 <= k < closed_runs(line).len() ==> runs_of(line)[k] == #[trigger] closed_runs(
                line,
            )[k],
{
}

/// Scans one line against one clue.  Returns exactly whether the line is
/// fully resolved and its run-length decomposition equals the clue.
pub fn check_line(line: &Vec<Cell>, clue: &Vec<usize>) -> (b: bool)
    ensures
        b == line_matches(line@, clue@),
{
    let n = line.len();
    let mut num_block: usize = 0;
    let mut size_block: usize = 0;
    let mut i: usize = 0;
    while i < n
        invariant
            0 <= i <= n,
            n == line@.len(),
            num_block <= clue@.len(),
            size_block <= i,
            size_block as int == open_run(line@.take(i as int)),
            closed_runs(line@.take(i as int)) == clue_ints(clue@).take(num_block as int),
            all_known(line@.take(i as int)),
        decreases n - i,
    {
        let c = line[i];
        proof {
            assert(line@.take(i as int + 1).drop_last() =~= line@.take(i as int));
            assert(line@.take(i as int + 1).last() == line@[i as int]);
        }
        match c {
            Cell::Unknown => {
                assert(line@[i as int] == Cell::Unknown);
                return false;
            },
            Cell::Filled => {
                size_block = size_block + 1;
            },
            Cell::Empty => {
                if size_block > 0 {
                    if num_block >= clue.len() || size_block != clue[num_block] {
                        proof {
                            let t = line@.take(i as int + 1);
                            assert(closed_runs(t) == closed_runs(line@.take(i as int)).push(
                                size_block as int,
                            ));
                            assert(closed_runs(t)[num_block as int] == size_block as int);
                            lemma_closed_runs_prefix(line@, i as int + 1);
                            lemma_closed_runs_of(line@);
                            assert(runs_of(line@)[num_block as int] == size_block as int);
                            assert(runs_of(line@).len() > num_block as int);
                            if num_block < clue@.len() {
                                assert(clue_ints(clue@)[num_block as int] == clue@[num_block as int] as int);
                            }
                            assert(runs_of(line@) != clue_ints(clue@));
                        }
                        return false;
                    }
                    proof {
                        let t = line@.take(i as int + 1);
                        assert(closed_runs(t) =~= clue_ints(clue@).take(num_block as int + 1));
                    }
                    num_block = num_block + 1;
                    size_block = 0;
                }
            },
        }
        i = i + 1;
    }
    proof {
        assert(line@.take(n as int) =~= line@);
    }
    if size_block > 0 {
        if num_block >= clue.len() || size_block != clue[num_block] {
            proof {
                assert(runs_of(line@) == closed_runs(line@).push(size_block as int));
                assert(runs_of(line@)[num_block as int] == size_block as int);
                if num_block < clue@.len() {
                    assert(clue_ints(clue@)[num_block as int] == clue@[num_block as int] as int);
                }
                assert(runs_of(line@) != clue_ints(clue@));
            }
            return false;
        }
        proof {
            assert(runs_of(line@) == closed_runs(line@).push(size_block as int));
            assert(runs_of(line@) =~= clue_ints(clue@).take(num_block as int + 1));
        }
        num_block = num_block + 1;
    } else {
        proof {
            assert(runs_of(line@) == closed_runs(line@));
        }
    }
    if num_block != clue.len() {
        proof {
            assert(runs_of(line@) =~= clue_ints(clue@).take(num_block as int));
            assert(runs_of(line@).len() == num_block as int);
            assert(clue_ints(clue@).len() == clue@.len());
            assert(runs_of(line@) != clue_ints(clue@));
        }
        return false;
    }
    proof {
        assert(runs_of(line@) =~= clue_ints(clue@));
    }
    true
}

/// If any cell of the grid is still `Unknown`, the board is not valid.
pub proof fn lemma_unknown_cell_invalid(p: &Picross, y: int, x: int)
    requires
        0 <= y < p.cells@.len(),
        0 <= x < p.cells@[y]@.len(),
        p.cells@[y]@[x] == Cell::Unknown,
    ensures
        !spec_valid(p),
{
    if spec_valid(p) {
        assert(grid_view(&p.cells)[y] == p.cells@[y]@);
        assert(line_matches(grid_view(&p.cells)[y], p.row_clues@[y]@));
        assert(p.cells@[y]@[x] != Cell::Unknown);
    }
}

impl Picross {
    /// Checks whether the board is valid: the grid has exactly `height`
    /// rows of `length` cells, there is one clue per row and per column,
    /// no cell is `Unknown`, and the run-length decomposition of every row
    /// and every column equals its clue.  Total: any inconsistency yields
    /// `false`, never an error.
    pub fn is_valid(&self) -> (b: bool)
        ensures
            b == spec_valid(self),
    {
        if self.cells.len() != self.height {
            return false;
        }
        let mut y: usize = 0;
        let n = self.cells.len();
        while y < n
            invariant
                0 <= y <= n,
                n == self.cells@.len(),
                forall|j: int| 0 <= j < y ==> (#[trigger] grid_view(&self.cells)[j]).len()
                    == self.length,
            decreases n - y,
        {
            if self.cells[y].len() != self.length {
                proof {
                    assert(grid_view(&self.cells)[y as int].len() != self.length);
                }
                return false;
            }
            proof {
                assert(grid_view(&self.cells)[y as int].len() == self.length);
            }
            y = y + 1;
        }
        if self.row_clues.len() != self.height || self.col_clues.len() != self.length {
            return false;
        }
        let mut y: usize = 0;
        while y < n
            invariant
                0 <= y <= n,
                n == self.cells@.len(),
                n == self.height,
                self.row_clues@.len() == self.height,
                forall|j: int|
                    0 <= j < y ==> line_matches(
                        #[trigger] grid_view(&self.cells)[j],
                        self.row_clues@[j]@,
                    ),
            decreases n - y,
        {
            if !check_line(&self.cells[y], &self.row_clues[y]) {
                proof {
                    assert(grid_view(&self.cells)[y as int] == self.cells@[y as int]@);
                }
                return false;
            }
            proof {
                assert(grid_view(&self.cells)[y as int] == self.cells@[y as int]@);
            }
            y = y + 1;
        }
        let cols = transpose(&self.cells, self.length);
        let mut x: usize = 0;
        let m = cols.len();
        while x < m
            invariant
                0 <= x <= m,
                m == self.length,
                m == cols@.len(),
                self.col_clues@.len() == self.length,
                forall|i: int|
                    0 <= i < m ==> (#[trigger] cols@[i])@ == spec_column(
                        grid_view(&self.cells),
                        i,
                    ),
                forall|i: int|
                    0 <= i < x ==> line_matches(
                        #[trigger] spec_column(grid_view(&self.cells), i),
                        self.col_clues@[i]@,
                    ),
            decreases m - x,
        {
            if !check_line(&cols[x], &self.col_clues[x]) {
                return false;
            }
            x = x + 1;
        }
        true
    }
}

} // verus!
