//! The renderer: prints a board as an aligned ASCII grid, with the column
//! clues right-aligned downward above the grid and the row clues
//! right-aligned against its left border.

use vstd::prelude::*;

use vstd::string::StrSliceExecFns;
use vstd::string::StringExecFns;

use crate::digits::dec_rep;
use crate::digits::usize_to_string;
use crate::grid::is_rectangular;
use crate::grid_view;
use crate::Cell;
use crate::Picross;

verus! {

/// A list of strings as character sequences.
pub open spec fn strings_view(ss: Seq<String>) -> Seq<Seq<char>> {
    ss.map_values(|s: String| s@)
}

/// One clue rendered as text: its run lengths in decimal, joined by
/// single spaces; the empty clue renders as the empty string.
pub open spec fn spec_clue_string(clue: Seq<usize>) -> Seq<char>
    decreases clue.len(),
{
    if clue.len() == 0 {
        Seq::empty()
    } else if clue.len() == 1 {
        dec_rep(clue[0] as nat)
    } else {
        spec_clue_string(clue.drop_last()) + seq![' '] + dec_rep(clue.last() as nat)
    }
}

/// The clue strings of a whole clue list.
pub open spec fn spec_clue_strings(clues: Seq<Vec<usize>>) -> Seq<Seq<char>> {
    clues.map_values(|c: Vec<usize>| spec_clue_string(c@))
}

/// The longest length among a list of strings (0 for an empty list).
pub open spec fn max_str_len(ss: Seq<Seq<char>>) -> int
    decreases ss.len(),
{
    if ss.len() == 0 {
        0
    } else {
        let m = max_str_len(ss.drop_last());
        if ss.last().len() > m {
            ss.last().len() as int
        } else {
            m
        }
    }
}

/// `n` spaces.
pub open spec fn spaces(n: int) -> Seq<char> {
    Seq::new(n as nat, |i: int| ' ')
}

/// `n` dashes.
pub open spec fn dashes(n: int) -> Seq<char> {
    Seq::new(n as nat, |i: int| '-')
}

/// Character `j` of a string, or a space when the string is too short.
pub open spec fn char_at_or_space(s: Seq<char>, j: int) -> char {
    if 0 <= j < s.len() {
        s[j]
    } else {
        ' '
    }
}

/// Header line `i` (0-indexed from the top of `hh` lines): `w` spaces, a
/// `|`, then for every column the character of its clue string at
/// position `hh - i - 1`, if any, else a space.  This right-aligns each
/// column's clue, read downward, against the bottom of the header block.
pub open spec fn spec_header_line(cs: Seq<Seq<char>>, w: int, hh: int, i: int) -> Seq<char> {
    spaces(w) + seq!['|'] + Seq::new(cs.len(), |x: int| char_at_or_space(cs[x], hh - i - 1))
        + seq!['\n']
}

/// Header lines `i` up to `hh`, concatenated.
pub open spec fn spec_header(cs: Seq<Seq<char>>, w: int, hh: int, i: int) -> Seq<char>
    decreases hh - i,
{
    if i < 0 || i >= hh {
        Seq::empty()
    } else {
        spec_header_line(cs, w, hh, i) + spec_header(cs, w, hh, i + 1)
    }
}

/// The separator between the header and the grid: `w` dashes, a `+`, one
/// dash per column.
pub open spec fn spec_separator(w: int, length: int) -> Seq<char> {
    dashes(w) + seq!['+'] + dashes(length) + seq!['\n']
}

/// How one cell prints.
pub open spec fn cell_char(c: Cell) -> char {
    match c {
        Cell::Unknown => '?',
        Cell::Empty => ' ',
        Cell::Filled => '#',
    }
}

/// A row of cells as printed characters.
pub open spec fn spec_cells_line(row: Seq<Cell>) -> Seq<char> {
    row.map_values(|c: Cell| cell_char(c))
}

/// One grid line: the row's clue string left-padded with spaces to width
/// `w`, a `|`, then the row's cells.
pub open spec fn spec_row_line(clue_str: Seq<char>, w: int, row: Seq<Cell>) -> Seq<char> {
    spaces(w - clue_str.len()) + clue_str + seq!['|'] + spec_cells_line(row) + seq!['\n']
}

/// Grid lines `y` up to the bottom, concatenated.
pub open spec fn spec_rows(rs: Seq<Seq<char>>, w: int, g: Seq<Seq<Cell>>, y: int) -> Seq<char>
    decreases g.len() - y,
{
    if y < 0 || y >= g.len() {
        Seq::empty()
    } else {
        spec_row_line(rs[y], w, g[y]) + spec_rows(rs, w, g, y + 1)
    }
}

/// The full rendering of a board: the column-clue header, the separator,
/// then one line per row.  Every line ends with a newline.
pub open spec fn spec_render(p: &Picross) -> Seq<char> {
    let rs = spec_clue_strings(p.row_clues@);
    let cs = spec_clue_strings(p.col_clues@);
    let w = max_str_len(rs);
    let hh = max_str_len(cs);
    spec_header(cs, w, hh, 0) + spec_separator(w, p.length as int) + spec_rows(
        rs,
        w,
        grid_view(&p.cells),
        0,
    )
}

/// Appends `n` spaces.
fn append_spaces(s: &mut String, n: usize)
    ensures
        final(s)@ == old(s)@ + spaces(n as int),
{
    let mut k: usize = 0;
    while k < n
        invariant
            0 <= k <= n,
            s@ == old(s)@ + spaces(k as int),
        decreases n - k,
    {
        proof {
            reveal_strlit(" ");
            assert(spaces(k as int + 1) =~= spaces(k as int) + seq![' ']);
            assert(old(s)@ + spaces(k as int + 1) =~= (old(s)@ + spaces(k as int)) + seq![' ']);
        }
        s.append(" ");
        k = k + 1;
    }
    proof {
        assert(old(s)@ + spaces(0) =~= old(s)@);
    }
}

/// Appends `n` dashes.
fn append_dashes(s: &mut String, n: usize)
    ensures
        final(s)@ == old(s)@ + dashes(n as int),
{
    let mut k: usize = 0;
    while k < n
        invariant
            0 <= k <= n,
            s@ == old(s)@ + dashes(k as int),
        decreases n - k,
    {
        proof {
            reveal_strlit("-");
            assert(dashes(k as int + 1) =~= dashes(k as int) + seq!['-']);
            assert(old(s)@ + dashes(k as int + 1) =~= (old(s)@ + dashes(k as int)) + seq!['-']);
        }
        s.append("-");
        k = k + 1;
    }
    proof {
        assert(old(s)@ + dashes(0) =~= old(s)@);
    }
}

impl Picross {
    /// Renders each clue of a clue list as text: the run lengths in
    /// decimal, joined by single spaces.
    pub fn specs_to_strings(specs: &Vec<Vec<usize>>) -> (r: Vec<String>)
        ensures
            r@.len() == specs@.len(),
            strings_view(r@) == spec_clue_strings(specs@),
            forall|i: int|
                0 <= i < specs@.len() ==> (#[trigger] r@[i])@ == spec_clue_string(specs@[i]@),
    {
        let mut out: Vec<String> = Vec::new();
        let n = specs.len();
        let mut i: usize = 0;
        while i < n
            invariant
                0 <= i <= n,
                n == specs@.len(),
                out@.len() == i,
                forall|j: int|
                    0 <= j < i ==> (#[trigger] out@[j])@ == spec_clue_string(specs@[j]@),
            decreases n - i,
        {
            let clue = &specs[i];
            let m = clue.len();
            let mut acc = String::new();
            let mut k: usize = 0;
            while k < m
                invariant
                    0 <= k <= m,
                    m == clue@.len(),
                    acc@ == spec_clue_string(clue@.take(k as int)),
                decreases m - k,
            {
                proof {
                    let t = clue@.take(k as int + 1);
                    assert(t.drop_last() =~= clue@.take(k as int));
                    assert(t.last() == clue@[k as int]);
                }
                if k > 0 {
                    proof {
                        reveal_strlit(" ");
                        assert(spec_clue_string(clue@.take(k as int + 1)) =~= (spec_clue_string(
                            clue@.take(k as int),
                        ) + seq![' ']) + dec_rep(clue@[k as int] as nat));
                    }
                    acc.append(" ");
                } else {
                    proof {
                        assert(spec_clue_string(clue@.take(1)) =~= dec_rep(clue@[0] as nat));
                        assert(acc@ + dec_rep(clue@[0] as nat) =~= dec_rep(clue@[0] as nat));
                    }
                }
                let num = usize_to_string(clue[k]);
                acc.append(num.as_str());
                k = k + 1;
            }
            proof {
                assert(clue@.take(m as int) =~= clue@);
            }
            out.push(acc);
            i = i + 1;
        }
        proof {
            assert(strings_view(out@) =~= spec_clue_strings(specs@));
        }
        out
    }

    /// The width of the longest string in a non-empty list.
    pub fn max_len_non_empty(specs: &Vec<String>) -> (r: usize)
        requires
            specs@.len() > 0,
        ensures
            r as int == max_str_len(strings_view(specs@)),
            forall|i: int| 0 <= i < specs@.len() ==> (#[trigger] specs@[i])@.len() <= r,
    {
        let n = specs.len();
        let mut best: usize = 0;
        let mut i: usize = 0;
        while i < n
            invariant
                0 <= i <= n,
                n == specs@.len(),
                best as int == max_str_len(strings_view(specs@).take(i as int)),
                forall|j: int| 0 <= j < i ==> (#[trigger] specs@[j])@.len() <= best,
            decreases n - i,
        {
            let len_i = specs[i].as_str().unicode_len();
            proof {
                let sv = strings_view(specs@);
                let t = sv.take(i as int + 1);
                assert(t.drop_last() =~= sv.take(i as int));
                assert(t.last() == sv[i as int]);
                assert(sv[i as int] == specs@[i as int]@);
            }
            if len_i > best {
                best = len_i;
            }
            i = i + 1;
        }
        proof {
            assert(strings_view(specs@).take(n as int) =~= strings_view(specs@));
        }
        best
    }

    /// Renders the board: `max col-clue width` header lines of column
    /// clues read downward, a separator, then one line per row with its
    /// right-aligned clue, `|`, and the cells as `?` (unknown), ` `
    /// (empty) or `#` (filled).
    pub fn render(&self) -> (r: String)
        requires
            self.height > 0,
            self.length > 0,
            self.cells@.len() == self.height,
            is_rectangular(grid_view(&self.cells), self.length as nat),
            self.row_clues@.len() == self.height,
            self.col_clues@.len() == self.length,
        ensures
            r@ == spec_render(self),
    {
        let row_strs = Picross::specs_to_strings(&self.row_clues);
        let col_strs = Picross::specs_to_strings(&self.col_clues);
        let w = Picross::max_len_non_empty(&row_strs);
        let hh = Picross::max_len_non_empty(&col_strs);
        let ghost rs = spec_clue_strings(self.row_clues@);
        let ghost cs = spec_clue_strings(self.col_clues@);
        proof {
            assert(strings_view(row_strs@) == rs);
            assert(strings_view(col_strs@) == cs);
        }
        let mut out = String::new();

        // Header: column clues, right-aligned downward.
        let mut i: usize = 0;
        while i < hh
            invariant
                0 <= i <= hh,
                col_strs@.len() == cs.len(),
                strings_view(col_strs@) == cs,
                out@ + spec_header(cs, w as int, hh as int, i as int) == spec_header(
                    cs,
                    w as int,
                    hh as int,
                    0,
                ),
            decreases hh - i,
        {
            let ghost line = spec_header_line(cs, w as int, hh as int, i as int);
            let ghost out0 = out@;
            append_spaces(&mut out, w);
            proof {
                reveal_strlit("|");
            }
            out.append("|");
            let ghost hdr_cells = Seq::new(
                cs.len(),
                |x: int| char_at_or_space(cs[x], hh as int - i as int - 1),
            );
            let n_cols = col_strs.len();
            let mut x: usize = 0;
            while x < n_cols
                invariant
                    0 <= x <= n_cols,
                    n_cols == col_strs@.len(),
                    strings_view(col_strs@) == cs,
                    n_cols == cs.len(),
                    i < hh,
                    hdr_cells == Seq::new(
                        cs.len(),
                        |x0: int| char_at_or_space(cs[x0], hh as int - i as int - 1),
                    ),
                    out@ == (out0 + spaces(w as int) + seq!['|']) + hdr_cells.take(x as int),
                decreases n_cols - x,
            {
                let pos = hh - i - 1;
                let cstr = &col_strs[x];
                proof {
                    assert(cs[x as int] == cstr@);
                    assert(hdr_cells.take(x as int + 1) =~= hdr_cells.take(x as int).push(
                        hdr_cells[x as int],
                    ));
                }
                if pos < cstr.as_str().unicode_len() {
                    let piece = cstr.as_str().substring_char(pos, pos + 1);
                    proof {
                        assert(piece@ =~= seq![cstr@[pos as int]]);
                        assert(hdr_cells[x as int] == cstr@[pos as int]);
                    }
                    out.append(piece);
                } else {
                    proof {
                        reveal_strlit(" ");
                        assert(hdr_cells[x as int] == ' ');
                    }
                    out.append(" ");
                }
                proof {
                    assert(out@ =~= ((out0 + spaces(w as int) + seq!['|']) + hdr_cells.take(
                        x as int,
                    )).push(hdr_cells[x as int]));
                }
                x = x + 1;
            }
            proof {
                reveal_strlit("\n");
                assert(hdr_cells.take(n_cols as int) =~= hdr_cells);
            }
            out.append("\n");
            proof {
                assert(out@ =~= out0 + line);
                assert(spec_header(cs, w as int, hh as int, i as int) == line + spec_header(
                    cs,
                    w as int,
                    hh as int,
                    i as int + 1,
                ));
                assert((out0 + line) + spec_header(cs, w as int, hh as int, i as int + 1)
                    =~= out0 + spec_header(cs, w as int, hh as int, i as int));
            }
            i = i + 1;
        }
        proof {
            assert(out@ + Seq::<char>::empty() =~= out@);
            assert(out@ == spec_header(cs, w as int, hh as int, 0));
        }

        // Separator.
        let ghost after_header = out@;
        append_dashes(&mut out, w);
        proof {
            reveal_strlit("+");
        }
        out.append("+");
        append_dashes(&mut out, self.length);
        proof {
            reveal_strlit("\n");
        }
        out.append("\n");
        proof {
            assert(out@ =~= after_header + spec_separator(w as int, self.length as int));
        }

        // Grid rows with their right-aligned clues.
        let ghost before_rows = out@;
        let ghost g = grid_view(&self.cells);
        let mut y: usize = 0;
        while y < self.height
            invariant
                0 <= y <= self.height,
                self.height > 0,
                self.length > 0,
                self.cells@.len() == self.height,
                is_rectangular(grid_view(&self.cells), self.length as nat),
                self.row_clues@.len() == self.height,
                g == grid_view(&self.cells),
                rs == spec_clue_strings(self.row_clues@),
                row_strs@.len() == self.height,
                strings_view(row_strs@) == rs,
                forall|j: int| 0 <= j < row_strs@.len() ==> (#[trigger] row_strs@[j])@.len() <= w,
                out@ + spec_rows(rs, w as int, g, y as int) == before_rows + spec_rows(
                    rs,
                    w as int,
                    g,
                    0,
                ),
            decreases self.height - y,
        {
            let ghost out0 = out@;
            let ghost line = spec_row_line(rs[y as int], w as int, g[y as int]);
            proof {
                assert(rs[y as int] == row_strs@[y as int]@);
            }
            let clue_len = row_strs[y].as_str().unicode_len();
            append_spaces(&mut out, w - clue_len);
            out.append(row_strs[y].as_str());
            proof {
                reveal_strlit("|");
            }
            out.append("|");
            let ghost cells_line = spec_cells_line(g[y as int]);
            let row_len = self.cells[y].len();
            proof {
                assert(g[y as int] == self.cells@[y as int]@);
                assert(row_len == self.length);
            }
            let mut x: usize = 0;
            while x < row_len
                invariant
                    0 <= x <= row_len,
                    y < self.cells@.len(),
                    row_len == self.cells@[y as int]@.len(),
                    g == grid_view(&self.cells),
                    g[y as int] == self.cells@[y as int]@,
                    cells_line == spec_cells_line(g[y as int]),
                    out@ == (out0 + spaces(w as int - rs[y as int].len()) + rs[y as int] + seq![
                        '|',
                    ]) + cells_line.take(x as int),
                decreases row_len - x,
            {
                proof {
                    assert(cells_line.take(x as int + 1) =~= cells_line.take(x as int).push(
                        cells_line[x as int],
                    ));
                    assert(cells_line[x as int] == cell_char(g[y as int][x as int]));
                }
                match self.cells[y][x] {
                    Cell::Unknown => {
                        proof {
                            reveal_strlit("?");
                        }
                        out.append("?");
                    },
                    Cell::Empty => {
                        proof {
                            reveal_strlit(" ");
                        }
                        out.append(" ");
                    },
                    Cell::Filled => {
                        proof {
                            reveal_strlit("#");
                        }
                        out.append("#");
                    },
                }
                proof {
                    assert(out@ =~= (out0 + spaces(w as int - rs[y as int].len()) + rs[y as int]
                        + seq!['|']) + cells_line.take(x as int).push(cells_line[x as int]));
                }
                x = x + 1;
            }
            proof {
                reveal_strlit("\n");
                assert(cells_line.take(row_len as int) =~= cells_line);
            }
            out.append("\n");
            proof {
                assert(out@ =~= out0 + line);
                assert(spec_rows(rs, w as int, g, y as int) == line + spec_rows(
                    rs,
                    w as int,
                    g,
                    y as int + 1,
                ));
                assert((out0 + line) + spec_rows(rs, w as int, g, y as int + 1) =~= out0
                    + spec_rows(rs, w as int, g, y as int));
            }
            y = y + 1;
        }
        proof {
            assert(out@ + Seq::<char>::empty() =~= out@);
            assert(out@ == before_rows + spec_rows(rs, w as int, g, 0));
            assert(out@ =~= spec_render(self));
        }
        out
    }
}

} // verus!
