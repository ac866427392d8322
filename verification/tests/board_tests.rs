use picross::Cell;
use picross::Picross;
use picross::grid::transpose;

fn sample_board() -> Picross {
    // Rows read [1,1] / [1] / [1]; columns read [1,1] / [] / [2].
    Picross {
        height: 3,
        length: 3,
        row_clues: vec![vec![1, 1], vec![1], vec![1]],
        col_clues: vec![vec![1, 1], vec![], vec![2]],
        cells: vec![
            vec![Cell::Filled, Cell::Empty, Cell::Filled],
            vec![Cell::Empty, Cell::Empty, Cell::Filled],
            vec![Cell::Filled, Cell::Empty, Cell::Empty],
        ],
    }
}

#[test]
fn valid_board_accepted() {
    assert!(sample_board().is_valid());
}

#[test]
fn every_single_cell_flip_rejected() {
    for y in 0..3 {
        for x in 0..3 {
            let mut p = sample_board();
            p.cells[y][x] = match p.cells[y][x] {
                Cell::Filled => Cell::Empty,
                Cell::Empty => Cell::Filled,
                Cell::Unknown => Cell::Unknown,
            };
            assert!(!p.is_valid(), "flip at ({}, {}) went unnoticed", y, x);
        }
    }
}

#[test]
fn unknown_cell_rejected() {
    let mut p = sample_board();
    p.cells[1][1] = Cell::Unknown;
    assert!(!p.is_valid());
}

#[test]
fn dimension_mismatch_rejected() {
    let p = Picross {
        height: 42,
        length: 24,
        cells: vec![vec![Cell::Filled]],
        row_clues: vec![vec![1]],
        col_clues: vec![vec![1]],
    };
    assert!(!p.is_valid());
}

#[test]
fn clue_count_mismatch_rejected() {
    let mut p = sample_board();
    p.row_clues.pop();
    assert!(!p.is_valid());
    let mut q = sample_board();
    q.col_clues.push(vec![1]);
    assert!(!q.is_valid());
}

#[test]
fn ragged_grid_rejected() {
    let mut p = sample_board();
    p.cells[2].pop();
    assert!(!p.is_valid());
}

#[test]
fn col_clue_order_matters() {
    let mut p = sample_board();
    p.col_clues[0] = vec![2];
    assert!(!p.is_valid());
}

#[test]
fn row_clue_order_matters() {
    let p = Picross {
        height: 2,
        length: 4,
        row_clues: vec![vec![2, 1], vec![3]],
        col_clues: vec![vec![1], vec![2], vec![1], vec![2]],
        cells: vec![
            vec![Cell::Filled, Cell::Filled, Cell::Empty, Cell::Filled],
            vec![Cell::Empty, Cell::Filled, Cell::Filled, Cell::Filled],
        ],
    };
    assert!(p.is_valid());
    let mut q = p;
    q.row_clues[0] = vec![1, 2];
    assert!(!q.is_valid());
}

#[test]
fn empty_board_is_valid() {
    let p = Picross {
        height: 0,
        length: 0,
        row_clues: vec![],
        col_clues: vec![],
        cells: vec![],
    };
    assert!(p.is_valid());
}

#[test]
fn transpose_swaps_axes() {
    let cells = vec![
        vec![Cell::Filled, Cell::Empty, Cell::Unknown],
        vec![Cell::Empty, Cell::Filled, Cell::Filled],
    ];
    let t = transpose(&cells, 3);
    assert_eq!(
        t,
        vec![
            vec![Cell::Filled, Cell::Empty],
            vec![Cell::Empty, Cell::Filled],
            vec![Cell::Unknown, Cell::Filled],
        ]
    );
}

#[test]
fn transpose_twice_restores_grid() {
    let cells = vec![
        vec![Cell::Filled, Cell::Empty, Cell::Unknown],
        vec![Cell::Empty, Cell::Filled, Cell::Filled],
    ];
    let back = transpose(&transpose(&cells, 3), 2);
    assert_eq!(back, cells);
}

#[test]
fn set_row_replaces_one_row() {
    let mut p = sample_board();
    p.set_row(1, vec![Cell::Filled, Cell::Filled, Cell::Filled]);
    assert_eq!(p.cells[1], vec![Cell::Filled, Cell::Filled, Cell::Filled]);
    assert_eq!(p.cells[0], vec![Cell::Filled, Cell::Empty, Cell::Filled]);
    assert_eq!(p.cells[2], vec![Cell::Filled, Cell::Empty, Cell::Empty]);
}

#[test]
fn set_col_scatters_into_rows() {
    let mut p = sample_board();
    p.set_col(2, vec![Cell::Empty, Cell::Unknown, Cell::Filled]);
    assert_eq!(p.cells[0], vec![Cell::Filled, Cell::Empty, Cell::Empty]);
    assert_eq!(p.cells[1], vec![Cell::Empty, Cell::Empty, Cell::Unknown]);
    assert_eq!(p.cells[2], vec![Cell::Filled, Cell::Empty, Cell::Filled]);
}
