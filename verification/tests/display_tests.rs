use picross::Cell;
use picross::Picross;

#[test]
fn parse_then_render_unknown_grid() {
    let data: Vec<String> = ["1", "1", "[1]", "[1]"].iter().map(|t| t.to_string()).collect();
    let p = Picross::parse(&data).unwrap();
    assert_eq!(p.render(), " |1\n-+-\n1|?\n");
}

#[test]
fn specs_to_strings_joins_with_spaces() {
    assert_eq!(
        Picross::specs_to_strings(&vec![vec![1, 2], vec![], vec![42]]),
        vec!["1 2", "", "42"]
    );
    assert_eq!(
        Picross::specs_to_strings(&vec![vec![0], vec![10, 305]]),
        vec!["0", "10 305"]
    );
}

#[test]
fn max_len_non_empty_finds_longest() {
    assert_eq!(
        Picross::max_len_non_empty(&vec![
            "123 2".to_string(),
            "1".to_string(),
            "".to_string(),
            "124".to_string(),
        ]),
        5
    );
    assert_eq!(Picross::max_len_non_empty(&vec!["".to_string()]), 0);
}

#[test]
fn render_aligns_clues() {
    let p = Picross {
        height: 3,
        length: 3,
        row_clues: vec![vec![1, 1], vec![1], vec![1]],
        col_clues: vec![vec![1, 1], vec![], vec![2]],
        cells: vec![
            vec![Cell::Unknown, Cell::Empty, Cell::Filled],
            vec![Cell::Empty, Cell::Empty, Cell::Filled],
            vec![Cell::Filled, Cell::Unknown, Cell::Unknown],
        ],
    };
    let expected = "   |1  \n".to_string()
        + "   |   \n"
        + "   |1 2\n"
        + "---+---\n"
        + "1 1|? #\n"
        + "  1|  #\n"
        + "  1|#??\n";
    assert_eq!(p.render(), expected);
}

#[test]
fn render_single_cell() {
    let p = Picross {
        height: 1,
        length: 1,
        row_clues: vec![vec![1]],
        col_clues: vec![vec![1]],
        cells: vec![vec![Cell::Filled]],
    };
    assert_eq!(p.render(), " |1\n-+-\n1|#\n");
}

#[test]
fn render_multi_digit_clues() {
    // A wide row clue pads the left margin; a two-digit column clue
    // stacks its characters with the last one on top, as the header
    // formula prescribes.
    let p = Picross {
        height: 2,
        length: 2,
        row_clues: vec![vec![10, 2], vec![]],
        col_clues: vec![vec![3], vec![12]],
        cells: vec![
            vec![Cell::Filled, Cell::Empty],
            vec![Cell::Empty, Cell::Filled],
        ],
    };
    let expected = "    | 2\n".to_string() + "    |31\n" + "----+--\n" + "10 2|# \n"
        + "    | #\n";
    assert_eq!(p.render(), expected);
}
