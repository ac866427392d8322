use picross::Cell;
use picross::Picross;
use picross::parse::FormatError;

fn tokens(ts: &[&str]) -> Vec<String> {
    ts.iter().map(|t| t.to_string()).collect()
}

#[test]
fn get_specs_examples() {
    assert_eq!(Picross::get_specs("[2,1]").unwrap(), vec![2, 1]);
    assert_eq!(Picross::get_specs("[42]").unwrap(), vec![42]);
    assert_eq!(Picross::get_specs("[]").unwrap(), Vec::<usize>::new());
    assert_eq!(Picross::get_specs("[0]").unwrap(), vec![0]);
    assert_eq!(Picross::get_specs("[1,2,3,4]").unwrap(), vec![1, 2, 3, 4]);
}

#[test]
fn get_specs_keeps_leading_zeros_value() {
    assert_eq!(Picross::get_specs("[007]").unwrap(), vec![7]);
}

#[test]
fn get_specs_rejects_internal_whitespace() {
    assert!(matches!(
        Picross::get_specs("[1, 2]"),
        Err(FormatError::InvalidInteger(ref s)) if s == " 2"
    ));
}

#[test]
fn get_specs_rejects_missing_brackets() {
    assert!(matches!(
        Picross::get_specs("["),
        Err(FormatError::InvalidClueSyntax(ref s)) if s == "["
    ));
    assert!(matches!(
        Picross::get_specs("(1,2)"),
        Err(FormatError::InvalidClueSyntax(ref s)) if s == "(1,2)"
    ));
    assert!(matches!(
        Picross::get_specs(""),
        Err(FormatError::InvalidClueSyntax(ref s)) if s.is_empty()
    ));
    assert!(matches!(
        Picross::get_specs("1,2"),
        Err(FormatError::InvalidClueSyntax(_))
    ));
}

#[test]
fn get_specs_rejects_non_numeric_pieces() {
    assert!(matches!(
        Picross::get_specs("[a,2]"),
        Err(FormatError::InvalidInteger(ref s)) if s == "a"
    ));
    assert!(matches!(
        Picross::get_specs("[1,,2]"),
        Err(FormatError::InvalidInteger(ref s)) if s.is_empty()
    ));
    assert!(matches!(
        Picross::get_specs("[1,2,]"),
        Err(FormatError::InvalidInteger(ref s)) if s.is_empty()
    ));
}

#[test]
fn get_specs_bounds() {
    // usize::MAX on a 64-bit target parses; one more does not fit.
    assert_eq!(
        Picross::get_specs("[18446744073709551615]").unwrap(),
        vec![usize::MAX]
    );
    assert!(matches!(
        Picross::get_specs("[18446744073709551616]"),
        Err(FormatError::InvalidInteger(ref s)) if s == "18446744073709551616"
    ));
}

#[test]
fn parse_fills_board_with_unknown() {
    let data = tokens(&[
        "9", "9", "[3,3]", "[1,1]", "[1,1]", "[1,1]", "[1]", "[1,1]", "[1,1]", "[1,1]", "[3,3]",
        "[1,1]", "[2,2]", "[1,1,1,1]", "[1,1]", "[1]", "[1,1]", "[1,1,1,1]", "[2,2]", "[1,1]",
    ]);
    let p = Picross::parse(&data).unwrap();
    assert_eq!(p.height, 9);
    assert_eq!(p.length, 9);
    assert_eq!(p.row_clues.len(), 9);
    assert_eq!(p.col_clues.len(), 9);
    assert_eq!(p.cells.len(), 9);
    for row in &p.cells {
        assert_eq!(row.len(), 9);
        for c in row {
            assert_eq!(*c, Cell::Unknown);
        }
    }
    assert_eq!(p.row_clues[4], vec![1]);
    assert_eq!(p.col_clues[7], vec![2, 2]);
    assert_eq!(p.row_clues[0], vec![3, 3]);
    assert_eq!(p.col_clues[2], vec![1, 1, 1, 1]);
}

#[test]
fn parse_ignores_trailing_tokens() {
    let data = tokens(&["1", "1", "[1]", "[1]", "[9]"]);
    let p = Picross::parse(&data).unwrap();
    assert_eq!(p.row_clues, vec![vec![1]]);
    assert_eq!(p.col_clues, vec![vec![1]]);
}

#[test]
fn parse_empty_dimensions() {
    let p = Picross::parse(&tokens(&["0", "0"])).unwrap();
    assert_eq!(p.height, 0);
    assert_eq!(p.length, 0);
    assert!(p.cells.is_empty());
    assert!(p.is_valid());
}

#[test]
fn parse_missing_fields() {
    assert!(matches!(
        Picross::parse(&tokens(&[])),
        Err(FormatError::MissingField)
    ));
    assert!(matches!(
        Picross::parse(&tokens(&["3"])),
        Err(FormatError::MissingField)
    ));
}

#[test]
fn parse_bad_dimensions() {
    assert!(matches!(
        Picross::parse(&tokens(&["x", "3"])),
        Err(FormatError::InvalidInteger(ref s)) if s == "x"
    ));
    assert!(matches!(
        Picross::parse(&tokens(&["3", "-1"])),
        Err(FormatError::InvalidInteger(ref s)) if s == "-1"
    ));
}

#[test]
fn parse_too_few_clue_tokens() {
    assert!(matches!(
        Picross::parse(&tokens(&["2", "2", "[1]", "[2]", "[1]"])),
        Err(FormatError::TokenCountMismatch { expected: 6, found: 5 })
    ));
    assert!(matches!(
        Picross::parse(&tokens(&["2", "2"])),
        Err(FormatError::TokenCountMismatch { expected: 6, found: 2 })
    ));
}

#[test]
fn parse_bad_clue_token() {
    assert!(matches!(
        Picross::parse(&tokens(&["1", "1", "(1)", "[1]"])),
        Err(FormatError::InvalidClueSyntax(ref s)) if s == "(1)"
    ));
    assert!(matches!(
        Picross::parse(&tokens(&["1", "1", "[1]", "[b]"])),
        Err(FormatError::InvalidInteger(ref s)) if s == "b"
    ));
}

#[test]
fn parse_then_solve_then_validate() {
    let data = tokens(&["2", "4", "[2,1]", "[3]", "[1]", "[2]", "[1]", "[2]"]);
    let mut p = Picross::parse(&data).unwrap();
    assert!(!p.is_valid());
    p.set_row(0, vec![Cell::Filled, Cell::Filled, Cell::Empty, Cell::Filled]);
    p.set_row(1, vec![Cell::Empty, Cell::Filled, Cell::Filled, Cell::Filled]);
    assert!(p.is_valid());
}
