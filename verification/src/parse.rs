//! The parser: builds a board from a flat sequence of string tokens, or
//! reports exactly why the tokens are malformed.
//!
//! Grammar, one logical value per token: the height, the length, then
//! `height` row-clue tokens and `length` column-clue tokens, each of the
//! form `[n1,n2,...,nk]` with no whitespace (`[]` is the empty clue).

use vstd::prelude::*;

use vstd::string::StrSliceExecFns;

use crate::digits::dec_val;
use crate::digits::is_dec_string;
use crate::digits::parse_usize;
use crate::grid::unknown_grid;
use crate::validate::clue_ints;
use crate::Cell;
use crate::Picross;

verus! {

/// Why a token stream failed to parse.  Every failure is terminal: the
/// caller gets no partial board.
#[derive(Debug)]
pub enum FormatError {
    /// The stream ended before the height or the length was read.
    MissingField,
    /// Text that should have been a decimal integer (a dimension token or
    /// one clue entry) is not one, or does not fit in `usize`; carries the
    /// offending text.
    InvalidInteger(String),
    /// A clue token does not start with `[` and end with `]`; carries the
    /// token.
    InvalidClueSyntax(String),
    /// The stream holds fewer clue tokens than the dimensions require.
    TokenCountMismatch { expected: usize, found: usize },
}

/// A token that denotes a non-negative integer representable in `usize`.
pub open spec fn is_int_token(s: Seq<char>) -> bool {
    is_dec_string(s) && dec_val(s) <= usize::MAX
}

/// A token that is wrapped in one bracket pair.
pub open spec fn bracketed(tok: Seq<char>) -> bool {
    tok.len() >= 2 && tok[0] == '[' && tok.last() == ']'
}

/// The text between the brackets of a clue token.
pub open spec fn interior(tok: Seq<char>) -> Seq<char> {
    tok.subrange(1, tok.len() - 1)
}

/// Splits a string at every comma.  The empty string is one empty piece;
/// `n` commas make `n + 1` pieces.
pub open spec fn split_commas(s: Seq<char>) -> Seq<Seq<char>>
    decreases s.len(),
{
    if s.len() == 0 {
        seq![s]
    } else if s[0] == ',' {
        seq![Seq::<char>::empty()] + split_commas(s.skip(1))
    } else {
        let rest = split_commas(s.skip(1));
        seq![seq![s[0]] + rest[0]] + rest.skip(1)
    }
}

/// A well-formed clue token: bracketed, and between the brackets either
/// nothing or comma-separated integer tokens.
pub open spec fn is_clue_token(tok: Seq<char>) -> bool {
    &&& bracketed(tok)
    &&& (interior(tok).len() == 0 || forall|k: int|
        0 <= k < split_commas(interior(tok)).len() ==> is_int_token(
            #[trigger] split_commas(interior(tok))[k],
        ))
}

/// The run lengths a well-formed clue token denotes, in order.
pub open spec fn spec_clue_values(tok: Seq<char>) -> Seq<int> {
    if interior(tok).len() == 0 {
        Seq::empty()
    } else {
        split_commas(interior(tok)).map_values(|p: Seq<char>| dec_val(p))
    }
}

/// The first piece of a piece list that is not an integer token.
pub open spec fn first_bad_piece(pieces: Seq<Seq<char>>) -> Seq<char>
    decreases pieces.len(),
{
    if pieces.len() == 0 {
        Seq::empty()
    } else if !is_int_token(pieces[0]) {
        pieces[0]
    } else {
        first_bad_piece(pieces.skip(1))
    }
}

/// The spec-level outcome of reading `n` clue tokens from the front of a
/// token sequence: the clues read, or the first failure.
pub enum SpecClues {
    Clues(Seq<Seq<int>>),
    BadClueSyntax(Seq<char>),
    BadInteger(Seq<char>),
    Missing,
}

/// Reads `n` clue tokens from the front of `toks`, stopping at the first
/// malformed or missing token.
pub open spec fn spec_parse_clues(toks: Seq<Seq<char>>, n: nat) -> SpecClues
    decreases n,
{
    if n == 0 {
        SpecClues::Clues(Seq::empty())
    } else if toks.len() == 0 {
        SpecClues::Missing
    } else if !bracketed(toks[0]) {
        SpecClues::BadClueSyntax(toks[0])
    } else if !is_clue_token(toks[0]) {
        SpecClues::BadInteger(first_bad_piece(split_commas(interior(toks[0]))))
    } else {
        match spec_parse_clues(toks.skip(1), (n - 1) as nat) {
            SpecClues::Clues(rest) => SpecClues::Clues(seq![spec_clue_values(toks[0])] + rest),
            e => e,
        }
    }
}

/// The spec-level outcome of parsing a whole token stream.
pub enum SpecParse {
    Board { height: int, length: int, rows: Seq<Seq<int>>, cols: Seq<Seq<int>> },
    MissingField,
    BadInteger(Seq<char>),
    BadClueSyntax(Seq<char>),
    BadCount,
}

/// Parses a token stream: the height, the length, `height` row clues,
/// then `length` column clues.  Tokens are consumed strictly in order and
/// the first failure decides the outcome; extra trailing tokens are
/// ignored.
pub open spec fn spec_parse(toks: Seq<Seq<char>>) -> SpecParse {
    if toks.len() == 0 {
        SpecParse::MissingField
    } else if !is_int_token(toks[0]) {
        SpecParse::BadInteger(toks[0])
    } else if toks.len() == 1 {
        SpecParse::MissingField
    } else if !is_int_token(toks[1]) {
        SpecParse::BadInteger(toks[1])
    } else {
        let h = dec_val(toks[0]);
        let l = dec_val(toks[1]);
        match spec_parse_clues(toks.skip(2), h as nat) {
            SpecClues::Clues(rows) => match spec_parse_clues(toks.skip(2 + h), l as nat) {
                SpecClues::Clues(cols) => SpecParse::Board { height: h, length: l, rows, cols },
                SpecClues::BadClueSyntax(t) => SpecParse::BadClueSyntax(t),
                SpecClues::BadInteger(c) => SpecParse::BadInteger(c),
                SpecClues::Missing => SpecParse::BadCount,
            },
            SpecClues::BadClueSyntax(t) => SpecParse::BadClueSyntax(t),
            SpecClues::BadInteger(c) => SpecParse::BadInteger(c),
            SpecClues::Missing => SpecParse::BadCount,
        }
    }
}

/// The clue lists of a board as mathematical integers.
pub open spec fn clue_list_ints(clues: Seq<Vec<usize>>) -> Seq<Seq<int>> {
    clues.map_values(|c: Vec<usize>| clue_ints(c@))
}

/// The number of tokens a `height x length` board needs, capped at
/// `usize::MAX`.
pub open spec fn spec_expected_tokens(h: int, l: int) -> int {
    if 2 + h + l <= usize::MAX {
        2 + h + l
    } else {
        usize::MAX as int
    }
}

/// A split always has at least one piece.
proof fn lemma_split_len(s: Seq<char>)
    ensures
        split_commas(s).len() >= 1,
    decreases s.len(),
{
    if s.len() > 0 && s[0] != ',' {
        lemma_split_len(s.skip(1));
    }
}

/// A string with no comma splits into itself alone.
proof fn lemma_split_no_comma(s: Seq<char>)
    requires
        forall|i: int| 0 <= i < s.len() ==> s[i] != ',',
    ensures
        split_commas(s) == seq![s],
    decreases s.len(),
{
    if s.len() > 0 {
        lemma_split_no_comma(s.skip(1));
        let rest = split_commas(s.skip(1));
        assert(rest[0] == s.skip(1));
        assert(seq![s[0]] + s.skip(1) =~= s);
        assert(rest.skip(1) =~= Seq::<Seq<char>>::empty());
        assert(split_commas(s) =~= seq![s]);
    }
}

/// Splitting at the first comma: the piece before it, then the split of
/// what follows it.
proof fn lemma_split_first_comma(s: Seq<char>, i: int)
    requires
        0 <= i < s.len(),
        s[i] == ',',
        forall|j: int| 0 <= j < i ==> s[j] != ',',
    ensures
        split_commas(s) == seq![s.take(i)] + split_commas(s.skip(i + 1)),
    decreases i,
{
    if i == 0 {
        assert(s.take(0) =~= Seq::<char>::empty());
        assert(split_commas(s) =~= seq![s.take(0)] + split_commas(s.skip(1)));
    } else {
        let t = s.skip(1);
        assert(t[i - 1] == ',');
        assert(forall|j: int| 0 <= j < i - 1 ==> #[trigger] t[j] != ',');
        lemma_split_first_comma(t, i - 1);
        let rest = split_commas(t);
        assert(rest == seq![t.take(i - 1)] + split_commas(t.skip(i)));
        assert(rest[0] == t.take(i - 1));
        assert(seq![s[0]] + t.take(i - 1) =~= s.take(i));
        assert(rest.skip(1) =~= split_commas(t.skip(i)));
        assert(t.skip(i) =~= s.skip(i + 1));
        assert(split_commas(s) =~= seq![s.take(i)] + split_commas(s.skip(i + 1)));
    }
}

/// `first_bad_piece` finds the earliest piece that is not an integer
/// token.
proof fn lemma_first_bad_piece(pieces: Seq<Seq<char>>, d: int)
    requires
        0 <= d < pieces.len(),
        forall|k: int| 0 <= k < d ==> is_int_token(#[trigger] pieces[k]),
        !is_int_token(pieces[d]),
    ensures
        first_bad_piece(pieces) == pieces[d],
    decreases d,
{
    if d > 0 {
        let t = pieces.skip(1);
        assert(forall|k: int| 0 <= k < d - 1 ==> is_int_token(#[trigger] t[k]));
        assert(t[d - 1] == pieces[d]);
        lemma_first_bad_piece(t, d - 1);
    }
}

impl Picross {
    /// Parses one clue token of the form `[n1,n2,...,nk]` into its run
    /// lengths.  `InvalidClueSyntax` exactly when the bracket pair is
    /// missing; `InvalidInteger`, carrying the earliest offending piece,
    /// exactly when some comma-separated piece between the brackets is not
    /// an integer that fits in `usize`.
    pub fn get_specs(s: &str) -> (r: Result<Vec<usize>, FormatError>)
        ensures
            match r {
                Ok(v) => is_clue_token(s@) && clue_ints(v@) == spec_clue_values(s@),
                Err(e) => !is_clue_token(s@) && match e {
                    FormatError::InvalidClueSyntax(t) => !bracketed(s@) && t@ == s@,
                    FormatError::InvalidInteger(c) => bracketed(s@) && c@ == first_bad_piece(
                        split_commas(interior(s@)),
                    ),
                    _ => false,
                },
            },
    {
        let len = s.unicode_len();
        if len < 2 {
            return Err(FormatError::InvalidClueSyntax(s.to_owned()));
        }
        if s.get_char(0) != '[' || s.get_char(len - 1) != ']' {
            return Err(FormatError::InvalidClueSyntax(s.to_owned()));
        }
        let inner = s.substring_char(1, len - 1);
        assert(inner@ == interior(s@));
        let inner_len = len - 2;
        assert(inner@.len() == inner_len);
        if inner_len == 0 {
            let empty_clue: Vec<usize> = Vec::new();
            assert(clue_ints(empty_clue@) =~= spec_clue_values(s@));
            return Ok(empty_clue);
        }
        let ghost pieces = split_commas(inner@);
        let mut vals: Vec<usize> = Vec::new();
        let mut rest: &str = inner;
        let mut rest_len: usize = inner_len;
        let ghost mut done: int = 0;
        loop
            invariant_except_break
                rest_len == rest@.len(),
                pieces == pieces.take(done) + split_commas(rest@),
            invariant
                0 <= done <= pieces.len(),
                vals@.len() == done,
                forall|k: int| 0 <= k < done ==> is_int_token(#[trigger] pieces[k]),
                forall|k: int| 0 <= k < done ==> clue_ints(vals@)[k] == dec_val(pieces[k]),
                bracketed(s@),
                inner@ == interior(s@),
                pieces == split_commas(interior(s@)),
                interior(s@).len() > 0,
            ensures
                done == pieces.len(),
            decreases rest_len,
        {
            let mut j: usize = 0;
            while j < rest_len && rest.get_char(j) != ','
                invariant
                    0 <= j <= rest_len,
                    rest_len == rest@.len(),
                    forall|k: int| 0 <= k < j ==> rest@[k] != ',',
                decreases rest_len - j,
            {
                j = j + 1;
            }
            proof {
                lemma_split_len(rest@);
                assert(pieces[done] == split_commas(rest@)[0]);
            }
            if j < rest_len {
                // a comma at `j` closes the current piece
                proof {
                    lemma_split_first_comma(rest@, j as int);
                }
                let piece = s_take(rest, j);
                assert(pieces[done] == piece@);
                match parse_usize(piece) {
                    Some(v) => {
                        let ghost vals0 = vals@;
                        vals.push(v);
                        let new_rest = s_skip(rest, j + 1);
                        proof {
                            assert(pieces.take(done + 1) =~= pieces.take(done) + seq![piece@]);
                            assert(pieces =~= pieces.take(done + 1) + split_commas(new_rest@));
                            assert forall|k: int|
                                0 <= k < done + 1 implies clue_ints(vals@)[k] == dec_val(
                                pieces[k],
                            ) by {
                                if k < done {
                                    assert(clue_ints(vals0)[k] == dec_val(pieces[k]));
                                }
                            }
                            done = done + 1;
                        }
                        rest = new_rest;
                        rest_len = rest_len - (j + 1);
                    },
                    None => {
                        proof {
                            lemma_first_bad_piece(pieces, done);
                        }
                        return Err(FormatError::InvalidInteger(piece.to_owned()));
                    },
                }
            } else {
                // no comma left: the remainder is the final piece
                proof {
                    lemma_split_no_comma(rest@);
                    assert(pieces[done] == rest@);
                }
                match parse_usize(rest) {
                    Some(v) => {
                        let ghost vals0 = vals@;
                        vals.push(v);
                        proof {
                            assert(pieces =~= pieces.take(done) + seq![rest@]);
                            assert(pieces.len() == done + 1);
                            assert forall|k: int|
                                0 <= k < done + 1 implies clue_ints(vals@)[k] == dec_val(
                                pieces[k],
                            ) by {
                                if k < done {
                                    assert(clue_ints(vals0)[k] == dec_val(pieces[k]));
                                }
                            }
                            done = done + 1;
                        }
                        break;
                    },
                    None => {
                        proof {
                            lemma_first_bad_piece(pieces, done);
                        }
                        return Err(FormatError::InvalidInteger(rest.to_owned()));
                    },
                }
            }
        }
        proof {
            assert(clue_ints(vals@) =~= spec_clue_values(s@));
        }
        Ok(vals)
    }

    /// Parses a board from a token stream: the height, the length,
    /// `height` row clues, then `length` column clues.  Fills every cell
    /// with `Unknown`.  Tokens are consumed strictly in declared order,
    /// the first malformed or missing token decides the error, and extra
    /// trailing tokens are ignored.
    pub fn parse(tokens: &Vec<String>) -> (r: Result<Picross, FormatError>)
        ensures
            match r {
                Ok(p) => {
                    &&& (spec_parse(tokens.deep_view()) matches SpecParse::Board {
                        height,
                        length,
                        rows,
                        cols,
                    } && p.height as int == height && p.length as int == length
                        && clue_list_ints(p.row_clues@) == rows && clue_list_ints(p.col_clues@)
                        == cols)
                    &&& p.row_clues@.len() == p.height
                    &&& p.col_clues@.len() == p.length
                    &&& p.cells@.len() == p.height
                    &&& forall|y: int|
                        0 <= y < p.height ==> (#[trigger] p.cells@[y])@.len() == p.length
                    &&& forall|y: int, x: int|
                        0 <= y < p.height && 0 <= x < p.length ==> (#[trigger] p.cells@[y]@[x])
                            == Cell::Unknown
                },
                Err(e) => match e {
                    FormatError::MissingField => spec_parse(tokens.deep_view())
                        is MissingField,
                    FormatError::InvalidInteger(c) => spec_parse(tokens.deep_view())
                        matches SpecParse::BadInteger(t) && t == c@,
                    FormatError::InvalidClueSyntax(t0) => spec_parse(tokens.deep_view())
                        matches SpecParse::BadClueSyntax(t) && t == t0@,
                    FormatError::TokenCountMismatch { expected, found } => {
                        &&& spec_parse(tokens.deep_view()) is BadCount
                        &&& found == tokens@.len()
                        &&& expected as int == spec_expected_tokens(
                            dec_val(tokens.deep_view()[0]),
                            dec_val(tokens.deep_view()[1]),
                        )
                    },
                },
            },
    {
        let ghost tv = tokens.deep_view();
        let ntok = tokens.len();
        proof {
            assert(tv.len() == ntok);
        }
        if ntok == 0 {
            return Err(FormatError::MissingField);
        }
        proof {
            assert(tv[0] == tokens@[0]@);
        }
        let height = match parse_usize(tokens[0].as_str()) {
            Some(n) => n,
            None => {
                return Err(FormatError::InvalidInteger(tokens[0].clone()));
            },
        };
        if ntok == 1 {
            return Err(FormatError::MissingField);
        }
        proof {
            assert(tv[1] == tokens@[1]@);
        }
        let length = match parse_usize(tokens[1].as_str()) {
            Some(n) => n,
            None => {
                return Err(FormatError::InvalidInteger(tokens[1].clone()));
            },
        };
        let cells = unknown_grid(height, length);
        let mut row_clues: Vec<Vec<usize>> = Vec::new();
        let mut i: usize = 0;
        while i < height
            invariant
                0 <= i <= height,
                tv == tokens.deep_view(),
                ntok == tv.len(),
                ntok == tokens@.len(),
                2 <= ntok,
                2 + i <= ntok,
                is_int_token(tv[0]),
                height as int == dec_val(tv[0]),
                is_int_token(tv[1]),
                length as int == dec_val(tv[1]),
                row_clues@.len() == i,
                (spec_parse_clues(tv.skip(2 + i), (height - i) as nat) matches SpecClues::Clues(
                    rest,
                ) ==> spec_parse_clues(tv.skip(2), height as nat) == SpecClues::Clues(
                    clue_list_ints(row_clues@) + rest,
                )),
                (!(spec_parse_clues(tv.skip(2 + i), (height - i) as nat) is Clues)
                    ==> spec_parse_clues(tv.skip(2), height as nat) == spec_parse_clues(
                    tv.skip(2 + i),
                    (height - i) as nat,
                )),
            decreases height - i,
        {
            if ntok - 2 <= i {
                proof {
                    assert(tv.skip(2 + i).len() == 0);
                }
                return Err(
                    FormatError::TokenCountMismatch {
                        expected: expected_tokens(height, length),
                        found: ntok,
                    },
                );
            }
            let idx = 2 + i;
            let ghost sub = tv.skip(2 + i);
            proof {
                assert(sub[0] == tv[idx as int]);
                assert(tv[idx as int] == tokens@[idx as int]@);
                assert(sub.skip(1) =~= tv.skip(2 + i + 1));
            }
            match Picross::get_specs(tokens[idx].as_str()) {
                Ok(v) => {
                    let ghost rc0 = row_clues@;
                    row_clues.push(v);
                    proof {
                        assert(clue_list_ints(row_clues@) =~= clue_list_ints(rc0).push(
                            clue_ints(v@),
                        ));
                        let b = spec_parse_clues(tv.skip(2 + i + 1), (height - i - 1) as nat);
                        match b {
                            SpecClues::Clues(rest2) => {
                                assert(spec_parse_clues(sub, (height - i) as nat)
                                    == SpecClues::Clues(seq![spec_clue_values(sub[0])] + rest2));
                                assert(clue_list_ints(rc0) + (seq![spec_clue_values(sub[0])]
                                    + rest2) =~= clue_list_ints(row_clues@) + rest2);
                            },
                            _ => {
                                assert(spec_parse_clues(sub, (height - i) as nat) == b);
                            },
                        }
                    }
                    i = i + 1;
                },
                Err(e) => {
                    proof {
                        assert(!(spec_parse_clues(sub, (height - i) as nat) is Clues));
                    }
                    return Err(e);
                },
            }
        }
        proof {
            assert(spec_parse_clues(tv.skip(2 + height), 0) == SpecClues::Clues(
                Seq::<Seq<int>>::empty(),
            ));
            assert(clue_list_ints(row_clues@) + Seq::<Seq<int>>::empty() =~= clue_list_ints(
                row_clues@,
            ));
            assert(spec_parse_clues(tv.skip(2), height as nat) == SpecClues::Clues(
                clue_list_ints(row_clues@),
            ));
        }
        let base = 2 + height;
        let mut col_clues: Vec<Vec<usize>> = Vec::new();
        let mut j: usize = 0;
        while j < length
            invariant
                0 <= j <= length,
                tv == tokens.deep_view(),
                ntok == tv.len(),
                ntok == tokens@.len(),
                2 <= ntok,
                base == 2 + height,
                base + j <= ntok,
                is_int_token(tv[0]),
                height as int == dec_val(tv[0]),
                is_int_token(tv[1]),
                length as int == dec_val(tv[1]),
                row_clues@.len() == height,
                spec_parse_clues(tv.skip(2), height as nat) == SpecClues::Clues(
                    clue_list_ints(row_clues@),
                ),
                col_clues@.len() == j,
                (spec_parse_clues(tv.skip(base as int + j), (length - j) as nat)
                    matches SpecClues::Clues(rest) ==> spec_parse_clues(
                    tv.skip(base as int),
                    length as nat,
                ) == SpecClues::Clues(clue_list_ints(col_clues@) + rest)),
                (!(spec_parse_clues(tv.skip(base as int + j), (length - j) as nat) is Clues)
                    ==> spec_parse_clues(tv.skip(base as int), length as nat) == spec_parse_clues(
                    tv.skip(base as int + j),
                    (length - j) as nat,
                )),
            decreases length - j,
        {
            if ntok - base <= j {
                proof {
                    assert(tv.skip(base as int + j).len() == 0);
                }
                return Err(
                    FormatError::TokenCountMismatch {
                        expected: expected_tokens(height, length),
                        found: ntok,
                    },
                );
            }
            let idx = base + j;
            let ghost sub = tv.skip(base as int + j);
            proof {
                assert(sub[0] == tv[idx as int]);
                assert(tv[idx as int] == tokens@[idx as int]@);
                assert(sub.skip(1) =~= tv.skip(base as int + j + 1));
            }
            match Picross::get_specs(tokens[idx].as_str()) {
                Ok(v) => {
                    let ghost cc0 = col_clues@;
                    col_clues.push(v);
                    proof {
                        assert(clue_list_ints(col_clues@) =~= clue_list_ints(cc0).push(
                            clue_ints(v@),
                        ));
                        let b = spec_parse_clues(
                            tv.skip(base as int + j + 1),
                            (length - j - 1) as nat,
                        );
                        match b {
                            SpecClues::Clues(rest2) => {
                                assert(spec_parse_clues(sub, (length - j) as nat)
                                    == SpecClues::Clues(seq![spec_clue_values(sub[0])] + rest2));
                                assert(clue_list_ints(cc0) + (seq![spec_clue_values(sub[0])]
                                    + rest2) =~= clue_list_ints(col_clues@) + rest2);
                            },
                            _ => {
                                assert(spec_parse_clues(sub, (length - j) as nat) == b);
                            },
                        }
                    }
                    j = j + 1;
                },
                Err(e) => {
                    proof {
                        assert(!(spec_parse_clues(sub, (length - j) as nat) is Clues));
                    }
                    return Err(e);
                },
            }
        }
        proof {
            assert(spec_parse_clues(tv.skip(base as int + length), 0) == SpecClues::Clues(
                Seq::<Seq<int>>::empty(),
            ));
            assert(clue_list_ints(col_clues@) + Seq::<Seq<int>>::empty() =~= clue_list_ints(
                col_clues@,
            ));
            assert(spec_parse_clues(tv.skip(base as int), length as nat) == SpecClues::Clues(
                clue_list_ints(col_clues@),
            ));
        }
        Ok(Picross { height, length, row_clues, col_clues, cells })
    }
}

/// The number of tokens a board with the given dimensions requires,
/// saturating at `usize::MAX`.
fn expected_tokens(h: usize, l: usize) -> (r: usize)
    ensures
        r as int == spec_expected_tokens(h as int, l as int),
{
    if h > usize::MAX - 2 {
        usize::MAX
    } else if l > usize::MAX - 2 - h {
        usize::MAX
    } else {
        2 + h + l
    }
}

/// The first `n` characters of a string slice.
fn s_take(s: &str, n: usize) -> (r: &str)
    requires
        n <= s@.len(),
    ensures
        r@ == s@.take(n as int),
{
    let r = s.substring_char(0, n);
    assert(r@ =~= s@.take(n as int));
    r
}

/// All but the first `n` characters of a string slice.
fn s_skip(s: &str, n: usize) -> (r: &str)
    requires
        n <= s@.len(),
    ensures
        r@ == s@.skip(n as int),
{
    let len = s.unicode_len();
    let r = s.substring_char(n, len);
    assert(r@ =~= s@.skip(n as int));
    r
}

} // verus!
