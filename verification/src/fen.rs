//! Reading a position from its compact text form: a piece placement of
//! eight ranks from Black's side down, digits for runs of empty squares,
//! and a side-to-move letter. The parser is proved to accept exactly the
//! strings the recursive grammar below accepts, and to build exactly the
//! board the grammar describes.

use vstd::prelude::*;

use crate::board_view;
use crate::Board;
use crate::BoardV;
use crate::Color;
use crate::Piece;
use crate::PieceType;
use crate::PieceV;
use crate::Position;
use crate::lemma_board_view_update;
use crate::model::board_wf;
use crate::model::cell_wf;
use crate::model::sq_ix;
use crate::game::Chess;

use vstd::pervasive::VecAdditionalExecFns;
use vstd::string::StrSliceExecFns;

verus! {

/// The piece a placement letter stands for: uppercase is White.
pub open spec fn piece_of_char(c: char) -> Option<(PieceType, Color)> {
    if c == 'K' {
        Some((PieceType::King, Color::White))
    } else if c == 'Q' {
        Some((PieceType::Queen, Color::White))
    } else if c == 'R' {
        Some((PieceType::Rook, Color::White))
    } else if c == 'B' {
        Some((PieceType::Bishop, Color::White))
    } else if c == 'N' {
        Some((PieceType::Knight, Color::White))
    } else if c == 'P' {
        Some((PieceType::Pawn, Color::White))
    } else if c == 'k' {
        Some((PieceType::King, Color::Black))
    } else if c == 'q' {
        Some((PieceType::Queen, Color::Black))
    } else if c == 'r' {
        Some((PieceType::Rook, Color::Black))
    } else if c == 'b' {
        Some((PieceType::Bishop, Color::Black))
    } else if c == 'n' {
        Some((PieceType::Knight, Color::Black))
    } else if c == 'p' {
        Some((PieceType::Pawn, Color::Black))
    } else {
        None
    }
}

/// A digit `1` through `8`.
pub open spec fn is_run_digit(c: char) -> bool {
    '1' <= c && c <= '8'
}

/// The value of a run digit.
pub open spec fn run_len(c: char) -> int {
    c as int - '0' as int
}

/// The piece placed at `(col, row)`, fresh from the text: no history.
pub open spec fn placed_piece(t: PieceType, c: Color, col: int, row: int) -> PieceV {
    PieceV {
        piece_type: t,
        color: c,
        position: Position { x: col as usize, y: row as usize },
        prev_positions: Seq::empty(),
    }
}

/// One step of the placement grammar, reading `s` from position `i` with
/// the cursor at `(col, row)` on board `b`: a slash ends a full rank and
/// moves down one rank, a digit skips that many empty squares, a piece
/// letter fills one square, and the text ends after the last full rank.
/// `None` is every failure: an unknown letter, an overfull or short
/// rank, or too many or too few ranks.
pub open spec fn fen_rows(b: BoardV, row: int, col: int, s: Seq<char>, i: int) -> Option<BoardV>
    decreases s.len() - i,
{
    if i >= s.len() {
        if row == 0 && col == 8 {
            Some(b)
        } else {
            None
        }
    } else {
        let c = s[i];
        if c == '/' {
            if row > 0 && col == 8 {
                fen_rows(b, row - 1, 0, s, i + 1)
            } else {
                None
            }
        } else if is_run_digit(c) {
            if col + run_len(c) <= 8 {
                fen_rows(b, row, col + run_len(c), s, i + 1)
            } else {
                None
            }
        } else {
            match piece_of_char(c) {
                Some((t, cl)) => {
                    if col < 8 {
                        fen_rows(
                            b.update(sq_ix(col, row), Some(placed_piece(t, cl, col, row))),
                            row,
                            col + 1,
                            s,
                            i + 1,
                        )
                    } else {
                        None
                    }
                },
                None => None,
            }
        }
    }
}

/// The empty board: 64 empty squares.
pub open spec fn empty_board() -> BoardV {
    Seq::new(64, |i: int| None::<PieceV>)
}

/// What a placement text denotes: starting from the empty board at the
/// top left corner of Black's back rank.
pub open spec fn fen_board(s: Seq<char>) -> Option<BoardV> {
    fen_rows(empty_board(), 7, 0, s, 0)
}

/// Every board the grammar builds is well-formed.
proof fn lemma_fen_rows_wf(b: BoardV, row: int, col: int, s: Seq<char>, i: int)
    requires
        board_wf(b),
        0 <= row < 8,
        0 <= col <= 8,
        0 <= i <= s.len(),
        fen_rows(b, row, col, s, i) is Some,
    ensures
        board_wf(fen_rows(b, row, col, s, i)->0),
    decreases s.len() - i,
{
    if i >= s.len() {
    } else {
        let c = s[i];
        if c == '/' {
            lemma_fen_rows_wf(b, row - 1, 0, s, i + 1);
        } else if is_run_digit(c) {
            lemma_fen_rows_wf(b, row, col + run_len(c), s, i + 1);
        } else {
            match piece_of_char(c) {
                Some((t, cl)) => {
                    let b2 = b.update(sq_ix(col, row), Some(placed_piece(t, cl, col, row)));
                    assert forall|j: int| 0 <= j < 64 implies cell_wf(b2, j) by {
                        assert(cell_wf(b, j));
                    }
                    lemma_fen_rows_wf(b2, row, col + 1, s, i + 1);
                },
                None => {},
            }
        }
    }
}

impl Chess {
    /// Reads a piece placement: eight ranks from Black's side down,
    /// separated by slashes, each rank exactly eight squares of piece
    /// letters and empty runs. `None` for anything else.
    pub fn parse_fen_board(board_str: &str) -> (r: Option<Board>)
        ensures
            (r is Some) == (fen_board(board_str@) is Some),
            (r matches Some(bd) ==> {
                &&& board_view(bd@) == fen_board(board_str@)->0
                &&& bd@.len() == 64
                &&& board_wf(board_view(bd@))
            }),
    {
        let ghost s = board_str@;
        let mut board: Board = Vec::new();
        let mut j: usize = 0;
        while j < 64
            invariant
                board@.len() == j,
                j <= 64,
                forall|k: int| 0 <= k < j ==> board@[k] is None,
            decreases 64 - j,
        {
            board.push(None);
            j = j + 1;
        }
        proof {
            assert(board_view(board@) =~= empty_board());
        }
        let n = board_str.unicode_len();
        let mut i: usize = 0;
        let mut row: usize = 7;
        let mut col: usize = 0;
        while i < n
            invariant
                s == board_str@,
                n == s.len(),
                i <= n,
                row < 8,
                col <= 8,
                board@.len() == 64,
                board_wf(board_view(board@)),
                fen_board(s) == fen_rows(board_view(board@), row as int, col as int, s, i as int),
            decreases n - i,
        {
            let c = board_str.get_char(i);
            let cu = c as u32;
            if c == '/' {
                if !(row > 0 && col == 8) {
                    return None;
                }
                row = row - 1;
                col = 0;
            } else if 49 <= cu && cu <= 56 {
                let k = (cu - 48) as usize;
                if col + k > 8 {
                    return None;
                }
                col = col + k;
            } else {
                let placed: Option<(PieceType, Color)> = match c {
                    'K' => Some((PieceType::King, Color::White)),
                    'Q' => Some((PieceType::Queen, Color::White)),
                    'R' => Some((PieceType::Rook, Color::White)),
                    'B' => Some((PieceType::Bishop, Color::White)),
                    'N' => Some((PieceType::Knight, Color::White)),
                    'P' => Some((PieceType::Pawn, Color::White)),
                    'k' => Some((PieceType::King, Color::Black)),
                    'q' => Some((PieceType::Queen, Color::Black)),
                    'r' => Some((PieceType::Rook, Color::Black)),
                    'b' => Some((PieceType::Bishop, Color::Black)),
                    'n' => Some((PieceType::Knight, Color::Black)),
                    'p' => Some((PieceType::Pawn, Color::Black)),
                    _ => None,
                };
                match placed {
                    None => {
                        return None;
                    },
                    Some((t, cl)) => {
                        if col >= 8 {
                            return None;
                        }
                        let ix = row * 8 + col;
                        let piece = Piece {
                            piece_type: t,
                            color: cl,
                            position: Position { x: col, y: row },
                            prev_positions: Vec::new(),
                        };
                        let ghost bpre = board_view(board@);
                        proof {
                            lemma_board_view_update(board@, ix as int, Some(piece));
                            assert(piece@ == placed_piece(t, cl, col as int, row as int));
                        }
                        board.set(ix, Some(piece));
                        proof {
                            assert(board_view(board@) == bpre.update(
                                ix as int,
                                Some(placed_piece(t, cl, col as int, row as int)),
                            ));
                            assert forall|k: int| 0 <= k < 64 implies cell_wf(
                                board_view(board@),
                                k,
                            ) by {
                                assert(cell_wf(bpre, k));
                            }
                        }
                        col = col + 1;
                    },
                }
            }
            i = i + 1;
        }
        if row == 0 && col == 8 {
            proof {
                lemma_fen_rows_wf(board_view(board@), 0, 8, s, n as int);
            }
            Some(board)
        } else {
            None
        }
    }
}

/// A whitespace character, as the boundary between the text's fields.
pub open spec fn is_space(c: char) -> bool {
    c == ' ' || c == '\t' || c == '\n' || c == '\r'
}

/// The first position at or after `i` that is not whitespace.
pub open spec fn skip_ws(s: Seq<char>, i: int) -> int
    decreases s.len() - i,
{
    if i < 0 || i >= s.len() || !is_space(s[i]) {
        i
    } else {
        skip_ws(s, i + 1)
    }
}

/// The first whitespace position at or after `i`.
pub open spec fn token_end(s: Seq<char>, i: int) -> int
    decreases s.len() - i,
{
    if i < 0 || i >= s.len() || is_space(s[i]) {
        i
    } else {
        token_end(s, i + 1)
    }
}

/// The bounds of skipping and scanning.
proof fn lemma_scan_bounds(s: Seq<char>, i: int)
    requires
        0 <= i <= s.len(),
    ensures
        i <= skip_ws(s, i) <= s.len(),
        i <= token_end(s, i) <= s.len(),
    decreases s.len() - i,
{
    if i < s.len() {
        lemma_scan_bounds(s, i + 1);
    }
}

/// Finds the first position at or after `i` that is not whitespace.
fn scan_skip_ws(s: &str, i: usize, n: usize) -> (r: usize)
    requires
        i <= n,
        n == s@.len(),
    ensures
        r == skip_ws(s@, i as int),
        i <= r <= n,
{
    let mut j = i;
    while j < n
        invariant
            i <= j <= n,
            n == s@.len(),
            skip_ws(s@, i as int) == skip_ws(s@, j as int),
        decreases n - j,
    {
        let c = s.get_char(j);
        if !(c == ' ' || c == '\t' || c == '\n' || c == '\r') {
            return j;
        }
        j = j + 1;
    }
    j
}

/// Finds the first whitespace position at or after `i`.
fn scan_token_end(s: &str, i: usize, n: usize) -> (r: usize)
    requires
        i <= n,
        n == s@.len(),
    ensures
        r == token_end(s@, i as int),
        i <= r <= n,
{
    let mut j = i;
    while j < n
        invariant
            i <= j <= n,
            n == s@.len(),
            token_end(s@, i as int) == token_end(s@, j as int),
        decreases n - j,
    {
        let c = s.get_char(j);
        if c == ' ' || c == '\t' || c == '\n' || c == '\r' {
            return j;
        }
        j = j + 1;
    }
    j
}

/// The first whitespace-separated field of `s`, if there is one.
pub open spec fn first_field(s: Seq<char>) -> Option<Seq<char>> {
    let a = skip_ws(s, 0);
    if a >= s.len() {
        None
    } else {
        Some(s.subrange(a, token_end(s, a)))
    }
}

/// The second whitespace-separated field of `s`, if there is one.
pub open spec fn second_field(s: Seq<char>) -> Option<Seq<char>> {
    let a = skip_ws(s, 0);
    let b = token_end(s, a);
    let a2 = skip_ws(s, b);
    if a >= s.len() || a2 >= s.len() {
        None
    } else {
        Some(s.subrange(a2, token_end(s, a2)))
    }
}

/// The first two whitespace-separated fields of `s`.
pub(crate) fn first_two_fields<'a>(s: &'a str) -> (r: (Option<&'a str>, Option<&'a str>))
    ensures
        (r.0 matches Some(t) ==> first_field(s@) == Some(t@)),
        (r.0 is None ==> first_field(s@) is None),
        (r.1 matches Some(t) ==> second_field(s@) == Some(t@)),
        (r.1 is None ==> second_field(s@) is None),
{
    let n = s.unicode_len();
    let a = scan_skip_ws(s, 0, n);
    if a >= n {
        return (None, None);
    }
    let b = scan_token_end(s, a, n);
    let t1 = s.substring_char(a, b);
    let a2 = scan_skip_ws(s, b, n);
    if a2 >= n {
        return (Some(t1), None);
    }
    let b2 = scan_token_end(s, a2, n);
    let t2 = s.substring_char(a2, b2);
    (Some(t1), Some(t2))
}

} // verus!
