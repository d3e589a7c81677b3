//! A chess rules engine: board and piece model, pseudo-legal move
//! generation, legality filtering against self-check, status
//! classification (check, checkmate, stalemate, draws, promotion),
//! and the special moves (castling, en passant, promotion).

use vstd::prelude::*;

pub mod apply;
pub mod fen;
pub mod game;
pub mod laws;
pub mod model;
pub mod status;

pub use game::Chess;
pub use game::GameV;
pub use moves::generate_moves;
pub mod moves;

verus! {

/// The two sides of a game.
#[derive(Clone, Copy, Debug, PartialEq, Eq, Structural)]
pub enum Color {
    Black,
    White,
}

impl Color {
    /// The opposite side.
    pub open spec fn spec_not(self) -> Color {
        match self {
            Color::Black => Color::White,
            Color::White => Color::Black,
        }
    }

    /// The opposite side.
    #[verifier::when_used_as_spec(spec_not)]
    pub fn not(self) -> (r: Color)
        ensures
            r == self.spec_not(),
    {
        match self {
            Color::Black => Color::White,
            Color::White => Color::Black,
        }
    }

    /// The direction this side's pawns advance along the rank axis.
    pub open spec fn spec_dir(self) -> int {
        match self {
            Color::White => 1,
            Color::Black => -1,
        }
    }
}

/// Why a game ended in a draw.
#[derive(Clone, Copy, Debug, PartialEq, Eq, Structural)]
pub enum DrawType {
    Stalemate,
    FiftyMoveRule,
    ThreefoldRepetition,
}

/// The classification of the current position.
#[derive(Clone, Copy, Debug, PartialEq, Eq, Structural)]
pub enum Status {
    Chilling,
    Check(Color),
    Checkmate(Color),
    Draw(DrawType),
    AwaitingPromotion,
}

/// The outcome of validating or applying a move.
#[derive(Clone, Copy, Debug, PartialEq, Eq, Structural)]
pub enum ValidationResult {
    Valid(Status),
    InvalidPosition,
    InvalidMove,
    InvalidTurn,
}

/// The six kinds of chess piece.
#[derive(Clone, Copy, Debug, PartialEq, Eq, Structural)]
pub enum PieceType {
    King,
    Queen,
    Rook,
    Bishop,
    Knight,
    Pawn,
}

/// Which wing a castling move is on, and whose it is.
#[derive(Clone, Copy, Debug, PartialEq, Eq, Structural)]
pub enum CastlingType {
    KingSide(Color),
    QueenSide(Color),
}

/// How a move is applied, derived from the board rather than stored.
#[derive(Clone, Copy, Debug, PartialEq, Eq, Structural)]
pub enum MoveType {
    Normal,
    Castling(CastlingType),
    Promotion,
    EnPassant,
}

/// A square, as a file (`x`, 0 through 7) and a rank (`y`, 0 through 7).
#[derive(Clone, Copy, Debug, PartialEq, Eq, Structural)]
pub struct Position {
    pub x: usize,
    pub y: usize,
}

/// A piece on the board: its kind, its side, the square it stands on,
/// and every square it stood on before, oldest first.
#[derive(Debug)]
pub struct Piece {
    pub piece_type: PieceType,
    pub color: Color,
    pub position: Position,
    pub prev_positions: Vec<Position>,
}

/// The mathematical value of a `Piece`: the history is a sequence.
#[verifier::ext_equal]
pub ghost struct PieceV {
    pub piece_type: PieceType,
    pub color: Color,
    pub position: Position,
    pub prev_positions: Seq<Position>,
}

impl View for Piece {
    type V = PieceV;

    open spec fn view(&self) -> PieceV {
        PieceV {
            piece_type: self.piece_type,
            color: self.color,
            position: self.position,
            prev_positions: self.prev_positions@,
        }
    }
}

/// A candidate move: the snapshot of the moving piece, the two squares,
/// and whether the destination square holds a piece that would be taken.
#[derive(Debug)]
pub struct Move {
    pub piece: Piece,
    pub from: Position,
    pub to: Position,
    pub take_piece: bool,
}

/// The 64 squares, rank by rank from White's side; square `(x, y)` is
/// at index `y * 8 + x`.
pub type Board = Vec<Option<Piece>>;

/// The mathematical value of a board.
pub type BoardV = Seq<Option<PieceV>>;

/// The view of one board cell.
pub open spec fn cell_view(c: Option<Piece>) -> Option<PieceV> {
    match c {
        Some(p) => Some(p@),
        None => None,
    }
}

/// The view of a whole board.
pub open spec fn board_view(b: Seq<Option<Piece>>) -> BoardV {
    b.map_values(|c: Option<Piece>| cell_view(c))
}

impl Position {
    /// What index in a board a square occupies.
    pub open spec fn spec_index(self) -> int {
        self.y * 8 + self.x
    }

    /// The square's name in algebraic notation, file letter then rank digit.
    pub fn to_str(&self) -> (r: String)
        requires
            self.x < 8,
            self.y < 8,
        ensures
            r@.len() == 2,
            r@[0] == file_char(self.x as int),
            r@[1] == rank_char(self.y as int),
    {
        let f: &str = match self.x {
            0 => "a",
            1 => "b",
            2 => "c",
            3 => "d",
            4 => "e",
            5 => "f",
            6 => "g",
            _ => "h",
        };
        let k: &str = match self.y {
            0 => "1",
            1 => "2",
            2 => "3",
            3 => "4",
            4 => "5",
            5 => "6",
            6 => "7",
            _ => "8",
        };
        proof {
            reveal_strlit("a");
            reveal_strlit("b");
            reveal_strlit("c");
            reveal_strlit("d");
            reveal_strlit("e");
            reveal_strlit("f");
            reveal_strlit("g");
            reveal_strlit("h");
            reveal_strlit("1");
            reveal_strlit("2");
            reveal_strlit("3");
            reveal_strlit("4");
            reveal_strlit("5");
            reveal_strlit("6");
            reveal_strlit("7");
            reveal_strlit("8");
        }
        let mut r = f.to_owned();
        r.append(k);
        r
    }

    /// Reads a square from algebraic notation: a file letter `a` through
    /// `h` (either case) followed by a rank digit `1` through `8`.
    pub fn from_str(s: &str) -> (r: Self)
        requires
            s@.len() >= 2,
            ('a' <= s@[0] && s@[0] <= 'h') || ('A' <= s@[0] && s@[0] <= 'H'),
            '1' <= s@[1] && s@[1] <= '8',
        ensures
            r.x == file_of_char(s@[0]),
            r.y == rank_of_char(s@[1]),
            r.x < 8,
            r.y < 8,
    {
        let c0 = s.get_char(0);
        let c1 = s.get_char(1);
        let f = c0 as u32;
        let x: usize = if f >= 97 {
            (f - 97) as usize
        } else {
            (f - 65) as usize
        };
        let y: usize = (c1 as u32 - 49) as usize;
        Position { x, y }
    }

    /// The square standing at a given board index.
    pub fn from_index(index: usize) -> (r: Self)
        requires
            index < 64,
        ensures
            r.x == index % 8,
            r.y == index / 8,
            r.spec_index() == index,
    {
        Position { x: index % 8, y: index / 8 }
    }

    /// The board index of this square.
    pub fn to_index(&self) -> (r: usize)
        requires
            self.x < 8,
            self.y < 8,
        ensures
            r == self.spec_index(),
            r < 64,
    {
        self.y * 8 + self.x
    }
}

/// An elementwise copy of a list of squares.
pub fn clone_positions(v: &Vec<Position>) -> (r: Vec<Position>)
    ensures
        r@ == v@,
{
    let mut r: Vec<Position> = Vec::new();
    let mut i: usize = 0;
    while i < v.len()
        invariant
            i <= v.len(),
            r@ == v@.subrange(0, i as int),
        decreases v.len() - i,
    {
        r.push(v[i]);
        i = i + 1;
    }
    proof {
        assert(r@ =~= v@);
    }
    r
}

/// A copy of a piece, equal to it in every field.
pub fn clone_piece(p: &Piece) -> (r: Piece)
    ensures
        r@ == p@,
{
    Piece {
        piece_type: p.piece_type,
        color: p.color,
        position: p.position,
        prev_positions: clone_positions(&p.prev_positions),
    }
}

/// A copy of a board, equal to it cell by cell under the view.
pub fn clone_board(b: &Board) -> (r: Board)
    ensures
        r@.len() == b@.len(),
        board_view(r@) == board_view(b@),
{
    let mut r: Board = Vec::new();
    let mut i: usize = 0;
    while i < b.len()
        invariant
            i <= b.len(),
            r@.len() == i,
            forall|j: int| 0 <= j < i ==> cell_view(#[trigger] r@[j]) == cell_view(b@[j]),
        decreases b.len() - i,
    {
        let cell: Option<Piece> = match &b[i] {
            Some(p) => Some(clone_piece(p)),
            None => None,
        };
        r.push(cell);
        i = i + 1;
    }
    proof {
        assert(board_view(r@) =~= board_view(b@));
    }
    r
}

/// Updating one cell and then taking the view is taking the view and
/// then updating one entry.
pub proof fn lemma_board_view_update(b: Seq<Option<Piece>>, i: int, v: Option<Piece>)
    requires
        0 <= i < b.len(),
    ensures
        board_view(b.update(i, v)) == board_view(b).update(i, cell_view(v)),
{
    assert(board_view(b.update(i, v)) =~= board_view(b).update(i, cell_view(v)));
}

/// The file letter of a file number.
pub open spec fn file_char(x: int) -> char {
    if x == 0 {
        'a'
    } else if x == 1 {
        'b'
    } else if x == 2 {
        'c'
    } else if x == 3 {
        'd'
    } else if x == 4 {
        'e'
    } else if x == 5 {
        'f'
    } else if x == 6 {
        'g'
    } else {
        'h'
    }
}

/// The rank digit of a rank number.
pub open spec fn rank_char(y: int) -> char {
    if y == 0 {
        '1'
    } else if y == 1 {
        '2'
    } else if y == 2 {
        '3'
    } else if y == 3 {
        '4'
    } else if y == 4 {
        '5'
    } else if y == 5 {
        '6'
    } else if y == 6 {
        '7'
    } else {
        '8'
    }
}

/// The file number of a file letter, either case.
pub open spec fn file_of_char(c: char) -> int {
    if 'a' <= c && c <= 'h' {
        c as int - 'a' as int
    } else {
        c as int - 'A' as int
    }
}

/// The rank number of a rank digit.
pub open spec fn rank_of_char(c: char) -> int {
    c as int - '1' as int
}

} // verus!
