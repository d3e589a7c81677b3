//! The game state machine: the authoritative board, the turn, the
//! status, the draw bookkeeping, and the operations that validate and
//! apply moves, resolve promotions, and track repetitions.

use vstd::prelude::*;
use vstd::pervasive::VecAdditionalExecFns;

use crate::board_view;
use crate::Board;
use crate::BoardV;
use crate::CastlingType;
use crate::Color;
use crate::DrawType;
use crate::Move;
use crate::Piece;
use crate::PieceType;
use crate::PieceV;
use crate::Position;
use crate::Status;
use crate::ValidationResult;
use crate::model::board_wf;
use crate::model::fingerprint;
use crate::model::move_map_ok;
use crate::model::promo_cell;
use crate::model::is_first_promo;
use crate::model::has_promo;

verus! {

/// One game: the board, whose turn it is, the classification of the
/// position, the winner once there is one, a pawn awaiting promotion,
/// the cached pseudo-legal moves of the current board, the half-moves
/// since the last pawn move or capture, and how often each position has
/// stood on the board.
pub struct Chess {
    pub board: Board,
    pub turn: Color,
    pub status: Status,
    pub winner: Option<Color>,
    pub awaiting_promotion_piece: Option<Piece>,
    pub valid_moves: Vec<Vec<Move>>,
    pub counter_50_move_rule: u8,
    pub prev_boards: Vec<(Vec<u8>, u8)>,
}

/// The mathematical value of a game: the repetition table is a map from
/// position fingerprints to occurrence counts.
#[verifier::ext_equal]
pub ghost struct GameV {
    pub board: BoardV,
    pub turn: Color,
    pub status: Status,
    pub winner: Option<Color>,
    pub pending: Option<PieceV>,
    pub counter: u8,
    pub table: Map<Seq<u8>, u8>,
}

/// The view of a pending promotion piece.
pub open spec fn pending_view(p: Option<Piece>) -> Option<PieceV> {
    match p {
        Some(q) => Some(q@),
        None => None,
    }
}

/// The repetition table a list of fingerprint–count pairs stands for.
pub open spec fn tbl_view(t: Seq<(Vec<u8>, u8)>) -> Map<Seq<u8>, u8>
    decreases t.len(),
{
    if t.len() == 0 {
        Map::empty()
    } else {
        tbl_view(t.drop_last()).insert(t.last().0@, t.last().1)
    }
}

/// No fingerprint occurs twice in the list.
pub open spec fn tbl_distinct(t: Seq<(Vec<u8>, u8)>) -> bool {
    forall|i: int, j: int| 0 <= i < j < t.len() ==> (#[trigger] t[i]).0@ != (#[trigger] t[j]).0@
}

impl View for Chess {
    type V = GameV;

    open spec fn view(&self) -> GameV {
        GameV {
            board: board_view(self.board@),
            turn: self.turn,
            status: self.status,
            winner: self.winner,
            pending: pending_view(self.awaiting_promotion_piece),
            counter: self.counter_50_move_rule,
            table: tbl_view(self.prev_boards@),
        }
    }
}

impl Chess {
    /// The internal consistency of a game: a well-formed board, a move
    /// cache that matches it, a bounded counter that has already ended
    /// the game when full, and a duplicate-free repetition table.
    pub open spec fn wf(self) -> bool {
        &&& self.board@.len() == 64
        &&& board_wf(board_view(self.board@))
        &&& move_map_ok(board_view(self.board@), self.valid_moves@)
        &&& self.counter_50_move_rule <= 100
        &&& ((self.status == Status::Chilling || self.status matches Status::Check(_))
            ==> self.counter_50_move_rule < 100)
        &&& (self.awaiting_promotion_piece matches Some(p) ==> p.position.x < 8 && p.position.y
            < 8)
        &&& tbl_distinct(self.prev_boards@)
    }
}

impl Default for Chess {
    /// The standard starting position, White to move.
    fn default() -> (r: Self)
        ensures
            r.wf(),
            r@ == updated_game(init_game(start_board(), Color::White), false),
    {
        Chess::new()
    }
}

/// A fingerprint key absent from every pair is absent from the table.
proof fn lemma_tbl_absent(t: Seq<(Vec<u8>, u8)>, key: Seq<u8>)
    requires
        forall|i: int| 0 <= i < t.len() ==> (#[trigger] t[i]).0@ != key,
    ensures
        !tbl_view(t).contains_key(key),
    decreases t.len(),
{
    if t.len() > 0 {
        lemma_tbl_absent(t.drop_last(), key);
    }
}

/// A pair in a duplicate-free list is in the table with its count.
proof fn lemma_tbl_get(t: Seq<(Vec<u8>, u8)>, i: int)
    requires
        tbl_distinct(t),
        0 <= i < t.len(),
    ensures
        tbl_view(t).contains_key(t[i].0@),
        tbl_view(t)[t[i].0@] == t[i].1,
    decreases t.len(),
{
    if i == t.len() - 1 {
    } else {
        lemma_tbl_get(t.drop_last(), i);
    }
}

/// Replacing the count of one pair replaces it in the table.
proof fn lemma_tbl_set(t: Seq<(Vec<u8>, u8)>, i: int, v: (Vec<u8>, u8))
    requires
        tbl_distinct(t),
        0 <= i < t.len(),
        v.0@ == t[i].0@,
    ensures
        tbl_view(t.update(i, v)) =~= tbl_view(t).insert(t[i].0@, v.1),
    decreases t.len(),
{
    let t2 = t.update(i, v);
    if i == t.len() - 1 {
        assert(t2.drop_last() =~= t.drop_last());
        lemma_tbl_absent_distinct(t.drop_last(), t[i].0@, t);
    } else {
        assert(t2.drop_last() =~= t.drop_last().update(i, v));
        lemma_tbl_set(t.drop_last(), i, v);
    }
}

/// In a duplicate-free list the last key never occurs earlier.
proof fn lemma_tbl_absent_distinct(t0: Seq<(Vec<u8>, u8)>, key: Seq<u8>, t: Seq<(Vec<u8>, u8)>)
    requires
        tbl_distinct(t),
        t0 == t.drop_last(),
        t.len() > 0,
        key == t.last().0@,
    ensures
        !tbl_view(t0).contains_key(key),
{
    assert forall|i: int| 0 <= i < t0.len() implies (#[trigger] t0[i]).0@ != key by {
        assert(t[i].0@ != t[t.len() - 1].0@);
    }
    lemma_tbl_absent(t0, key);
}

/// An elementwise copy of a fingerprint.
fn clone_bytes(v: &Vec<u8>) -> (r: Vec<u8>)
    ensures
        r@ == v@,
{
    let mut r: Vec<u8> = Vec::new();
    let mut i: usize = 0;
    while i < v.len()
        invariant
            i <= v.len(),
            r@ == v@.subrange(0, i as int),
        decreases v.len() - i,
    {
        r.push(v[i]);
        i = i + 1;
    }
    proof {
        assert(r@ =~= v@);
    }
    r
}

/// The count stored for a fingerprint, if it is in the table.
fn tbl_lookup(t: &Vec<(Vec<u8>, u8)>, key: &Vec<u8>) -> (r: Option<u8>)
    requires
        tbl_distinct(t@),
    ensures
        match r {
            Some(c) => tbl_view(t@).contains_key(key@) && tbl_view(t@)[key@] == c,
            None => !tbl_view(t@).contains_key(key@),
        },
{
    let mut i: usize = 0;
    while i < t.len()
        invariant
            tbl_distinct(t@),
            i <= t@.len(),
            forall|j: int| 0 <= j < i ==> (#[trigger] t@[j]).0@ != key@,
        decreases t.len() - i,
    {
        let pair = &t[i];
        if bytes_eq(&pair.0, key) {
            proof {
                lemma_tbl_get(t@, i as int);
            }
            return Some(pair.1);
        }
        i = i + 1;
    }
    proof {
        lemma_tbl_absent(t@, key@);
    }
    None
}

/// The table after recording one more occurrence of a position: a first
/// occurrence counts one, a repeat raises the count, full counts stay.
pub open spec fn bump_tbl(m: Map<Seq<u8>, u8>, key: Seq<u8>) -> Map<Seq<u8>, u8> {
    if m.contains_key(key) {
        m.insert(
            key,
            if m[key] < 255 {
                (m[key] + 1) as u8
            } else {
                m[key]
            },
        )
    } else {
        m.insert(key, 1u8)
    }
}

/// The index of the first pawn awaiting promotion, in board order.
pub open spec fn first_promo_of(b: BoardV) -> int {
    choose|i: int| is_first_promo(b, i)
}

/// The pending promotion after a board change: an already pending piece
/// stays pending, else the first pawn standing on its farthest rank.
pub open spec fn pending_after(b: BoardV, old_pending: Option<PieceV>) -> Option<PieceV> {
    if old_pending is Some {
        old_pending
    } else if has_promo(b) {
        Some(b[first_promo_of(b)]->0)
    } else {
        None
    }
}

/// The game after its derived state is recomputed: the pending
/// promotion is found, the turn switches if asked, the board is
/// classified for the new turn, the winner follows a checkmate or
/// stalemate, and the position is recorded in the repetition table.
/// The overlays then apply in a fixed precedence: the draw counters
/// (full half-move counter first, then a third repetition) replace the
/// classification only while it reports an ongoing or checked game — a
/// checkmate or stalemate already ends the game and stands — and a
/// pending promotion overrides everything until it is resolved.
pub open spec fn updated_game(g: GameV, switch: bool) -> GameV {
    let pend = pending_after(g.board, g.pending);
    let turn = if switch {
        g.turn.spec_not()
    } else {
        g.turn
    };
    let s0 = crate::model::classify_board(g.board, turn);
    let win = match s0 {
        Status::Checkmate(c) => Some(c.spec_not()),
        Status::Draw(DrawType::Stalemate) => Option::<Color>::None,
        _ => g.winner,
    };
    let fp = fingerprint(g.board);
    let table = bump_tbl(g.table, fp);
    let ongoing = s0 == Status::Chilling || s0 matches Status::Check(_);
    let s1 = if ongoing && g.counter >= 100 {
        Status::Draw(DrawType::FiftyMoveRule)
    } else if ongoing && table[fp] >= 3 {
        Status::Draw(DrawType::ThreefoldRepetition)
    } else {
        s0
    };
    let status = if pend is Some {
        Status::AwaitingPromotion
    } else {
        s1
    };
    GameV { board: g.board, turn, status, winner: win, pending: pend, counter: g.counter, table }
}

/// A fresh game over a board: nothing classified or recorded yet.
pub open spec fn init_game(b: BoardV, turn: Color) -> GameV {
    GameV {
        board: b,
        turn,
        status: Status::Chilling,
        winner: None,
        pending: None,
        counter: 0,
        table: Map::empty(),
    }
}

/// The fingerprint of the current position: one code per square.
fn hash_board(board: &Board) -> (r: Vec<u8>)
    requires
        board@.len() == 64,
    ensures
        r@ == fingerprint(board_view(board@)),
{
    let ghost b = board_view(board@);
    let mut r: Vec<u8> = Vec::new();
    let mut i: usize = 0;
    while i < 64
        invariant
            b == board_view(board@),
            board@.len() == 64,
            i <= 64,
            r@.len() == i,
            forall|j: int| 0 <= j < i ==> r@[j] == fingerprint(b)[j],
        decreases 64 - i,
    {
        proof {
            assert(b[i as int] == crate::cell_view(board@[i as int]));
        }
        let code: u8 = match &board[i] {
            None => 0,
            Some(p) => match p.piece_type {
                PieceType::King => if p.color == Color::White {
                    1
                } else {
                    2
                },
                PieceType::Queen => if p.color == Color::White {
                    3
                } else {
                    4
                },
                PieceType::Rook => if p.color == Color::White {
                    5
                } else {
                    6
                },
                PieceType::Bishop => if p.color == Color::White {
                    7
                } else {
                    8
                },
                PieceType::Knight => if p.color == Color::White {
                    9
                } else {
                    10
                },
                PieceType::Pawn => if p.color == Color::White {
                    11
                } else {
                    12
                },
            },
        };
        r.push(code);
        i = i + 1;
    }
    proof {
        assert(r@ =~= fingerprint(b));
    }
    r
}

/// Records one more occurrence of the fingerprint in the table.
#[verifier::loop_isolation(false)]
fn tbl_bump(t: &mut Vec<(Vec<u8>, u8)>, key: &Vec<u8>)
    requires
        tbl_distinct(old(t)@),
    ensures
        tbl_distinct(final(t)@),
        tbl_view(final(t)@) =~= bump_tbl(tbl_view(old(t)@), key@),
{
    let ghost t0 = t@;
    let ghost k0 = key@;
    let mut i: usize = 0;
    while i < t.len()
        invariant
            t@ == t0,
            k0 == key@,
            tbl_distinct(t@),
            i <= t@.len(),
            forall|j: int| 0 <= j < i ==> (#[trigger] t@[j]).0@ != k0,
        decreases t.len() - i,
    {
        let found: bool = bytes_eq(&t[i].0, key);
        if found {
            let c = t[i].1;
            let c2: u8 = if c < 255 {
                c + 1
            } else {
                c
            };
            let stored = clone_bytes(key);
            proof {
                lemma_tbl_get(t@, i as int);
                lemma_tbl_set(t@, i as int, (stored, c2));
            }
            t.set(i, (stored, c2));
            proof {
                assert forall|a: int, bq: int|
                    0 <= a < bq < t@.len() implies (#[trigger] t@[a]).0@ != (#[trigger] t@[bq]).0@
                by {
                    assert(t0[a].0@ != t0[bq].0@);
                }
                assert(tbl_view(t@) =~= bump_tbl(tbl_view(t0), k0));
            }
            return ;
        }
        i = i + 1;
    }
    proof {
        lemma_tbl_absent(t@, k0);
    }
    t.push((clone_bytes(key), 1));
    proof {
        assert(t@.drop_last() =~= t0);
        assert(tbl_view(t@) =~= bump_tbl(tbl_view(t0), k0));
    }
}

/// The kind of piece starting on file `x` of a back rank.
pub open spec fn back_rank_kind(x: int) -> PieceType {
    if x == 0 || x == 7 {
        PieceType::Rook
    } else if x == 1 || x == 6 {
        PieceType::Knight
    } else if x == 2 || x == 5 {
        PieceType::Bishop
    } else if x == 3 {
        PieceType::Queen
    } else {
        PieceType::King
    }
}

/// What stands on square `i` of the starting position.
pub open spec fn start_cell(i: int) -> Option<PieceV> {
    let x = i % 8;
    let y = i / 8;
    if y == 0 {
        Some(
            PieceV {
                piece_type: back_rank_kind(x),
                color: Color::White,
                position: Position { x: x as usize, y: y as usize },
                prev_positions: Seq::empty(),
            },
        )
    } else if y == 1 {
        Some(
            PieceV {
                piece_type: PieceType::Pawn,
                color: Color::White,
                position: Position { x: x as usize, y: y as usize },
                prev_positions: Seq::empty(),
            },
        )
    } else if y == 6 {
        Some(
            PieceV {
                piece_type: PieceType::Pawn,
                color: Color::Black,
                position: Position { x: x as usize, y: y as usize },
                prev_positions: Seq::empty(),
            },
        )
    } else if y == 7 {
        Some(
            PieceV {
                piece_type: back_rank_kind(x),
                color: Color::Black,
                position: Position { x: x as usize, y: y as usize },
                prev_positions: Seq::empty(),
            },
        )
    } else {
        None
    }
}

/// The standard starting position.
pub open spec fn start_board() -> BoardV {
    Seq::new(64, |i: int| start_cell(i))
}

impl Chess {
    /// The first pawn standing on its farthest rank, or the promotion
    /// already pending.
    #[verifier::loop_isolation(false)]
    fn check_for_promotion(&self) -> (r: Option<Piece>)
        requires
            self.board@.len() == 64,
            board_wf(board_view(self.board@)),
            (self.awaiting_promotion_piece matches Some(p) ==> p.position.x < 8 && p.position.y
                < 8),
        ensures
            pending_view(r) == pending_after(self@.board, self@.pending),
            (r matches Some(p) ==> p.position.x < 8 && p.position.y < 8),
    {
        let ghost b = board_view(self.board@);
        match &self.awaiting_promotion_piece {
            Some(p) => {
                return Some(crate::clone_piece(p));
            },
            None => {},
        }
        let mut i: usize = 0;
        while i < 64
            invariant
                b == board_view(self.board@),
                self.board@.len() == 64,
                board_wf(b),
                i <= 64,
                forall|j: int| 0 <= j < i ==> !promo_cell(b, j),
            decreases 64 - i,
        {
            proof {
                assert(b[i as int] == crate::cell_view(self.board@[i as int]));
            }
            let hit: bool = match &self.board[i] {
                Some(p) => p.piece_type == PieceType::Pawn && ((p.color == Color::White
                    && p.position.y == 7) || (p.color == Color::Black && p.position.y == 0)),
                None => false,
            };
            if hit {
                proof {
                    assert(crate::model::cell_wf(b, i as int));
                    assert(promo_cell(b, i as int));
                    assert(is_first_promo(b, i as int));
                    assert(has_promo(b));
                    let w = first_promo_of(b);
                    assert(is_first_promo(b, w));
                    if w < i as int {
                        assert(!promo_cell(b, w));
                    }
                    if (i as int) < w {
                        assert(!promo_cell(b, i as int));
                    }
                    assert(w == i as int);
                }
                match &self.board[i] {
                    Some(p) => {
                        return Some(crate::clone_piece(p));
                    },
                    None => {
                        return vstd::pervasive::unreached();
                    },
                }
            }
            i = i + 1;
        }
        proof {
            if has_promo(b) {
                let w = choose|w: int| 0 <= w < 64 && promo_cell(b, w);
                assert(!promo_cell(b, w));
            }
        }
        None
    }

    /// Records the position when asked, and reports a draw once the
    /// same position has stood three times; otherwise the status is
    /// unchanged and returned as it is.
    pub fn threefold_rule(&mut self, modify: bool) -> (r: Status)
        requires
            old(self).board@.len() == 64,
            tbl_distinct(old(self).prev_boards@),
        ensures
            final(self).board == old(self).board,
            final(self).turn == old(self).turn,
            final(self).status == old(self).status,
            final(self).winner == old(self).winner,
            final(self).awaiting_promotion_piece == old(self).awaiting_promotion_piece,
            final(self).valid_moves == old(self).valid_moves,
            final(self).counter_50_move_rule == old(self).counter_50_move_rule,
            tbl_distinct(final(self).prev_boards@),
            ({
                let fp = fingerprint(board_view(old(self).board@));
                let tb = if modify {
                    bump_tbl(tbl_view(old(self).prev_boards@), fp)
                } else {
                    tbl_view(old(self).prev_boards@)
                };
                &&& tbl_view(final(self).prev_boards@) == tb
                &&& r == (if tb.contains_key(fp) && tb[fp] >= 3 {
                    Status::Draw(DrawType::ThreefoldRepetition)
                } else {
                    old(self).status
                })
            }),
    {
        let hash = hash_board(&self.board);
        if modify {
            tbl_bump(&mut self.prev_boards, &hash);
        }
        let count = tbl_lookup(&self.prev_boards, &hash);
        match count {
            Some(c) => {
                if c >= 3 {
                    return Status::Draw(DrawType::ThreefoldRepetition);
                }
            },
            None => {},
        }
        self.status
    }

    /// Recomputes everything the board determines: the pending
    /// promotion, the turn if it switches, the move cache, the
    /// classification, the winner, the repetition record, and the draw
    /// overlays.
    fn update(&mut self, switch_turn: bool)
        requires
            old(self).board@.len() == 64,
            board_wf(board_view(old(self).board@)),
            old(self).counter_50_move_rule <= 100,
            (old(self).awaiting_promotion_piece matches Some(p) ==> p.position.x < 8
                && p.position.y < 8),
            tbl_distinct(old(self).prev_boards@),
        ensures
            final(self)@ == updated_game(old(self)@, switch_turn),
            final(self).wf(),
            final(self).board == old(self).board,
            final(self).counter_50_move_rule == old(self).counter_50_move_rule,
    {
        let pending = self.check_for_promotion();
        self.awaiting_promotion_piece = pending;
        if switch_turn {
            self.turn = self.turn.not();
        }
        self.valid_moves = crate::moves::generate_moves(&self.board);
        let s0 = crate::status::get_board_status(&self.board, &self.valid_moves, self.turn);
        self.status = s0;
        match s0 {
            Status::Checkmate(color) => {
                self.winner = Some(color.not());
            },
            Status::Draw(DrawType::Stalemate) => {
                self.winner = None;
            },
            _ => {},
        }
        let three = self.threefold_rule(true);
        let ongoing: bool = match self.status {
            Status::Chilling => true,
            Status::Check(_) => true,
            _ => false,
        };
        if ongoing && self.counter_50_move_rule >= 100 {
            self.status = Status::Draw(DrawType::FiftyMoveRule);
        } else if ongoing && three == Status::Draw(DrawType::ThreefoldRepetition) {
            self.status = Status::Draw(DrawType::ThreefoldRepetition);
        }
        if self.awaiting_promotion_piece.is_some() {
            self.status = Status::AwaitingPromotion;
        }
        proof {
            assert(final(self)@ =~= updated_game(old(self)@, switch_turn));
        }
    }

    /// A new game in the standard starting position, White to move.
    pub fn new() -> (r: Chess)
        ensures
            r.wf(),
            r@ == updated_game(init_game(start_board(), Color::White), false),
    {
        let mut board: Board = Vec::new();
        let mut i: usize = 0;
        while i < 64
            invariant
                board@.len() == i,
                i <= 64,
                forall|j: int| 0 <= j < i ==> crate::cell_view(#[trigger] board@[j]) == start_cell(
                    j,
                ),
            decreases 64 - i,
        {
            let y = i / 8;
            let x = i % 8;
            let cell: Option<Piece> = if y == 0 || y == 7 {
                let t = if x == 0 || x == 7 {
                    PieceType::Rook
                } else if x == 1 || x == 6 {
                    PieceType::Knight
                } else if x == 2 || x == 5 {
                    PieceType::Bishop
                } else if x == 3 {
                    PieceType::Queen
                } else {
                    PieceType::King
                };
                let c = if y == 0 {
                    Color::White
                } else {
                    Color::Black
                };
                Some(
                    Piece {
                        piece_type: t,
                        color: c,
                        position: Position { x, y },
                        prev_positions: Vec::new(),
                    },
                )
            } else if y == 1 || y == 6 {
                let c = if y == 1 {
                    Color::White
                } else {
                    Color::Black
                };
                Some(
                    Piece {
                        piece_type: PieceType::Pawn,
                        color: c,
                        position: Position { x, y },
                        prev_positions: Vec::new(),
                    },
                )
            } else {
                None
            };
            board.push(cell);
            i = i + 1;
        }
        proof {
            assert(board_view(board@) =~= start_board());
            assert forall|j: int| 0 <= j < 64 implies crate::model::cell_wf(
                board_view(board@),
                j,
            ) by {}
        }
        let mut chess = Chess {
            board,
            turn: Color::White,
            status: Status::Chilling,
            winner: None,
            awaiting_promotion_piece: None,
            valid_moves: Vec::new(),
            counter_50_move_rule: 0,
            prev_boards: Vec::new(),
        };
        proof {
            assert(tbl_view(chess.prev_boards@) =~= Map::<Seq<u8>, u8>::empty());
            assert(chess@ =~= init_game(start_board(), Color::White));
        }
        chess.update(false);
        chess
    }
}

/// The side a turn letter names.
pub open spec fn fen_turn(t: Seq<char>) -> Color {
    if t == seq!['w'] {
        Color::White
    } else {
        Color::Black
    }
}

/// A position text is readable: it has a placement field the placement
/// grammar accepts and a turn field that is `w` or `b`.
pub open spec fn fen_parse_ok(s: Seq<char>) -> bool {
    &&& crate::fen::first_field(s) is Some
    &&& crate::fen::fen_board(crate::fen::first_field(s)->0) is Some
    &&& crate::fen::second_field(s) is Some
    &&& (crate::fen::second_field(s)->0 == seq!['w'] || crate::fen::second_field(s)->0
        == seq!['b'])
}

/// The game a readable position text denotes.
pub open spec fn fen_game(s: Seq<char>) -> GameV {
    updated_game(
        init_game(
            crate::fen::fen_board(crate::fen::first_field(s)->0)->0,
            fen_turn(crate::fen::second_field(s)->0),
        ),
        false,
    )
}

impl Chess {
    /// Builds a game from a position text: a piece placement and a side
    /// to move, separated by whitespace; any further fields are
    /// ignored. Each malformed input is reported with its reason.
    pub fn from_fen(fen: &str) -> (r: Result<Chess, &str>)
        ensures
            (r is Ok) == fen_parse_ok(fen@),
            (r matches Ok(g) ==> g@ == fen_game(fen@) && g.wf()),
            (r matches Err(e) ==> {
                if crate::fen::first_field(fen@) is None {
                    e@ == "No board"@
                } else if crate::fen::fen_board(crate::fen::first_field(fen@)->0) is None {
                    e@ == "Invalid board"@
                } else if crate::fen::second_field(fen@) is None {
                    e@ == "No turn"@
                } else {
                    e@ == "Invalid turn"@
                }
            }),
    {
        let (t1, t2) = crate::fen::first_two_fields(fen);
        let board_str = match t1 {
            None => {
                return Err("No board");
            },
            Some(t) => t,
        };
        let board = match Self::parse_fen_board(board_str) {
            None => {
                return Err("Invalid board");
            },
            Some(bd) => bd,
        };
        let turn_str = match t2 {
            None => {
                return Err("No turn");
            },
            Some(t) => t,
        };
        let turn: Color = if turn_str.unicode_len() == 1 {
            let c = turn_str.get_char(0);
            if c == 'w' {
                proof {
                    reveal_strlit("w");
                    assert(turn_str@ =~= seq!['w']);
                }
                Color::White
            } else if c == 'b' {
                proof {
                    reveal_strlit("b");
                    assert(turn_str@ =~= seq!['b']);
                }
                Color::Black
            } else {
                proof {
                    reveal_strlit("w");
                    reveal_strlit("b");
                }
                return Err("Invalid turn");
            }
        } else {
            proof {
                reveal_strlit("w");
                reveal_strlit("b");
            }
            return Err("Invalid turn");
        };
        let mut chess = Chess {
            board,
            turn,
            status: Status::Chilling,
            winner: None,
            awaiting_promotion_piece: None,
            valid_moves: Vec::new(),
            counter_50_move_rule: 0,
            prev_boards: Vec::new(),
        };
        proof {
            assert(tbl_view(chess.prev_boards@) =~= Map::<Seq<u8>, u8>::empty());
            assert(chess@ =~= init_game(
                crate::fen::fen_board(crate::fen::first_field(fen@)->0)->0,
                fen_turn(crate::fen::second_field(fen@)->0),
            ));
        }
        chess.update(false);
        Ok(chess)
    }

    /// Builds the board of one step of the castling king's transit.
    fn castle_transit_exec(board: &Board, t: CastlingType, step: usize) -> (r: Board)
        requires
            board@.len() == 64,
            board_wf(board_view(board@)),
            crate::model::castle_pieces_present(board_view(board@), t),
            1 <= step <= 2,
        ensures
            board_view(r@) == crate::model::castle_transit_board(board_view(board@), t, step as int),
            r@.len() == 64,
            board_wf(board_view(r@)),
    {
        let ghost b0 = board_view(board@);
        let (kingside, row): (bool, usize) = match t {
            CastlingType::QueenSide(c) => (
                false,
                if c == Color::White {
                    0
                } else {
                    7
                },
            ),
            CastlingType::KingSide(c) => (
                true,
                if c == Color::White {
                    0
                } else {
                    7
                },
            ),
        };
        let ki: usize = row * 8 + 4;
        let ri: usize = row * 8 + if kingside {
            7
        } else {
            0
        };
        let ktx: usize = if kingside {
            4 + step
        } else {
            4 - step
        };
        let rtx: usize = if kingside {
            5
        } else {
            3
        };
        proof {
            assert(b0[ki as int] == crate::cell_view(board@[ki as int]));
            assert(b0[ri as int] == crate::cell_view(board@[ri as int]));
        }
        let king: Piece = match &board[ki] {
            Some(p) => crate::clone_piece(p),
            None => vstd::pervasive::unreached(),
        };
        let rook: Piece = match &board[ri] {
            Some(p) => crate::clone_piece(p),
            None => vstd::pervasive::unreached(),
        };
        let kto = Position { x: ktx, y: row };
        let rto = Position { x: rtx, y: row };
        let new_king = crate::apply::make_moved_piece(&king, kto);
        let new_rook = crate::apply::make_moved_piece(&rook, rto);
        let mut nb = crate::clone_board(board);
        proof {
            crate::lemma_board_view_update(nb@, (row * 8 + rtx) as int, Some(new_rook));
        }
        nb.set(row * 8 + rtx, Some(new_rook));
        proof {
            crate::lemma_board_view_update(nb@, ri as int, None);
        }
        nb.set(ri, None);
        proof {
            crate::lemma_board_view_update(nb@, (row * 8 + ktx) as int, Some(new_king));
        }
        nb.set(row * 8 + ktx, Some(new_king));
        proof {
            crate::lemma_board_view_update(nb@, ki as int, None);
        }
        nb.set(ki, None);
        proof {
            assert(board_view(nb@) =~= crate::model::castle_transit_board(b0, t, step as int));
            assert forall|j: int| 0 <= j < 64 implies crate::model::cell_wf(
                board_view(nb@),
                j,
            ) by {
                assert(crate::model::cell_wf(b0, j));
            }
        }
        nb
    }

    /// Whether a castling move may be played now: the game is ongoing,
    /// it is this side's move, king and rook are ready on an empty
    /// lane, and the king's transit passes through no attacked square.
    fn check_castling_possible(&self, castling_type: CastlingType) -> (r: bool)
        requires
            self.wf(),
        ensures
            r == crate::model::castle_possible(
                self@.board,
                self@.status,
                self@.turn,
                castling_type,
            ),
    {
        let ghost b = board_view(self.board@);
        if !(self.status == Status::Chilling) {
            return false;
        }
        let color: Color = match castling_type {
            CastlingType::QueenSide(c) => c,
            CastlingType::KingSide(c) => c,
        };
        if color != self.turn {
            return false;
        }
        let (kingside, row): (bool, usize) = match castling_type {
            CastlingType::QueenSide(c) => (
                false,
                if c == Color::White {
                    0
                } else {
                    7
                },
            ),
            CastlingType::KingSide(c) => (
                true,
                if c == Color::White {
                    0
                } else {
                    7
                },
            ),
        };
        let ki: usize = row * 8 + 4;
        let ri: usize = row * 8 + if kingside {
            7
        } else {
            0
        };
        proof {
            assert(b[ki as int] == crate::cell_view(self.board@[ki as int]));
            assert(b[ri as int] == crate::cell_view(self.board@[ri as int]));
        }
        let king_ok: bool = match &self.board[ki] {
            Some(p) => p.piece_type == PieceType::King && p.color == self.turn
                && p.prev_positions.len() == 0,
            None => false,
        };
        if !king_ok {
            return false;
        }
        let rook_ok: bool = match &self.board[ri] {
            Some(p) => p.piece_type == PieceType::Rook && p.color == self.turn
                && p.prev_positions.len() == 0,
            None => false,
        };
        if !rook_ok {
            return false;
        }
        proof {
            assert(b[(row * 8 + 1) as int] == crate::cell_view(self.board@[(row * 8 + 1) as int]));
            assert(b[(row * 8 + 2) as int] == crate::cell_view(self.board@[(row * 8 + 2) as int]));
            assert(b[(row * 8 + 3) as int] == crate::cell_view(self.board@[(row * 8 + 3) as int]));
            assert(b[(row * 8 + 5) as int] == crate::cell_view(self.board@[(row * 8 + 5) as int]));
            assert(b[(row * 8 + 6) as int] == crate::cell_view(self.board@[(row * 8 + 6) as int]));
        }
        let lane_ok: bool = if kingside {
            self.board[row * 8 + 5].is_none() && self.board[row * 8 + 6].is_none()
        } else {
            self.board[row * 8 + 1].is_none() && self.board[row * 8 + 2].is_none() && self.board[row
                * 8 + 3].is_none()
        };
        if !lane_ok {
            return false;
        }
        let t1 = Self::castle_transit_exec(&self.board, castling_type, 1);
        let m1 = crate::moves::generate_moves(&t1);
        let s1 = crate::status::get_board_status(&t1, &m1, self.turn);
        let ok1: bool = match s1 {
            Status::Check(c) => c != self.turn,
            Status::Checkmate(c) => c != self.turn,
            Status::Draw(_) => false,
            _ => true,
        };
        if !ok1 {
            return false;
        }
        let t2 = Self::castle_transit_exec(&self.board, castling_type, 2);
        let m2 = crate::moves::generate_moves(&t2);
        let s2 = crate::status::get_board_status(&t2, &m2, self.turn);
        let ok2: bool = match s2 {
            Status::Check(c) => c != self.turn,
            Status::Checkmate(c) => c != self.turn,
            Status::Draw(_) => false,
            _ => true,
        };
        ok2
    }
}

/// The outcome of validating a move: refused when the game is over or a
/// promotion is pending, when a square is off the board or the origin
/// empty, when the piece is not the mover's, when the move does not fit
/// the piece or a castling is not allowed, or when it would leave the
/// mover's own king attacked; otherwise the classification of the
/// position it would produce, seen from the other side.
pub open spec fn validate_v(g: GameV, from: Position, to: Position) -> ValidationResult {
    if !(g.status == Status::Chilling || g.status matches Status::Check(_)) {
        ValidationResult::InvalidTurn
    } else if !(from.x < 8 && from.y < 8 && to.x < 8 && to.y < 8) {
        ValidationResult::InvalidPosition
    } else if g.board[from.spec_index()] is None {
        ValidationResult::InvalidPosition
    } else if g.board[from.spec_index()]->0.color != g.turn {
        ValidationResult::InvalidTurn
    } else {
        let p = g.board[from.spec_index()]->0;
        let castling_bad = match crate::model::classify_move(g.board, from, to) {
            crate::MoveType::Castling(t) => !crate::model::castle_possible(
                g.board,
                g.status,
                g.turn,
                t,
            ),
            _ => false,
        };
        if castling_bad {
            ValidationResult::InvalidMove
        } else if !crate::model::piece_dest(g.board, p, to.x as int, to.y as int) {
            ValidationResult::InvalidMove
        } else if crate::model::in_check(crate::model::board_after(g.board, from, to), g.turn) {
            ValidationResult::InvalidMove
        } else {
            ValidationResult::Valid(
                crate::model::classify_board(
                    crate::model::board_after(g.board, from, to),
                    g.turn.spec_not(),
                ),
            )
        }
    }
}

/// The game after a legal move is applied: the board changes, the
/// half-move counter resets on a pawn move or capture and counts on
/// otherwise, and everything derived is recomputed with the turn
/// switched.
pub open spec fn applied_game(g: GameV, from: Position, to: Position) -> GameV {
    let b2 = crate::model::board_after(g.board, from, to);
    let cap = crate::model::move_captures(g.board, from, to);
    let pawn = g.board[from.spec_index()]->0.piece_type == PieceType::Pawn;
    let c2: u8 = if pawn || cap {
        0u8
    } else {
        (g.counter + 1) as u8
    };
    updated_game(GameV { board: b2, counter: c2, ..g }, true)
}

/// The game after a pending promotion is resolved: the pawn becomes the
/// chosen kind in place, keeping its square and history, and everything
/// derived is recomputed with the turn switched.
pub open spec fn promoted_game(g: GameV, t: PieceType) -> GameV {
    let p = g.pending->0;
    let b2 = g.board.update(
        p.position.spec_index(),
        Some(
            PieceV {
                piece_type: t,
                color: p.color,
                position: p.position,
                prev_positions: p.prev_positions,
            },
        ),
    );
    updated_game(GameV { board: b2, pending: None, ..g }, true)
}

/// A fully legal destination for the piece on square `i`: the side to
/// move may reach it, a castling move is allowed now, and playing it
/// does not leave the mover's own king attacked.
pub open spec fn legal_dest(g: GameV, i: int, tx: int, ty: int) -> bool {
    &&& crate::model::own_move(g.board, g.turn, i, tx, ty)
    &&& ({
        let p = g.board[i]->0;
        let to = Position { x: tx as usize, y: ty as usize };
        &&& (match crate::model::classify_move(g.board, p.position, to) {
            crate::MoveType::Castling(t) => crate::model::castle_possible(
                g.board,
                g.status,
                g.turn,
                t,
            ),
            _ => true,
        })
        &&& !crate::model::in_check(
            crate::model::board_after(g.board, p.position, to),
            g.turn,
        )
    })
}

/// A cached pseudo-legal move that survives the legality filter.
pub open spec fn passes_filter(g: GameV, i: int, m: Move) -> bool {
    &&& m.piece@.color == g.turn
    &&& (match crate::model::classify_move(g.board, m.piece@.position, m.to) {
        crate::MoveType::Castling(t) => crate::model::castle_possible(g.board, g.status, g.turn, t),
        _ => true,
    })
    &&& !crate::model::in_check(
        crate::model::board_after(g.board, m.piece@.position, m.to),
        g.turn,
    )
}

/// A recorded legal move: well-formed fields and a legal destination.
pub open spec fn legal_entry_ok(g: GameV, i: int, m: Move) -> bool {
    &&& g.board[i] is Some
    &&& crate::model::move_fields_ok(g.board, g.board[i]->0, m)
    &&& legal_dest(g, i, m.to.x as int, m.to.y as int)
}

/// The legal move list of one square: sound and complete for the side
/// to move.
pub open spec fn legal_list_ok(g: GameV, i: int, ms: Seq<Move>) -> bool {
    &&& forall|k: int| 0 <= k < ms.len() ==> legal_entry_ok(g, i, #[trigger] ms[k])
    &&& forall|tx: int, ty: int|
        legal_dest(g, i, tx, ty) ==> #[trigger] crate::model::list_has_dest(ms, tx, ty)
}

impl Chess {
    /// Whether the cached move list of one square holds a move to `to`.
    fn has_move_to(list: &Vec<Move>, to: Position) -> (r: bool)
        ensures
            r == crate::model::list_has_dest(list@, to.x as int, to.y as int),
    {
        let mut k: usize = 0;
        let n = list.len();
        while k < n
            invariant
                n == list@.len(),
                k <= n,
                forall|k2: int|
                    0 <= k2 < k ==> !((#[trigger] list@[k2]).to.x == to.x && list@[k2].to.y
                        == to.y),
            decreases n - k,
        {
            let m = &list[k];
            if m.to.x == to.x && m.to.y == to.y {
                return true;
            }
            k = k + 1;
        }
        proof {
            if crate::model::list_has_dest(list@, to.x as int, to.y as int) {
                let k2 = choose|k2: int|
                    0 <= k2 < list@.len() && (#[trigger] list@[k2]).to.x == to.x && list@[k2].to.y
                        == to.y;
                assert(false);
            }
        }
        false
    }

    /// Validates a move without touching the game: the result says why
    /// it is refused, or what status playing it would produce.
    pub fn validate_move(&self, from: Position, to: Position) -> (r: ValidationResult)
        requires
            self.wf(),
        ensures
            r == validate_v(self@, from, to),
    {
        let ghost b = board_view(self.board@);
        let status_allows: bool = match self.status {
            Status::Chilling => true,
            Status::Check(_) => true,
            _ => false,
        };
        if !status_allows {
            return ValidationResult::InvalidTurn;
        }
        if !(from.x < 8 && from.y < 8 && to.x < 8 && to.y < 8) {
            return ValidationResult::InvalidPosition;
        }
        let fi = from.y * 8 + from.x;
        proof {
            assert(b[fi as int] == crate::cell_view(self.board@[fi as int]));
        }
        let piece_color: Option<Color> = match &self.board[fi] {
            Some(p) => Some(p.color),
            None => None,
        };
        let color = match piece_color {
            None => {
                return ValidationResult::InvalidPosition;
            },
            Some(c) => c,
        };
        if color != self.turn {
            return ValidationResult::InvalidTurn;
        }
        let move_type = crate::apply::get_move_type(&self.board, from, to);
        match move_type {
            crate::MoveType::Castling(t) => {
                if !self.check_castling_possible(t) {
                    return ValidationResult::InvalidMove;
                }
            },
            _ => {},
        }
        let pseudo = Self::has_move_to(&self.valid_moves[fi], to);
        proof {
            let p = b[fi as int]->0;
            assert(crate::model::move_list_ok(b, fi as int, self.valid_moves@[fi as int]@));
            if pseudo {
                let ms = self.valid_moves@[fi as int]@;
                let k2 = choose|k2: int|
                    0 <= k2 < ms.len() && (#[trigger] ms[k2]).to.x == to.x && ms[k2].to.y == to.y;
                assert(crate::model::move_fields_ok(b, p, ms[k2]));
                assert(crate::model::piece_dest(b, p, to.x as int, to.y as int));
            } else {
                if crate::model::piece_dest(b, p, to.x as int, to.y as int) {
                    assert(crate::model::list_has_dest(
                        self.valid_moves@[fi as int]@,
                        to.x as int,
                        to.y as int,
                    ));
                }
            }
        }
        if !pseudo {
            return ValidationResult::InvalidMove;
        }
        proof {
            let p = b[fi as int]->0;
            assert(crate::model::cell_wf(b, fi as int));
            assert(p.position == from);
            crate::apply::lemma_pseudo_apply_ok(b, p, to.x as int, to.y as int);
            crate::apply::lemma_board_after_wf(b, from, to);
        }
        let sim = crate::apply::move_piece_on_board(&self.board, from, to);
        let sim_moves = crate::moves::generate_moves(&sim.0);
        if crate::status::is_in_check(&sim.0, &sim_moves, self.turn) {
            return ValidationResult::InvalidMove;
        }
        let new_status = crate::status::get_board_status(&sim.0, &sim_moves, self.turn.not());
        ValidationResult::Valid(new_status)
    }

    /// Validates a move and, when it is legal, commits it: the board,
    /// turn, status, winner and draw counters all change together, and a
    /// refused move changes nothing.
    pub fn move_piece(&mut self, from: Position, to: Position) -> (r: ValidationResult)
        requires
            old(self).wf(),
        ensures
            final(self).wf(),
            (validate_v(old(self)@, from, to) matches ValidationResult::Valid(_) ==> {
                &&& final(self)@ == applied_game(old(self)@, from, to)
                &&& r == ValidationResult::Valid(final(self)@.status)
            }),
            (!(validate_v(old(self)@, from, to) matches ValidationResult::Valid(_)) ==> {
                &&& r == validate_v(old(self)@, from, to)
                &&& final(self)@ == old(self)@
                &&& *final(self) == *old(self)
            }),
    {
        let ghost b = board_view(self.board@);
        let validation_res = self.validate_move(from, to);
        let is_valid: bool = match validation_res {
            ValidationResult::Valid(_) => true,
            _ => false,
        };
        if !is_valid {
            return validation_res;
        }
        let fi = from.y * 8 + from.x;
        proof {
            assert(b[fi as int] == crate::cell_view(self.board@[fi as int]));
        }
        let piece_is_pawn: bool = match &self.board[fi] {
            Some(p) => p.piece_type == PieceType::Pawn,
            None => vstd::pervasive::unreached(),
        };
        proof {
            let p = b[fi as int]->0;
            assert(crate::model::cell_wf(b, fi as int));
            assert(p.position == from);
            crate::apply::lemma_pseudo_apply_ok(b, p, to.x as int, to.y as int);
            crate::apply::lemma_board_after_wf(b, from, to);
        }
        let board_res = crate::apply::move_piece_on_board(&self.board, from, to);
        self.board = board_res.0;
        let capture = board_res.1;
        if piece_is_pawn || capture {
            self.counter_50_move_rule = 0;
        } else {
            self.counter_50_move_rule = self.counter_50_move_rule + 1;
        }
        proof {
            assert(self@ =~= (GameV {
                board: crate::model::board_after(old(self)@.board, from, to),
                counter: self.counter_50_move_rule,
                ..old(self)@
            }));
        }
        self.update(true);
        proof {
            assert(final(self)@ =~= applied_game(old(self)@, from, to));
        }
        ValidationResult::Valid(self.status)
    }

    /// Resolves a pending promotion to the chosen kind; queens, rooks,
    /// bishops and knights are allowed. Returns the new status, or
    /// `None`, changing nothing, when no promotion is pending or the
    /// kind is refused.
    pub fn promote_piece(&mut self, piece_type: PieceType) -> (r: Option<Status>)
        requires
            old(self).wf(),
        ensures
            final(self).wf(),
            ({
                let g = old(self)@;
                if g.status != Status::AwaitingPromotion || g.pending is None || piece_type
                    == PieceType::King || piece_type == PieceType::Pawn {
                    r is None && final(self)@ == g && *final(self) == *old(self)
                } else {
                    r == Some(final(self)@.status) && final(self)@ == promoted_game(g, piece_type)
                }
            }),
    {
        if !(self.status == Status::AwaitingPromotion) || self.awaiting_promotion_piece.is_none() {
            return None;
        }
        match piece_type {
            PieceType::King | PieceType::Pawn => {
                return None;
            },
            _ => {},
        }
        let piece: Piece = match &self.awaiting_promotion_piece {
            Some(p) => crate::clone_piece(p),
            None => vstd::pervasive::unreached(),
        };
        let index = piece.position.y * 8 + piece.position.x;
        let ghost bpre = board_view(self.board@);
        let new_piece = Piece {
            piece_type,
            color: piece.color,
            position: piece.position,
            prev_positions: crate::clone_positions(&piece.prev_positions),
        };
        proof {
            crate::lemma_board_view_update(self.board@, index as int, Some(new_piece));
        }
        self.board.set(index, Some(new_piece));
        self.awaiting_promotion_piece = None;
        proof {
            assert forall|j: int| 0 <= j < 64 implies crate::model::cell_wf(
                board_view(self.board@),
                j,
            ) by {
                assert(crate::model::cell_wf(bpre, j));
            }
            assert(self@ =~= (GameV {
                board: board_view(self.board@),
                pending: None,
                ..old(self)@
            }));
        }
        self.update(true);
        proof {
            assert(final(self)@ =~= promoted_game(old(self)@, piece_type));
        }
        Some(self.status)
    }

    /// Collects, square by square, every move of the side to move that
    /// is fully legal now: the piece may reach the destination, a
    /// castling is allowed, and the mover's own king is not left
    /// attacked.
    pub fn generate_valid_moves(&self) -> (r: Vec<Vec<Move>>)
        requires
            self.wf(),
        ensures
            r@.len() == 64,
            forall|i: int| 0 <= i < 64 ==> legal_list_ok(self@, i, (#[trigger] r@[i])@),
    {
        let ghost g = self@;
        let ghost b = board_view(self.board@);
        let mut r: Vec<Vec<Move>> = Vec::new();
        let mut i: usize = 0;
        while i < 64
            invariant
                self.wf(),
                g == self@,
                b == board_view(self.board@),
                i <= 64,
                r@.len() == i,
                forall|j: int| 0 <= j < i ==> legal_list_ok(g, j, (#[trigger] r@[j])@),
            decreases 64 - i,
        {
            let list = &self.valid_moves[i];
            let n = list.len();
            let mut out: Vec<Move> = Vec::new();
            let mut k: usize = 0;
            proof {
                assert(crate::model::move_list_ok(b, i as int, self.valid_moves@[i as int]@));
            }
            while k < n
                invariant
                    self.wf(),
                    g == self@,
                    b == board_view(self.board@),
                    i < 64,
                    n == self.valid_moves@[i as int]@.len(),
                    list == &self.valid_moves@[i as int],
                    k <= n,
                    forall|k3: int|
                        0 <= k3 < out@.len() ==> legal_entry_ok(g, i as int, #[trigger] out@[k3]),
                    forall|k2: int|
                        0 <= k2 < k && passes_filter(
                            g,
                            i as int,
                            #[trigger] self.valid_moves@[i as int]@[k2],
                        ) ==> crate::model::list_has_dest(
                            out@,
                            self.valid_moves@[i as int]@[k2].to.x as int,
                            self.valid_moves@[i as int]@[k2].to.y as int,
                        ),
                decreases n - k,
            {
                let m = &list[k];
                proof {
                    assert(crate::model::move_list_ok(b, i as int, self.valid_moves@[i as int]@));
                    assert(b[i as int] is Some);
                    assert(crate::model::move_fields_ok(
                        b,
                        b[i as int]->0,
                        self.valid_moves@[i as int]@[k as int],
                    ));
                    assert(crate::model::cell_wf(b, i as int));
                }
                let keep: bool = if m.piece.color != self.turn {
                    false
                } else {
                    let move_type = crate::apply::get_move_type(
                        &self.board,
                        m.piece.position,
                        m.to,
                    );
                    let castle_ok: bool = match move_type {
                        crate::MoveType::Castling(t) => self.check_castling_possible(t),
                        _ => true,
                    };
                    if !castle_ok {
                        false
                    } else {
                        proof {
                            let p = b[i as int]->0;
                            crate::apply::lemma_pseudo_apply_ok(b, p, m.to.x as int, m.to.y as int);
                            crate::apply::lemma_board_after_wf(b, p.position, m.to);
                        }
                        let sim = crate::apply::move_piece_on_board(
                            &self.board,
                            m.piece.position,
                            m.to,
                        );
                        let sim_moves = crate::moves::generate_moves(&sim.0);
                        !crate::status::is_in_check(&sim.0, &sim_moves, self.turn)
                    }
                };
                if keep {
                    let ghost pre = out@;
                    out.push(
                        Move {
                            piece: crate::clone_piece(&m.piece),
                            from: m.from,
                            to: m.to,
                            take_piece: m.take_piece,
                        },
                    );
                    proof {
                        assert(out@[out@.len() - 1].to.x == m.to.x);
                        assert(crate::model::list_has_dest(out@, m.to.x as int, m.to.y as int));
                        crate::moves::lemma_keeps_all(pre, out@);
                    }
                }
                k = k + 1;
            }
            proof {
                assert forall|tx: int, ty: int| legal_dest(g, i as int, tx, ty)
                    implies #[trigger] crate::model::list_has_dest(out@, tx, ty) by {
                    let p = b[i as int]->0;
                    assert(crate::model::move_list_ok(b, i as int, self.valid_moves@[i as int]@));
                    assert(crate::model::piece_dest(b, p, tx, ty));
                    assert(crate::model::list_has_dest(self.valid_moves@[i as int]@, tx, ty));
                    let ms = self.valid_moves@[i as int]@;
                    let k2 = choose|k2: int|
                        0 <= k2 < ms.len() && (#[trigger] ms[k2]).to.x == tx && ms[k2].to.y == ty;
                    assert(crate::model::move_fields_ok(b, p, ms[k2]));
                    assert(ms[k2].to == Position { x: tx as usize, y: ty as usize });
                    assert(passes_filter(g, i as int, ms[k2]));
                }
            }
            r.push(out);
            i = i + 1;
        }
        r
    }

    /// The side whose king is attacked right now, White reported first,
    /// or `None` when neither is.
    pub fn is_check(&self) -> (r: Option<Color>)
        requires
            self.wf(),
        ensures
            r == (if crate::model::in_check(self@.board, Color::White) {
                Some(Color::White)
            } else if crate::model::in_check(self@.board, Color::Black) {
                Some(Color::Black)
            } else {
                Option::<Color>::None
            }),
    {
        let check_res = crate::status::check_check(&self.board, &self.valid_moves);
        match check_res {
            Some(check_colors) => Some(check_colors[0]),
            None => None,
        }
    }
}

/// Whether two fingerprints are the same bytes.
fn bytes_eq(a: &Vec<u8>, b: &Vec<u8>) -> (r: bool)
    ensures
        r == (a@ == b@),
{
    if a.len() != b.len() {
        proof {
            assert(a@ != b@);
        }
        return false;
    }
    let n = a.len();
    let mut j: usize = 0;
    while j < n
        invariant
            n == a@.len(),
            n == b@.len(),
            j <= n,
            forall|k: int| 0 <= k < j ==> a@[k] == b@[k],
        decreases n - j,
    {
        if a[j] != b[j] {
            proof {
                assert(a@[j as int] != b@[j as int]);
            }
            return false;
        }
        j = j + 1;
    }
    proof {
        assert(a@ =~= b@);
    }
    true
}

} // verus!
