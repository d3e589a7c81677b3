//! Applying a move to a board: classifying it from the board alone,
//! relocating the pieces, and the castling execution. Each function is
//! proved to produce exactly the board the model's transformers describe.

use vstd::prelude::*;
use vstd::pervasive::unreached;
use vstd::pervasive::VecAdditionalExecFns;

use crate::clone_piece;
use crate::clone_positions;
use crate::lemma_board_view_update;
use crate::board_view;
use crate::Board;
use crate::BoardV;
use crate::CastlingType;
use crate::Color;
use crate::MoveType;
use crate::Piece;
use crate::PieceType;
use crate::PieceV;
use crate::Position;
use crate::model::apply_castle_v;
use crate::model::apply_ep_v;
use crate::model::apply_normal_v;
use crate::model::board_after;
use crate::model::board_wf;
use crate::model::castle_dest;
use crate::model::castle_pieces_present;
use crate::model::cell_wf;
use crate::model::classify_move;
use crate::model::ep_victim_ix;
use crate::model::home_rank;
use crate::model::move_captures;
use crate::model::moved_piece;
use crate::model::piece_dest;
use crate::model::sq_ix;

verus! {

/// Classifies how a move would be applied, from the board alone: a king
/// jumping three or four files to a corner castles, a pawn changing file
/// onto an empty square captures en passant, a pawn reaching its
/// farthest rank promotes, and everything else is a plain move.
pub(crate) fn get_move_type(board: &Board, from: Position, to: Position) -> (r: MoveType)
    requires
        board@.len() == 64,
        from.x < 8,
        from.y < 8,
        to.x < 8,
        to.y < 8,
    ensures
        r == classify_move(board_view(board@), from, to),
{
    proof {
        assert(board_view(board@)[from.spec_index()] == crate::cell_view(
            board@[from.spec_index()],
        ));
        assert(board_view(board@)[to.spec_index()] == crate::cell_view(board@[to.spec_index()]));
    }
    let fi = from.y * 8 + from.x;
    let ti = to.y * 8 + to.x;
    match &board[fi] {
        None => MoveType::Normal,
        Some(p) => {
            let dxa: usize = if from.x >= to.x {
                from.x - to.x
            } else {
                to.x - from.x
            };
            if p.piece_type == PieceType::King && (dxa == 3 || dxa == 4) && to.x == 0 {
                MoveType::Castling(CastlingType::QueenSide(p.color))
            } else if p.piece_type == PieceType::King && (dxa == 3 || dxa == 4) && to.x == 7 {
                MoveType::Castling(CastlingType::KingSide(p.color))
            } else if p.piece_type == PieceType::Pawn && dxa == 1 && board[ti].is_none() {
                MoveType::EnPassant
            } else if p.piece_type == PieceType::Pawn && to.y == (
            if p.color == Color::White {
                7usize
            } else {
                0usize
            }) {
                MoveType::Promotion
            } else {
                MoveType::Normal
            }
        },
    }
}

/// The piece moved to `to`, its old square pushed onto its history.
pub(crate) fn make_moved_piece(p: &Piece, to: Position) -> (r: Piece)
    ensures
        r@ == moved_piece(p@, to),
{
    let mut prev = clone_positions(&p.prev_positions);
    prev.push(p.position);
    Piece { piece_type: p.piece_type, color: p.color, position: to, prev_positions: prev }
}

/// Executes a castling move: the king two squares toward the corner and
/// the rook onto the square the king crossed, both histories extended.
pub(crate) fn perform_castling(board: Board, castling_type: CastlingType) -> (r: Board)
    requires
        board@.len() == 64,
        castle_pieces_present(board_view(board@), castling_type),
    ensures
        board_view(r@) == apply_castle_v(board_view(board@), castling_type),
{
    let ghost b0 = board_view(board@);
    let mut board = board;
    let (kingside, row): (bool, usize) = match castling_type {
        CastlingType::QueenSide(c) => (
            false,
            if c == Color::White {
                0
            } else {
                7
            },
        ),
        CastlingType::KingSide(c) => (
            true,
            if c == Color::White {
                0
            } else {
                7
            },
        ),
    };
    let ki: usize = row * 8 + 4;
    let ri: usize = row * 8 + if kingside {
        7
    } else {
        0
    };
    let kti: usize = row * 8 + if kingside {
        6
    } else {
        2
    };
    let rti: usize = row * 8 + if kingside {
        5
    } else {
        3
    };
    proof {
        assert(b0[ki as int] == crate::cell_view(board@[ki as int]));
        assert(b0[ri as int] == crate::cell_view(board@[ri as int]));
    }
    let king: Piece = match &board[ki] {
        Some(p) => clone_piece(p),
        None => unreached(),
    };
    let rook: Piece = match &board[ri] {
        Some(p) => clone_piece(p),
        None => unreached(),
    };
    let kto = Position {
        x: if kingside {
            6
        } else {
            2
        },
        y: row,
    };
    let rto = Position {
        x: if kingside {
            5
        } else {
            3
        },
        y: row,
    };
    let new_king = make_moved_piece(&king, kto);
    let new_rook = make_moved_piece(&rook, rto);
    proof {
        lemma_board_view_update(board@, kti as int, Some(new_king));
    }
    board.set(kti, Some(new_king));
    proof {
        lemma_board_view_update(board@, ki as int, None);
    }
    board.set(ki, None);
    proof {
        lemma_board_view_update(board@, rti as int, Some(new_rook));
    }
    board.set(rti, Some(new_rook));
    proof {
        lemma_board_view_update(board@, ri as int, None);
    }
    board.set(ri, None);
    proof {
        assert(board_view(board@) =~= apply_castle_v(b0, castling_type));
    }
    board
}

/// Applies the move from `from` to `to` on a copy of the board and says
/// whether a piece was taken. The caller's board is never touched.
pub(crate) fn move_piece_on_board(board: &Board, from: Position, to: Position) -> (r: (Board, bool))
    requires
        board@.len() == 64,
        from.x < 8,
        from.y < 8,
        to.x < 8,
        to.y < 8,
        board_view(board@)[from.spec_index()] is Some,
        (classify_move(board_view(board@), from, to) matches MoveType::Castling(t)
            ==> castle_pieces_present(board_view(board@), t)),
        (classify_move(board_view(board@), from, to) == MoveType::EnPassant ==> 0 <= ep_victim_ix(
            to,
            board_view(board@)[from.spec_index()]->0.color,
        ) < 64),
    ensures
        board_view(r.0@) == board_after(board_view(board@), from, to),
        r.1 == move_captures(board_view(board@), from, to),
{
    let ghost b0 = board_view(board@);
    let fi = from.y * 8 + from.x;
    let ti = to.y * 8 + to.x;
    proof {
        assert(b0[fi as int] == crate::cell_view(board@[fi as int]));
        assert(b0[ti as int] == crate::cell_view(board@[ti as int]));
    }
    let piece: Piece = match &board[fi] {
        Some(p) => clone_piece(p),
        None => unreached(),
    };
    let move_type = get_move_type(board, from, to);
    match move_type {
        MoveType::Castling(t) => {
            let nb = perform_castling(clone_board(board), t);
            (nb, false)
        },
        MoveType::EnPassant => {
            let mut nb = clone_board(board);
            let moved = make_moved_piece(&piece, to);
            proof {
                lemma_board_view_update(nb@, ti as int, Some(moved));
            }
            nb.set(ti, Some(moved));
            proof {
                lemma_board_view_update(nb@, fi as int, None);
            }
            nb.set(fi, None);
            let vi: usize = if piece.color == Color::White {
                ti - 8
            } else {
                ti + 8
            };
            proof {
                lemma_board_view_update(nb@, vi as int, None);
            }
            nb.set(vi, None);
            proof {
                assert(board_view(nb@) =~= apply_ep_v(b0, from, to, b0[fi as int]->0.color));
            }
            (nb, true)
        },
        _ => {
            let mut nb = clone_board(board);
            let moved = make_moved_piece(&piece, to);
            let capture = board[ti].is_some();
            proof {
                lemma_board_view_update(nb@, ti as int, Some(moved));
            }
            nb.set(ti, Some(moved));
            proof {
                lemma_board_view_update(nb@, fi as int, None);
            }
            nb.set(fi, None);
            proof {
                assert(board_view(nb@) =~= apply_normal_v(b0, from, to));
            }
            (nb, capture)
        },
    }
}

/// A pseudo-legal move always meets what applying it needs: when it is
/// classified as castling both pieces stand ready, and an en passant
/// victim square lies on the board.
pub proof fn lemma_pseudo_apply_ok(b: BoardV, p: PieceV, tx: int, ty: int)
    requires
        board_wf(b),
        0 <= p.position.spec_index() < 64,
        b[p.position.spec_index()] == Some(p),
        piece_dest(b, p, tx, ty),
    ensures
        (classify_move(b, p.position, Position { x: tx as usize, y: ty as usize })
            matches MoveType::Castling(t) ==> castle_pieces_present(b, t)),
        (classify_move(b, p.position, Position { x: tx as usize, y: ty as usize })
            == MoveType::EnPassant ==> 0 <= ep_victim_ix(
            Position { x: tx as usize, y: ty as usize },
            p.color,
        ) < 64),
{
    let to = Position { x: tx as usize, y: ty as usize };
    let mt = classify_move(b, p.position, to);
    if mt matches MoveType::Castling(t) {
        assert(p.piece_type == PieceType::King);
        assert(castle_dest(b, p, tx, ty));
        assert(b[sq_ix(4, home_rank(p.color))] == Some(p));
    }
    if mt == MoveType::EnPassant {
        assert(p.piece_type == PieceType::Pawn);
    }
}

/// Applying any move with an on-board destination to a well-formed board
/// leaves a well-formed board.
pub proof fn lemma_board_after_wf(b: BoardV, from: Position, to: Position)
    requires
        board_wf(b),
        from.x < 8,
        from.y < 8,
        to.x < 8,
        to.y < 8,
        b[from.spec_index()] is Some,
        (classify_move(b, from, to) matches MoveType::Castling(t) ==> castle_pieces_present(b, t)),
        (classify_move(b, from, to) == MoveType::EnPassant ==> 0 <= ep_victim_ix(
            to,
            b[from.spec_index()]->0.color,
        ) < 64),
    ensures
        board_wf(board_after(b, from, to)),
{
    let nb = board_after(b, from, to);
    match classify_move(b, from, to) {
        MoveType::Castling(t) => {
            assert forall|i: int| 0 <= i < 64 implies cell_wf(nb, i) by {
                assert(cell_wf(b, i));
            }
        },
        MoveType::EnPassant => {
            assert forall|i: int| 0 <= i < 64 implies cell_wf(nb, i) by {
                assert(cell_wf(b, i));
            }
        },
        _ => {
            assert forall|i: int| 0 <= i < 64 implies cell_wf(nb, i) by {
                assert(cell_wf(b, i));
            }
        },
    }
}

use crate::clone_board;

} // verus!
