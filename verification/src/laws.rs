//! The engine's laws: what holds of every accepted move and of the draw
//! bookkeeping, stated over the model and proved once and for all.

use vstd::prelude::*;

use crate::game::applied_game;
use crate::game::bump_tbl;
use crate::game::legal_dest;
use crate::game::init_game;
use crate::game::start_board;
use crate::game::updated_game;
use crate::game::validate_v;
use crate::game::GameV;
use crate::model::board_after;
use crate::model::fingerprint;
use crate::model::in_check;
use crate::model::move_captures;
use crate::DrawType;
use crate::PieceType;
use crate::Position;
use crate::Status;
use crate::ValidationResult;

verus! {

/// How many of the first `n` squares hold a piece of kind `t`.
pub open spec fn count_kind(b: crate::BoardV, t: PieceType, n: int) -> int
    decreases n,
{
    if n <= 0 {
        0
    } else {
        count_kind(b, t, n - 1) + (if b[n - 1] matches Some(p) && p.piece_type == t {
            1int
        } else {
            0int
        })
    }
}

/// How many of the first `n` squares hold any piece.
pub open spec fn count_occupied(b: crate::BoardV, n: int) -> int
    decreases n,
{
    if n <= 0 {
        0
    } else {
        count_occupied(b, n - 1) + (if b[n - 1] is Some {
            1int
        } else {
            0int
        })
    }
}

/// The starting position: White is to move, and the board holds exactly
/// two kings, sixteen pawns, and thirty-two pieces in all.
pub proof fn lemma_starting_position()
    ensures
        updated_game(init_game(start_board(), crate::Color::White), false).turn
            == crate::Color::White,
        updated_game(init_game(start_board(), crate::Color::White), false).board == start_board(),
        count_kind(start_board(), PieceType::King, 64) == 2,
        count_kind(start_board(), PieceType::Pawn, 64) == 16,
        count_occupied(start_board(), 64) == 32,
{
    reveal_with_fuel(count_kind, 65);
    reveal_with_fuel(count_occupied, 65);
}

/// No accepted move is a self-check: whenever validation answers
/// `Valid`, the board the move produces never has the mover's own king
/// attacked.
pub proof fn lemma_validate_no_self_check(g: GameV, from: Position, to: Position)
    requires
        validate_v(g, from, to) matches ValidationResult::Valid(_),
    ensures
        !in_check(board_after(g.board, from, to), g.turn),
{
}

/// The same holds of every move the legal-move generator keeps: its
/// destination never leaves the mover's own king attacked.
pub proof fn lemma_legal_dest_no_self_check(g: GameV, i: int, tx: int, ty: int)
    requires
        legal_dest(g, i, tx, ty),
    ensures
        !in_check(
            board_after(g.board, g.board[i]->0.position, Position { x: tx as usize, y: ty as usize }),
            g.turn,
        ),
{
}

/// The board is classified as ongoing for the side to move next: a
/// plain game or a check, not yet a mate, stalemate or draw.
pub open spec fn classifies_ongoing(g: GameV, switch: bool) -> bool {
    let s0 = crate::model::classify_board(
        g.board,
        if switch {
            g.turn.spec_not()
        } else {
            g.turn
        },
    );
    s0 == Status::Chilling || s0 matches Status::Check(_)
}

/// Once one hundred half-moves have passed without a pawn move or a
/// capture, the next classification of a still-ongoing game is the
/// fifty-move-rule draw. A checkmate or stalemate reached on the same
/// move stands instead, and a pending promotion is resolved first.
pub proof fn lemma_fifty_move_rule(g: GameV, switch: bool)
    requires
        g.counter >= 100,
        classifies_ongoing(g, switch),
        crate::game::pending_after(g.board, g.pending) is None,
    ensures
        updated_game(g, switch).status == Status::Draw(DrawType::FiftyMoveRule),
{
}

/// Once recording the position brings its count to three, the next
/// classification of a still-ongoing game is the threefold-repetition
/// draw, unless the fifty-move rule has already ended the game. A
/// checkmate or stalemate reached on the same move stands instead, and
/// a pending promotion is resolved first.
pub proof fn lemma_threefold_repetition(g: GameV, switch: bool)
    requires
        g.counter < 100,
        bump_tbl(g.table, fingerprint(g.board))[fingerprint(g.board)] >= 3,
        classifies_ongoing(g, switch),
        crate::game::pending_after(g.board, g.pending) is None,
    ensures
        updated_game(g, switch).status == Status::Draw(DrawType::ThreefoldRepetition),
{
}

/// How the half-move counter moves: any pawn move or capture resets it,
/// every other applied move raises it by one; and every applied move
/// records the position it produces in the repetition table.
pub proof fn lemma_draw_bookkeeping(g: GameV, from: Position, to: Position)
    ensures
        applied_game(g, from, to).counter == (if g.board[from.spec_index()]->0.piece_type
            == PieceType::Pawn || move_captures(g.board, from, to) {
            0u8
        } else {
            (g.counter + 1) as u8
        }),
        applied_game(g, from, to).table == bump_tbl(
            g.table,
            fingerprint(board_after(g.board, from, to)),
        ),
{
}

} // verus!
