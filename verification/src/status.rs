//! The legality filter and status classifier: whether a king is
//! attacked, whether a side has any move that frees its king, and the
//! resulting classification of a position.

use vstd::prelude::*;
use vstd::pervasive::unreached;

use crate::board_view;
use crate::Board;
use crate::BoardV;
use crate::Color;
use crate::Move;
use crate::Position;
use crate::PieceType;
use crate::Status;
use crate::DrawType;
use crate::apply::lemma_board_after_wf;
use crate::apply::lemma_pseudo_apply_ok;
use crate::apply::move_piece_on_board;
use crate::model::attacker_at;
use crate::model::board_after;
use crate::model::board_wf;
use crate::model::cell_wf;
use crate::model::classify_board;
use crate::model::has_king;
use crate::model::in_check;
use crate::model::is_first_king;
use crate::model::king_cell;
use crate::model::list_has_dest;
use crate::model::move_fields_ok;
use crate::model::move_list_ok;
use crate::model::move_map_ok;
use crate::model::own_move;
use crate::model::piece_dest;
use crate::model::square_attacked;
use crate::model::stuck;
use crate::moves::generate_moves;

verus! {

/// The board index of the first king of a color, scanning the squares
/// in order.
fn find_king(board: &Board, color: Color) -> (r: Option<usize>)
    requires
        board@.len() == 64,
    ensures
        match r {
            Some(i) => i < 64 && is_first_king(board_view(board@), color, i as int),
            None => !has_king(board_view(board@), color),
        },
{
    let ghost b = board_view(board@);
    let mut i: usize = 0;
    while i < 64
        invariant
            b == board_view(board@),
            board@.len() == 64,
            i <= 64,
            forall|j: int| 0 <= j < i ==> !king_cell(b, j, color),
        decreases 64 - i,
    {
        proof {
            assert(b[i as int] == crate::cell_view(board@[i as int]));
        }
        let found: bool = match &board[i] {
            Some(p) => p.piece_type == PieceType::King && p.color == color,
            None => false,
        };
        if found {
            return Some(i);
        }
        i = i + 1;
    }
    proof {
        assert forall|i2: int| 0 <= i2 < 64 implies !king_cell(b, i2, color) by {}
    }
    None
}

/// Whether any piece of the other color may reach the square `t`.
fn square_attacked_by(board: &Board, valid_moves: &Vec<Vec<Move>>, t: Position, color: Color) -> (r:
    bool)
    requires
        board_wf(board_view(board@)),
        move_map_ok(board_view(board@), valid_moves@),
    ensures
        r == square_attacked(board_view(board@), t, color),
{
    let ghost b = board_view(board@);
    let mut j: usize = 0;
    while j < 64
        invariant
            b == board_view(board@),
            board_wf(b),
            move_map_ok(b, valid_moves@),
            j <= 64,
            forall|j2: int| 0 <= j2 < j ==> !attacker_at(b, j2, t, color),
        decreases 64 - j,
    {
        let list = &valid_moves[j];
        let n = list.len();
        let mut k: usize = 0;
        while k < n
            invariant
                b == board_view(board@),
                board_wf(b),
                move_map_ok(b, valid_moves@),
                j < 64,
                n == valid_moves@[j as int]@.len(),
                list == &valid_moves@[j as int],
                k <= n,
                forall|k2: int|
                    0 <= k2 < k ==> !((#[trigger] valid_moves@[j as int]@[k2]).piece.color != color
                        && valid_moves@[j as int]@[k2].to == t),
            decreases n - k,
        {
            let m = &list[k];
            if m.piece.color != color && m.to.x == t.x && m.to.y == t.y {
                proof {
                    assert(move_list_ok(b, j as int, valid_moves@[j as int]@));
                    assert(b[j as int] is Some);
                    let p = b[j as int]->0;
                    assert(move_fields_ok(b, p, valid_moves@[j as int]@[k as int]));
                    assert(attacker_at(b, j as int, t, color));
                }
                return true;
            }
            k = k + 1;
        }
        proof {
            assert forall|j3: int| j3 == j implies !attacker_at(b, j3, t, color) by {
                if attacker_at(b, j3, t, color) {
                    let p = b[j3]->0;
                    assert(move_list_ok(b, j3, valid_moves@[j3]@));
                    assert(piece_dest(b, p, t.x as int, t.y as int));
                    assert(list_has_dest(valid_moves@[j3]@, t.x as int, t.y as int));
                    let ms3 = valid_moves@[j3]@;
                    let k2 = choose|k2: int|
                        0 <= k2 < ms3.len() && (#[trigger] ms3[k2]).to.x == t.x && ms3[k2].to.y
                            == t.y;
                    assert(move_fields_ok(b, p, valid_moves@[j3]@[k2]));
                    assert(valid_moves@[j3]@[k2].to == t);
                    assert(false);
                }
            }
        }
        j = j + 1;
    }
    proof {
        if square_attacked(b, t, color) {
            let j2 = choose|j2: int| 0 <= j2 < 64 && #[trigger] attacker_at(b, j2, t, color);
            assert(false);
        }
    }
    false
}

/// Whether the given side is in check on this board: its first king's
/// square is attacked. A side with no king is never in check.
pub(crate) fn is_in_check(board: &Board, valid_moves: &Vec<Vec<Move>>, color: Color) -> (r: bool)
    requires
        board_wf(board_view(board@)),
        move_map_ok(board_view(board@), valid_moves@),
    ensures
        r == in_check(board_view(board@), color),
{
    let ghost b = board_view(board@);
    match find_king(board, color) {
        None => {
            proof {
                if in_check(b, color) {
                    let i = choose|i: int|
                        #[trigger] is_first_king(b, color, i) && square_attacked(
                            b,
                            b[i]->0.position,
                            color,
                        );
                    assert(king_cell(b, i, color));
                    assert(has_king(b, color));
                }
            }
            false
        },
        Some(ki) => {
            proof {
                assert(b[ki as int] == crate::cell_view(board@[ki as int]));
            }
            let kpos: Position = match &board[ki] {
                Some(p) => p.position,
                None => unreached(),
            };
            let attacked = square_attacked_by(board, valid_moves, kpos, color);
            proof {
                if attacked {
                    assert(is_first_king(b, color, ki as int) && square_attacked(
                        b,
                        b[ki as int]->0.position,
                        color,
                    ));
                } else {
                    if in_check(b, color) {
                        let i = choose|i: int|
                            #[trigger] is_first_king(b, color, i) && square_attacked(
                                b,
                                b[i]->0.position,
                                color,
                            );
                        assert(king_cell(b, i, color));
                        assert(king_cell(b, ki as int, color));
                        if i < ki as int {
                            assert(!king_cell(b, i, color));
                        }
                        if (ki as int) < i {
                            assert(!king_cell(b, ki as int, color));
                        }
                        assert(i == ki as int);
                        assert(false);
                    }
                }
            }
            attacked
        },
    }
}

/// The sides in check on this board, White first, or `None` when no
/// king is attacked.
pub open spec fn check_colors(b: BoardV) -> Seq<Color> {
    if in_check(b, Color::White) && in_check(b, Color::Black) {
        seq![Color::White, Color::Black]
    } else if in_check(b, Color::White) {
        seq![Color::White]
    } else if in_check(b, Color::Black) {
        seq![Color::Black]
    } else {
        Seq::empty()
    }
}

/// Which sides are in check: `None` when neither king is attacked, else
/// the attacked sides, White first.
pub(crate) fn check_check(board: &Board, valid_moves: &Vec<Vec<Move>>) -> (r: Option<Vec<Color>>)
    requires
        board_wf(board_view(board@)),
        move_map_ok(board_view(board@), valid_moves@),
    ensures
        (r is Some) == (in_check(board_view(board@), Color::White) || in_check(
            board_view(board@),
            Color::Black,
        )),
        (r matches Some(cs) ==> cs@ == check_colors(board_view(board@))),
{
    let w = is_in_check(board, valid_moves, Color::White);
    let bl = is_in_check(board, valid_moves, Color::Black);
    if !w && !bl {
        None
    } else {
        let mut cs: Vec<Color> = Vec::new();
        if w {
            cs.push(Color::White);
        }
        if bl {
            cs.push(Color::Black);
        }
        proof {
            assert(cs@ =~= check_colors(board_view(board@)));
        }
        Some(cs)
    }
}

/// Whether the given side has no move that frees its king: every
/// pseudo-legal move it may make still leaves it in check.
pub(crate) fn cant_move(board: &Board, valid_moves: &Vec<Vec<Move>>, color: Color) -> (r: bool)
    requires
        board_wf(board_view(board@)),
        move_map_ok(board_view(board@), valid_moves@),
    ensures
        r == stuck(board_view(board@), color),
{
    let ghost b = board_view(board@);
    let mut i: usize = 0;
    while i < 64
        invariant
            b == board_view(board@),
            board_wf(b),
            move_map_ok(b, valid_moves@),
            i <= 64,
            forall|i2: int, tx: int, ty: int|
                0 <= i2 < i && #[trigger] own_move(b, color, i2, tx, ty) ==> in_check(
                    board_after(b, b[i2]->0.position, Position { x: tx as usize, y: ty as usize }),
                    color,
                ),
        decreases 64 - i,
    {
        let list = &valid_moves[i];
        let n = list.len();
        let mut k: usize = 0;
        while k < n
            invariant
                b == board_view(board@),
                board_wf(b),
                move_map_ok(b, valid_moves@),
                i < 64,
                n == valid_moves@[i as int]@.len(),
                list == &valid_moves@[i as int],
                k <= n,
                forall|k2: int|
                    0 <= k2 < k && (#[trigger] valid_moves@[i as int]@[k2]).piece.color == color
                        ==> in_check(
                        board_after(b, b[i as int]->0.position, valid_moves@[i as int]@[k2].to),
                        color,
                    ),
            decreases n - k,
        {
            let m = &list[k];
            proof {
                assert(move_list_ok(b, i as int, valid_moves@[i as int]@));
                if valid_moves@[i as int]@.len() > 0 {
                    assert(b[i as int] is Some);
                    assert(move_fields_ok(b, b[i as int]->0, valid_moves@[i as int]@[k as int]));
                }
            }
            if m.piece.color == color {
                proof {
                    let p = b[i as int]->0;
                    assert(cell_wf(b, i as int));
                    lemma_pseudo_apply_ok(b, p, m.to.x as int, m.to.y as int);
                    lemma_board_after_wf(b, p.position, m.to);
                }
                let sim = move_piece_on_board(board, m.piece.position, m.to);
                let sim_moves = generate_moves(&sim.0);
                let chk = is_in_check(&sim.0, &sim_moves, color);
                if !chk {
                    proof {
                        let p = b[i as int]->0;
                        assert(own_move(b, color, i as int, m.to.x as int, m.to.y as int));
                        assert(Position { x: m.to.x as usize, y: m.to.y as usize } == m.to);
                        assert(!stuck(b, color));
                    }
                    return false;
                }
            }
            k = k + 1;
        }
        proof {
            assert forall|tx: int, ty: int| #[trigger] own_move(b, color, i as int, tx, ty)
                implies in_check(
                board_after(b, b[i as int]->0.position, Position { x: tx as usize, y: ty as usize }),
                color,
            ) by {
                let p = b[i as int]->0;
                assert(move_list_ok(b, i as int, valid_moves@[i as int]@));
                assert(piece_dest(b, p, tx, ty));
                assert(list_has_dest(valid_moves@[i as int]@, tx, ty));
                let msi = valid_moves@[i as int]@;
                let k2 = choose|k2: int|
                    0 <= k2 < msi.len() && (#[trigger] msi[k2]).to.x == tx && msi[k2].to.y == ty;
                assert(move_fields_ok(b, p, valid_moves@[i as int]@[k2]));
                assert(valid_moves@[i as int]@[k2].to == Position {
                    x: tx as usize,
                    y: ty as usize,
                });
            }
        }
        i = i + 1;
    }
    proof {
        assert forall|i2: int, tx: int, ty: int| #[trigger] own_move(b, color, i2, tx, ty)
            implies in_check(
            board_after(b, b[i2]->0.position, Position { x: tx as usize, y: ty as usize }),
            color,
        ) by {}
    }
    true
}

/// Classifies the board for the side to move next: checkmate and check
/// for either side, stalemate for the side to move, else an ongoing
/// game. The draw counters and pending promotions are overlaid by the
/// caller.
pub(crate) fn get_board_status(
    board: &Board,
    valid_moves: &Vec<Vec<Move>>,
    turn: Color,
) -> (r: Status)
    requires
        board_wf(board_view(board@)),
        move_map_ok(board_view(board@), valid_moves@),
    ensures
        r == classify_board(board_view(board@), turn),
{
    let check_w = is_in_check(board, valid_moves, Color::White);
    let check_b = is_in_check(board, valid_moves, Color::Black);
    let my_check = if turn == Color::White {
        check_w
    } else {
        check_b
    };
    let opp_check = if turn == Color::White {
        check_b
    } else {
        check_w
    };
    if !my_check && !opp_check {
        let im_stuck = cant_move(board, valid_moves, turn);
        if im_stuck {
            Status::Draw(DrawType::Stalemate)
        } else {
            Status::Chilling
        }
    } else {
        let im_stuck = cant_move(board, valid_moves, turn);
        let opponent_stuck = cant_move(board, valid_moves, turn.not());
        if my_check && im_stuck {
            Status::Checkmate(turn)
        } else if opp_check && opponent_stuck {
            Status::Checkmate(turn.not())
        } else if my_check {
            Status::Check(turn)
        } else {
            Status::Check(turn.not())
        }
    }
}

} // verus!
