//! The pseudo-legal move generator: for every occupied square, every
//! destination its piece may reach, ignoring whether the move leaves the
//! mover's own king attacked. Proved sound and complete against the
//! destination predicates of the model.

use vstd::prelude::*;

use crate::clone_piece;
use crate::PieceV;
use crate::Board;
use crate::Color;
use crate::Move;
use crate::Piece;
use crate::PieceType;
use crate::Position;
use crate::board_view;
use crate::BoardV;
use crate::model::board_wf;
use crate::model::castle_dest;
use crate::model::dir_reach;
use crate::model::empty_at;
use crate::model::friendly_at;
use crate::model::gen_ok;
use crate::model::list_has_dest;
use crate::model::move_fields_ok;
use crate::model::move_list_ok;
use crate::model::move_map_ok;
use crate::model::occupied;
use crate::model::on_board;
use crate::model::pawn_dest;
use crate::model::piece_dest;
use crate::model::ray_hit;
use crate::model::bishop_path_clear;
use crate::model::rook_path_clear;
use crate::model::shift;
use crate::model::sq_ix;
use crate::model::strictly_between;

verus! {

/// The fields a single-step candidate move must carry.
pub open spec fn step_move_ok(b: BoardV, p: PieceV, tx: int, ty: int, m: Move) -> bool {
    &&& m.piece@ == p
    &&& m.from == p.position
    &&& m.to.x == tx
    &&& m.to.y == ty
    &&& m.take_piece == occupied(b, tx, ty)
    &&& on_board(tx, ty)
    &&& !friendly_at(b, p.color, tx, ty)
}

/// The old list is a prefix of the new one, every destination it had is
/// kept, and every appended move is a step move to `(tx, ty)`.
pub open spec fn step_extended(
    b: BoardV,
    p: PieceV,
    tx: int,
    ty: int,
    ms0: Seq<Move>,
    ms1: Seq<Move>,
) -> bool {
    &&& ms1.len() >= ms0.len()
    &&& forall|k: int| 0 <= k < ms0.len() ==> ms1[k] == ms0[k]
    &&& forall|tx2: int, ty2: int|
        list_has_dest(ms0, tx2, ty2) ==> #[trigger] list_has_dest(ms1, tx2, ty2)
    &&& forall|k: int| ms0.len() <= k < ms1.len() ==> step_move_ok(b, p, tx, ty, #[trigger] ms1[k])
    &&& (on_board(tx, ty) && !friendly_at(b, p.color, tx, ty) ==> list_has_dest(ms1, tx, ty))
    &&& (!(on_board(tx, ty) && !friendly_at(b, p.color, tx, ty)) ==> ms1 == ms0)
}

/// Appends the single-step move `(dx, dy)` away, if its target lies on
/// the board and is not a friendly piece.
fn try_step(board: &Board, piece: &Piece, dx: i8, dy: i8, moves: &mut Vec<Move>)
    requires
        board_wf(board_view(board@)),
        piece@.position.x < 8,
        piece@.position.y < 8,
        -2 <= dx as int <= 2,
        -2 <= dy as int <= 2,
    ensures
        step_extended(
            board_view(board@),
            piece@,
            piece@.position.x + dx as int,
            piece@.position.y + dy as int,
            old(moves)@,
            final(moves)@,
        ),
{
    let txi: i8 = piece.position.x as i8 + dx;
    let tyi: i8 = piece.position.y as i8 + dy;
    if 0 <= txi && txi < 8 && 0 <= tyi && tyi < 8 {
        let tx = txi as usize;
        let ty = tyi as usize;
        let ti = ty * 8 + tx;
        proof {
            assert(board_view(board@)[ti as int] == crate::cell_view(board@[ti as int]));
        }
        let (free, take) = match &board[ti] {
            Some(q) => (q.color != piece.color, true),
            None => (true, false),
        };
        if free {
            moves.push(
                Move {
                    piece: clone_piece(piece),
                    from: piece.position,
                    to: Position { x: tx, y: ty },
                    take_piece: take,
                },
            );
            proof {
                let ms = moves@;
                assert(ms[ms.len() - 1].to.x == tx);
                assert(list_has_dest(ms, tx as int, ty as int));
            }
        }
    }
    proof {
        let b = board_view(board@);
        let p = piece@;
        let tx = p.position.x + dx as int;
        let ty = p.position.y + dy as int;
        assert forall|tx2: int, ty2: int|
            list_has_dest(old(moves)@, tx2, ty2) implies #[trigger] list_has_dest(
            moves@,
            tx2,
            ty2,
        ) by {
            let k = choose|k: int|
                0 <= k < old(moves)@.len() && (#[trigger] old(moves)@[k]).to.x == tx2 && old(
                    moves,
                )@[k].to.y == ty2;
            assert(moves@[k] == old(moves)@[k]);
        }
        assert(step_extended(b, p, tx, ty, old(moves)@, moves@));
    }
}

/// The fields a sliding candidate move must carry: a destination reached
/// along the ray `(dx, dy)` that does not hold a friendly piece.
pub open spec fn slide_move_ok(b: BoardV, p: PieceV, dx: int, dy: int, m: Move) -> bool {
    &&& m.piece@ == p
    &&& m.from == p.position
    &&& dir_reach(b, p.position.x as int, p.position.y as int, dx, dy, m.to.x as int, m.to.y as int)
    &&& !friendly_at(b, p.color, m.to.x as int, m.to.y as int)
    &&& m.take_piece == occupied(b, m.to.x as int, m.to.y as int)
}

/// Walks outward along one ray, appending a move for every empty square
/// passed and one capture when an enemy piece stops the walk.
#[verifier::rlimit(50)]
fn slide_dir(board: &Board, piece: &Piece, dx: i8, dy: i8, moves: &mut Vec<Move>)
    requires
        board_wf(board_view(board@)),
        piece@.position.x < 8,
        piece@.position.y < 8,
        -1 <= dx as int <= 1,
        -1 <= dy as int <= 1,
        !(dx == 0 && dy == 0),
    ensures
        final(moves)@.len() >= old(moves)@.len(),
        forall|k: int| 0 <= k < old(moves)@.len() ==> final(moves)@[k] == old(moves)@[k],
        forall|tx2: int, ty2: int|
            list_has_dest(old(moves)@, tx2, ty2) ==> #[trigger] list_has_dest(
                final(moves)@,
                tx2,
                ty2,
            ),
        forall|k: int|
            old(moves)@.len() <= k < final(moves)@.len() ==> slide_move_ok(
                board_view(board@),
                piece@,
                dx as int,
                dy as int,
                #[trigger] final(moves)@[k],
            ),
        forall|tx: int, ty: int|
            dir_reach(
                board_view(board@),
                piece@.position.x as int,
                piece@.position.y as int,
                dx as int,
                dy as int,
                tx,
                ty,
            ) && !friendly_at(board_view(board@), piece@.color, tx, ty)
                ==> #[trigger] list_has_dest(final(moves)@, tx, ty),
{
    let ghost b = board_view(board@);
    let ghost p = piece@;
    let ghost ms0 = moves@;
    let ghost fxi = piece@.position.x as int;
    let ghost fyi = piece@.position.y as int;
    let fx = piece.position.x;
    let fy = piece.position.y;
    let mut cx: i8 = fx as i8;
    let mut cy: i8 = fy as i8;
    let mut s: u8 = 0;
    loop
        invariant_except_break
            forall|j: int|
                1 <= j <= s ==> on_board(
                    shift(fxi, dx as int, j),
                    #[trigger] shift(fyi, dy as int, j),
                ) && empty_at(b, shift(fxi, dx as int, j), shift(fyi, dy as int, j)),
            forall|j: int|
                1 <= j <= s ==> #[trigger] list_has_dest(
                    moves@,
                    shift(fxi, dx as int, j),
                    shift(fyi, dy as int, j),
                ),
        invariant
            board_wf(b),
            b == board_view(board@),
            p == piece@,
            fxi == p.position.x as int,
            fyi == p.position.y as int,
            fxi < 8,
            fyi < 8,
            -1 <= dx as int <= 1,
            -1 <= dy as int <= 1,
            !(dx == 0 && dy == 0),
            0 <= s <= 7,
            cx as int == shift(fxi, dx as int, s as int),
            cy as int == shift(fyi, dy as int, s as int),
            s > 0 ==> on_board(cx as int, cy as int),
            moves@.len() >= ms0.len(),
            forall|k: int| 0 <= k < ms0.len() ==> moves@[k] == ms0[k],
            forall|k: int|
                ms0.len() <= k < moves@.len() ==> slide_move_ok(
                    b,
                    p,
                    dx as int,
                    dy as int,
                    #[trigger] moves@[k],
                ),
        ensures
            moves@.len() >= ms0.len(),
            forall|k: int| 0 <= k < ms0.len() ==> moves@[k] == ms0[k],
            forall|k: int|
                ms0.len() <= k < moves@.len() ==> slide_move_ok(
                    b,
                    p,
                    dx as int,
                    dy as int,
                    #[trigger] moves@[k],
                ),
            forall|tx: int, ty: int|
                dir_reach(b, fxi, fyi, dx as int, dy as int, tx, ty) && !friendly_at(
                    b,
                    p.color,
                    tx,
                    ty,
                ) ==> #[trigger] list_has_dest(moves@, tx, ty),
        decreases 7 - s,
    {
        if s == 7 {
            proof {
                lemma_ray_covered(b, p, dx as int, dy as int, 7, moves@, true);
            }
            break;
        }
        let nx = cx + dx;
        let ny = cy + dy;
        if !(0 <= nx && nx < 8 && 0 <= ny && ny < 8) {
            proof {
                assert forall|tx: int, ty: int|
                    dir_reach(b, fxi, fyi, dx as int, dy as int, tx, ty) && !friendly_at(
                        b,
                        p.color,
                        tx,
                        ty,
                    ) implies #[trigger] list_has_dest(moves@, tx, ty) by {
                    let k = choose|k: int|
                        1 <= k < 8 && #[trigger] ray_hit(fxi, fyi, dx as int, dy as int, k, tx, ty)
                            && on_board(tx, ty) && (forall|j: int|
                            1 <= j < k ==> empty_at(
                                b,
                                shift(fxi, dx as int, j),
                                shift(fyi, dy as int, j),
                            ));
                    assert(k <= s);
                }
            }
            break;
        }
        s = s + 1;
        cx = nx;
        cy = ny;
        let ti = (cy as usize) * 8 + (cx as usize);
        proof {
            assert(board_view(board@)[ti as int] == crate::cell_view(board@[ti as int]));
        }
        let ghost pre = moves@;
        let stop: bool = match &board[ti] {
            None => {
                moves.push(
                    Move {
                        piece: clone_piece(piece),
                        from: piece.position,
                        to: Position { x: cx as usize, y: cy as usize },
                        take_piece: false,
                    },
                );
                proof {
                    let ms = moves@;
                    assert(ray_hit(fxi, fyi, dx as int, dy as int, s as int, cx as int, cy as int));
                    assert(ms[ms.len() - 1].to.x == cx as int);
                    assert(list_has_dest(ms, cx as int, cy as int));
                    assert forall|j: int| 1 <= j <= s implies #[trigger] list_has_dest(
                        moves@,
                        shift(fxi, dx as int, j),
                        shift(fyi, dy as int, j),
                    ) by {
                        if j < s {
                            lemma_has_dest_push(
                                pre,
                                moves@,
                                shift(fxi, dx as int, j),
                                shift(fyi, dy as int, j),
                            );
                        }
                    }
                }
                false
            },
            Some(q) => {
                if q.color != piece.color {
                    moves.push(
                        Move {
                            piece: clone_piece(piece),
                            from: piece.position,
                            to: Position { x: cx as usize, y: cy as usize },
                            take_piece: true,
                        },
                    );
                    proof {
                        let ms = moves@;
                        assert(ray_hit(
                            fxi,
                            fyi,
                            dx as int,
                            dy as int,
                            s as int,
                            cx as int,
                            cy as int,
                        ));
                        assert(ms[ms.len() - 1].to.x == cx as int);
                        assert(list_has_dest(ms, cx as int, cy as int));
                    }
                }
                proof {
                    assert forall|j: int| 1 <= j < s implies #[trigger] list_has_dest(
                        moves@,
                        shift(fxi, dx as int, j),
                        shift(fyi, dy as int, j),
                    ) by {
                        lemma_has_dest_push(
                            pre,
                            moves@,
                            shift(fxi, dx as int, j),
                            shift(fyi, dy as int, j),
                        );
                    }
                    lemma_ray_covered(b, p, dx as int, dy as int, s as int, moves@, false);
                }
                true
            },
        };
        if stop {
            break;
        }
    }
}

/// After the walk has visited `s` squares, every reachable, not-friendly
/// destination along the ray is already in the list: nearer squares were
/// pushed, and no farther square is reachable, either because the walk
/// covered the whole ray or because square `s` blocks it.
proof fn lemma_ray_covered(
    b: BoardV,
    p: PieceV,
    dx: int,
    dy: int,
    s: int,
    ms: Seq<Move>,
    whole_ray: bool,
)
    requires
        1 <= s <= 7,
        forall|j: int|
            1 <= j < s ==> empty_at(
                b,
                shift(p.position.x as int, dx, j),
                #[trigger] shift(p.position.y as int, dy, j),
            ),
        whole_ray ==> empty_at(
            b,
            shift(p.position.x as int, dx, s),
            shift(p.position.y as int, dy, s),
        ),
        whole_ray ==> s == 7,
        !whole_ray ==> occupied(b, shift(p.position.x as int, dx, s), shift(p.position.y as int, dy, s)),
        forall|j: int|
            1 <= j <= s && (whole_ray || j < s || !friendly_at(
                b,
                p.color,
                shift(p.position.x as int, dx, j),
                shift(p.position.y as int, dy, j),
            )) ==> #[trigger] list_has_dest(
                ms,
                shift(p.position.x as int, dx, j),
                shift(p.position.y as int, dy, j),
            ),
    ensures
        forall|tx: int, ty: int|
            dir_reach(b, p.position.x as int, p.position.y as int, dx, dy, tx, ty) && !friendly_at(
                b,
                p.color,
                tx,
                ty,
            ) ==> #[trigger] list_has_dest(ms, tx, ty),
{
    let fxi = p.position.x as int;
    let fyi = p.position.y as int;
    assert forall|tx: int, ty: int|
        dir_reach(b, fxi, fyi, dx, dy, tx, ty) && !friendly_at(b, p.color, tx, ty)
            implies #[trigger] list_has_dest(ms, tx, ty) by {
        let k = choose|k: int|
            1 <= k < 8 && #[trigger] ray_hit(fxi, fyi, dx, dy, k, tx, ty) && on_board(tx, ty) && (
            forall|j: int| 1 <= j < k ==> empty_at(b, shift(fxi, dx, j), shift(fyi, dy, j)));
        if k > s {
            assert(empty_at(b, shift(fxi, dx, s), shift(fyi, dy, s)));
            assert(false);
        }
    }
}

/// A pushed move keeps every destination the list already had.
pub(crate) proof fn lemma_has_dest_push(ms0: Seq<Move>, ms1: Seq<Move>, tx: int, ty: int)
    requires
        ms1.len() >= ms0.len(),
        forall|k: int| 0 <= k < ms0.len() ==> ms1[k] == ms0[k],
        list_has_dest(ms0, tx, ty),
    ensures
        list_has_dest(ms1, tx, ty),
{
    let k = choose|k: int|
        0 <= k < ms0.len() && (#[trigger] ms0[k]).to.x == tx && ms0[k].to.y == ty;
    assert(ms1[k] == ms0[k]);
}

/// A rook's line is exactly a walk along one of the four straight rays.
proof fn lemma_rook_reach(b: BoardV, fx: int, fy: int, tx: int, ty: int)
    requires
        on_board(fx, fy),
        on_board(tx, ty),
    ensures
        rook_path_clear(b, fx, fy, tx, ty) <==> (dir_reach(b, fx, fy, 1, 0, tx, ty) || dir_reach(
            b,
            fx,
            fy,
            -1,
            0,
            tx,
            ty,
        ) || dir_reach(b, fx, fy, 0, 1, tx, ty) || dir_reach(b, fx, fy, 0, -1, tx, ty)),
{
    if rook_path_clear(b, fx, fy, tx, ty) {
        if ty == fy && tx > fx {
            let k = tx - fx;
            assert forall|j: int| 1 <= j < k implies empty_at(
                b,
                #[trigger] shift(fx, 1, j),
                shift(fy, 0, j),
            ) by {
                assert(strictly_between(fx, fx + j, tx));
            }
            assert(ray_hit(fx, fy, 1, 0, k, tx, ty));
            assert(dir_reach(b, fx, fy, 1, 0, tx, ty));
        } else if ty == fy && tx < fx {
            let k = fx - tx;
            assert forall|j: int| 1 <= j < k implies empty_at(
                b,
                #[trigger] shift(fx, -1, j),
                shift(fy, 0, j),
            ) by {
                assert(strictly_between(fx, fx - j, tx));
            }
            assert(ray_hit(fx, fy, -1, 0, k, tx, ty));
            assert(dir_reach(b, fx, fy, -1, 0, tx, ty));
        } else if tx == fx && ty > fy {
            let k = ty - fy;
            assert forall|j: int| 1 <= j < k implies empty_at(
                b,
                #[trigger] shift(fx, 0, j),
                shift(fy, 1, j),
            ) by {
                assert(strictly_between(fy, fy + j, ty));
            }
            assert(ray_hit(fx, fy, 0, 1, k, tx, ty));
            assert(dir_reach(b, fx, fy, 0, 1, tx, ty));
        } else {
            let k = fy - ty;
            assert forall|j: int| 1 <= j < k implies empty_at(
                b,
                #[trigger] shift(fx, 0, j),
                shift(fy, -1, j),
            ) by {
                assert(strictly_between(fy, fy - j, ty));
            }
            assert(ray_hit(fx, fy, 0, -1, k, tx, ty));
            assert(dir_reach(b, fx, fy, 0, -1, tx, ty));
        }
    }
    if dir_reach(b, fx, fy, 1, 0, tx, ty) {
        let k = ray_witness(b, fx, fy, 1, 0, tx, ty);
        assert forall|u: int| strictly_between(fx, u, tx) implies empty_at(b, u, fy) by {
            assert(empty_at(b, shift(fx, 1, u - fx), shift(fy, 0, u - fx)));
        }
        assert(rook_path_clear(b, fx, fy, tx, ty));
    }
    if dir_reach(b, fx, fy, -1, 0, tx, ty) {
        let k = ray_witness(b, fx, fy, -1, 0, tx, ty);
        assert forall|u: int| strictly_between(fx, u, tx) implies empty_at(b, u, fy) by {
            assert(empty_at(b, shift(fx, -1, fx - u), shift(fy, 0, fx - u)));
        }
        assert(rook_path_clear(b, fx, fy, tx, ty));
    }
    if dir_reach(b, fx, fy, 0, 1, tx, ty) {
        let k = ray_witness(b, fx, fy, 0, 1, tx, ty);
        assert forall|v: int| strictly_between(fy, v, ty) implies empty_at(b, fx, v) by {
            assert(empty_at(b, shift(fx, 0, v - fy), shift(fy, 1, v - fy)));
        }
        assert(rook_path_clear(b, fx, fy, tx, ty));
    }
    if dir_reach(b, fx, fy, 0, -1, tx, ty) {
        let k = ray_witness(b, fx, fy, 0, -1, tx, ty);
        assert forall|v: int| strictly_between(fy, v, ty) implies empty_at(b, fx, v) by {
            assert(empty_at(b, shift(fx, 0, fy - v), shift(fy, -1, fy - v)));
        }
        assert(rook_path_clear(b, fx, fy, tx, ty));
    }
}

/// The step count at which a reachable ray destination is hit.
spec fn ray_witness(b: BoardV, fx: int, fy: int, dx: int, dy: int, tx: int, ty: int) -> int {
    choose|k: int|
        1 <= k < 8 && #[trigger] ray_hit(fx, fy, dx, dy, k, tx, ty) && on_board(tx, ty) && (forall|
            j: int,
        |
            1 <= j < k ==> empty_at(b, shift(fx, dx, j), shift(fy, dy, j)))
}

/// A bishop's diagonal is exactly a walk along one of the four diagonal
/// rays.
proof fn lemma_bishop_reach(b: BoardV, fx: int, fy: int, tx: int, ty: int)
    requires
        on_board(fx, fy),
        on_board(tx, ty),
    ensures
        bishop_path_clear(b, fx, fy, tx, ty) <==> (dir_reach(b, fx, fy, 1, 1, tx, ty) || dir_reach(
            b,
            fx,
            fy,
            1,
            -1,
            tx,
            ty,
        ) || dir_reach(b, fx, fy, -1, 1, tx, ty) || dir_reach(b, fx, fy, -1, -1, tx, ty)),
{
    if bishop_path_clear(b, fx, fy, tx, ty) {
        if ty - fy == tx - fx && tx > fx {
            let k = tx - fx;
            assert forall|j: int| 1 <= j < k implies empty_at(
                b,
                #[trigger] shift(fx, 1, j),
                shift(fy, 1, j),
            ) by {
                assert(strictly_between(fx, fx + j, tx));
                assert(empty_at(b, fx + j, fy + ((fx + j) - fx)));
            }
            assert(ray_hit(fx, fy, 1, 1, k, tx, ty));
            assert(dir_reach(b, fx, fy, 1, 1, tx, ty));
        } else if ty - fy == tx - fx && tx < fx {
            let k = fx - tx;
            assert forall|j: int| 1 <= j < k implies empty_at(
                b,
                #[trigger] shift(fx, -1, j),
                shift(fy, -1, j),
            ) by {
                assert(strictly_between(fx, fx - j, tx));
                assert(empty_at(b, fx - j, fy + ((fx - j) - fx)));
            }
            assert(ray_hit(fx, fy, -1, -1, k, tx, ty));
            assert(dir_reach(b, fx, fy, -1, -1, tx, ty));
        } else if ty - fy == fx - tx && tx > fx {
            let k = tx - fx;
            assert forall|j: int| 1 <= j < k implies empty_at(
                b,
                #[trigger] shift(fx, 1, j),
                shift(fy, -1, j),
            ) by {
                assert(strictly_between(fx, fx + j, tx));
                assert(empty_at(b, fx + j, fy - ((fx + j) - fx)));
            }
            assert(ray_hit(fx, fy, 1, -1, k, tx, ty));
            assert(dir_reach(b, fx, fy, 1, -1, tx, ty));
        } else {
            let k = fx - tx;
            assert forall|j: int| 1 <= j < k implies empty_at(
                b,
                #[trigger] shift(fx, -1, j),
                shift(fy, 1, j),
            ) by {
                assert(strictly_between(fx, fx - j, tx));
                assert(empty_at(b, fx - j, fy - ((fx - j) - fx)));
            }
            assert(ray_hit(fx, fy, -1, 1, k, tx, ty));
            assert(dir_reach(b, fx, fy, -1, 1, tx, ty));
        }
    }
    if dir_reach(b, fx, fy, 1, 1, tx, ty) {
        let k = ray_witness(b, fx, fy, 1, 1, tx, ty);
        assert forall|u: int| strictly_between(fx, u, tx) implies empty_at(b, u, fy + (u - fx)) by {
            assert(empty_at(b, shift(fx, 1, u - fx), shift(fy, 1, u - fx)));
        }
        assert(bishop_path_clear(b, fx, fy, tx, ty));
    }
    if dir_reach(b, fx, fy, -1, -1, tx, ty) {
        let k = ray_witness(b, fx, fy, -1, -1, tx, ty);
        assert forall|u: int| strictly_between(fx, u, tx) implies empty_at(b, u, fy + (u - fx)) by {
            assert(empty_at(b, shift(fx, -1, fx - u), shift(fy, -1, fx - u)));
        }
        assert(bishop_path_clear(b, fx, fy, tx, ty));
    }
    if dir_reach(b, fx, fy, 1, -1, tx, ty) {
        let k = ray_witness(b, fx, fy, 1, -1, tx, ty);
        assert forall|u: int| strictly_between(fx, u, tx) implies empty_at(b, u, fy - (u - fx)) by {
            assert(empty_at(b, shift(fx, 1, u - fx), shift(fy, -1, u - fx)));
        }
        assert(bishop_path_clear(b, fx, fy, tx, ty));
    }
    if dir_reach(b, fx, fy, -1, 1, tx, ty) {
        let k = ray_witness(b, fx, fy, -1, 1, tx, ty);
        assert forall|u: int| strictly_between(fx, u, tx) implies empty_at(b, u, fy - (u - fx)) by {
            assert(empty_at(b, shift(fx, -1, fx - u), shift(fy, 1, fx - u)));
        }
        assert(bishop_path_clear(b, fx, fy, tx, ty));
    }
}

/// The rook's moves: walks along the four straight rays.
pub(crate) fn valid_moves_rook(board: &Board, piece: &Piece) -> (r: Vec<Move>)
    requires
        board_wf(board_view(board@)),
        piece@.position.x < 8,
        piece@.position.y < 8,
        piece@.piece_type == PieceType::Rook,
    ensures
        gen_ok(board_view(board@), piece@, r@),
{
    let ghost b = board_view(board@);
    let ghost p = piece@;
    let ghost fxi = piece@.position.x as int;
    let ghost fyi = piece@.position.y as int;
    let mut moves: Vec<Move> = Vec::new();
    slide_dir(board, piece, 1, 0, &mut moves);
    slide_dir(board, piece, -1, 0, &mut moves);
    slide_dir(board, piece, 0, 1, &mut moves);
    slide_dir(board, piece, 0, -1, &mut moves);
    proof {
        assert forall|k: int| 0 <= k < moves@.len() implies move_fields_ok(
            b,
            p,
            #[trigger] moves@[k],
        ) by {
            let m = moves@[k];
            lemma_rook_reach(b, fxi, fyi, m.to.x as int, m.to.y as int);
        }
        assert forall|tx: int, ty: int| piece_dest(b, p, tx, ty) implies #[trigger] list_has_dest(
            moves@,
            tx,
            ty,
        ) by {
            lemma_rook_reach(b, fxi, fyi, tx, ty);
        }
    }
    moves
}

/// The bishop's moves: walks along the four diagonal rays.
pub(crate) fn valid_moves_bishop(board: &Board, piece: &Piece) -> (r: Vec<Move>)
    requires
        board_wf(board_view(board@)),
        piece@.position.x < 8,
        piece@.position.y < 8,
        piece@.piece_type == PieceType::Bishop,
    ensures
        gen_ok(board_view(board@), piece@, r@),
{
    let ghost b = board_view(board@);
    let ghost p = piece@;
    let ghost fxi = piece@.position.x as int;
    let ghost fyi = piece@.position.y as int;
    let mut moves: Vec<Move> = Vec::new();
    slide_dir(board, piece, 1, 1, &mut moves);
    slide_dir(board, piece, 1, -1, &mut moves);
    slide_dir(board, piece, -1, 1, &mut moves);
    slide_dir(board, piece, -1, -1, &mut moves);
    proof {
        assert forall|k: int| 0 <= k < moves@.len() implies move_fields_ok(
            b,
            p,
            #[trigger] moves@[k],
        ) by {
            let m = moves@[k];
            lemma_bishop_reach(b, fxi, fyi, m.to.x as int, m.to.y as int);
        }
        assert forall|tx: int, ty: int| piece_dest(b, p, tx, ty) implies #[trigger] list_has_dest(
            moves@,
            tx,
            ty,
        ) by {
            lemma_bishop_reach(b, fxi, fyi, tx, ty);
        }
    }
    moves
}

/// The queen's moves: walks along all eight rays.
pub(crate) fn valid_moves_queen(board: &Board, piece: &Piece) -> (r: Vec<Move>)
    requires
        board_wf(board_view(board@)),
        piece@.position.x < 8,
        piece@.position.y < 8,
        piece@.piece_type == PieceType::Queen,
    ensures
        gen_ok(board_view(board@), piece@, r@),
{
    let ghost b = board_view(board@);
    let ghost p = piece@;
    let ghost fxi = piece@.position.x as int;
    let ghost fyi = piece@.position.y as int;
    let mut moves: Vec<Move> = Vec::new();
    slide_dir(board, piece, 1, 0, &mut moves);
    slide_dir(board, piece, -1, 0, &mut moves);
    slide_dir(board, piece, 0, 1, &mut moves);
    slide_dir(board, piece, 0, -1, &mut moves);
    slide_dir(board, piece, 1, 1, &mut moves);
    slide_dir(board, piece, 1, -1, &mut moves);
    slide_dir(board, piece, -1, 1, &mut moves);
    slide_dir(board, piece, -1, -1, &mut moves);
    proof {
        assert forall|k: int| 0 <= k < moves@.len() implies move_fields_ok(
            b,
            p,
            #[trigger] moves@[k],
        ) by {
            let m = moves@[k];
            lemma_rook_reach(b, fxi, fyi, m.to.x as int, m.to.y as int);
            lemma_bishop_reach(b, fxi, fyi, m.to.x as int, m.to.y as int);
        }
        assert forall|tx: int, ty: int| piece_dest(b, p, tx, ty) implies #[trigger] list_has_dest(
            moves@,
            tx,
            ty,
        ) by {
            lemma_rook_reach(b, fxi, fyi, tx, ty);
            lemma_bishop_reach(b, fxi, fyi, tx, ty);
        }
    }
    moves
}

/// The knight's moves: the eight jumps.
pub(crate) fn valid_moves_knight(board: &Board, piece: &Piece) -> (r: Vec<Move>)
    requires
        board_wf(board_view(board@)),
        piece@.position.x < 8,
        piece@.position.y < 8,
        piece@.piece_type == PieceType::Knight,
    ensures
        gen_ok(board_view(board@), piece@, r@),
{
    let mut moves: Vec<Move> = Vec::new();
    try_step(board, piece, 2, 1, &mut moves);
    try_step(board, piece, 1, 2, &mut moves);
    try_step(board, piece, -1, 2, &mut moves);
    try_step(board, piece, -2, 1, &mut moves);
    try_step(board, piece, -2, -1, &mut moves);
    try_step(board, piece, -1, -2, &mut moves);
    try_step(board, piece, 1, -2, &mut moves);
    try_step(board, piece, 2, -1, &mut moves);
    moves
}

/// The fields a castling candidate move must carry.
pub open spec fn castle_move_ok(b: BoardV, p: PieceV, m: Move) -> bool {
    &&& m.piece@ == p
    &&& m.from == p.position
    &&& castle_dest(b, p, m.to.x as int, m.to.y as int)
    &&& m.take_piece == false
}

/// Appends the castling candidate destinations for a king standing on
/// its home square: the corner of each ready rook with a clear lane.
fn valid_castling_moves(board: &Board, piece: &Piece, moves: &mut Vec<Move>)
    requires
        board_wf(board_view(board@)),
        piece@.position.x < 8,
        piece@.position.y < 8,
        piece@.piece_type == PieceType::King,
    ensures
        final(moves)@.len() >= old(moves)@.len(),
        forall|k: int| 0 <= k < old(moves)@.len() ==> final(moves)@[k] == old(moves)@[k],
        forall|tx2: int, ty2: int|
            list_has_dest(old(moves)@, tx2, ty2) ==> #[trigger] list_has_dest(
                final(moves)@,
                tx2,
                ty2,
            ),
        forall|k: int|
            old(moves)@.len() <= k < final(moves)@.len() ==> castle_move_ok(
                board_view(board@),
                piece@,
                #[trigger] final(moves)@[k],
            ),
        forall|tx: int, ty: int|
            castle_dest(board_view(board@), piece@, tx, ty) ==> #[trigger] list_has_dest(
                final(moves)@,
                tx,
                ty,
            ),
{
    let ghost b = board_view(board@);
    let ghost p = piece@;
    let row: usize = if piece.color == Color::White {
        0
    } else {
        7
    };
    if piece.position.x == 4 && piece.position.y == row {
        proof {
            assert(b[sq_ix(0, row as int)] == crate::cell_view(board@[sq_ix(0, row as int)]));
            assert(b[sq_ix(1, row as int)] == crate::cell_view(board@[sq_ix(1, row as int)]));
            assert(b[sq_ix(2, row as int)] == crate::cell_view(board@[sq_ix(2, row as int)]));
            assert(b[sq_ix(3, row as int)] == crate::cell_view(board@[sq_ix(3, row as int)]));
            assert(b[sq_ix(5, row as int)] == crate::cell_view(board@[sq_ix(5, row as int)]));
            assert(b[sq_ix(6, row as int)] == crate::cell_view(board@[sq_ix(6, row as int)]));
            assert(b[sq_ix(7, row as int)] == crate::cell_view(board@[sq_ix(7, row as int)]));
        }
        let queen_rook_ready: bool = match &board[row * 8] {
            Some(r) => r.piece_type == PieceType::Rook && r.color == piece.color
                && r.prev_positions.len() == 0,
            None => false,
        };
        if queen_rook_ready && board[row * 8 + 1].is_none() && board[row * 8 + 2].is_none()
            && board[row * 8 + 3].is_none() {
            moves.push(
                Move {
                    piece: clone_piece(piece),
                    from: piece.position,
                    to: Position { x: 0, y: row },
                    take_piece: false,
                },
            );
            proof {
                let ms = moves@;
                assert(ms[ms.len() - 1].to.x == 0);
                assert(list_has_dest(ms, 0, row as int));
            }
        }
        let king_rook_ready: bool = match &board[row * 8 + 7] {
            Some(r) => r.piece_type == PieceType::Rook && r.color == piece.color
                && r.prev_positions.len() == 0,
            None => false,
        };
        if king_rook_ready && board[row * 8 + 5].is_none() && board[row * 8 + 6].is_none() {
            let ghost pre = moves@;
            moves.push(
                Move {
                    piece: clone_piece(piece),
                    from: piece.position,
                    to: Position { x: 7, y: row },
                    take_piece: false,
                },
            );
            proof {
                let ms = moves@;
                assert(ms[ms.len() - 1].to.x == 7);
                assert(list_has_dest(ms, 7, row as int));
                assert forall|tx2: int, ty2: int|
                    list_has_dest(pre, tx2, ty2) implies #[trigger] list_has_dest(
                    moves@,
                    tx2,
                    ty2,
                ) by {
                    lemma_has_dest_push(pre, moves@, tx2, ty2);
                }
            }
        }
    }
    proof {
        assert forall|tx2: int, ty2: int|
            list_has_dest(old(moves)@, tx2, ty2) implies #[trigger] list_has_dest(
            moves@,
            tx2,
            ty2,
        ) by {
            lemma_has_dest_push(old(moves)@, moves@, tx2, ty2);
        }
    }
}

/// The king's moves: the eight steps, and the castling candidates.
pub(crate) fn valid_moves_king(board: &Board, piece: &Piece) -> (r: Vec<Move>)
    requires
        board_wf(board_view(board@)),
        piece@.position.x < 8,
        piece@.position.y < 8,
        piece@.piece_type == PieceType::King,
    ensures
        gen_ok(board_view(board@), piece@, r@),
{
    let mut moves: Vec<Move> = Vec::new();
    try_step(board, piece, 1, 0, &mut moves);
    try_step(board, piece, 0, 1, &mut moves);
    try_step(board, piece, -1, 0, &mut moves);
    try_step(board, piece, 0, -1, &mut moves);
    try_step(board, piece, 1, 1, &mut moves);
    try_step(board, piece, 1, -1, &mut moves);
    try_step(board, piece, -1, 1, &mut moves);
    try_step(board, piece, -1, -1, &mut moves);
    valid_castling_moves(board, piece, &mut moves);
    moves
}

/// The pawn's moves: pushes, captures, and en passant.
pub(crate) fn valid_moves_pawn(board: &Board, piece: &Piece) -> (r: Vec<Move>)
    requires
        board_wf(board_view(board@)),
        piece@.position.x < 8,
        piece@.position.y < 8,
        piece@.piece_type == PieceType::Pawn,
    ensures
        gen_ok(board_view(board@), piece@, r@),
{
    let ghost b = board_view(board@);
    let ghost p = piece@;
    let mut moves: Vec<Move> = Vec::new();
    let d: i8 = if piece.color == Color::White {
        1
    } else {
        -1
    };
    let fx = piece.position.x;
    let fy = piece.position.y;
    let tyi: i8 = fy as i8 + d;
    // Double push from the start rank, both squares empty.
    let start: bool = (piece.color == Color::White && fy == 1) || (piece.color == Color::Black
        && fy == 6);
    if start {
        let my = (fy as i8 + d) as usize;
        let ty2 = (fy as i8 + 2 * d) as usize;
        proof {
            assert(b[sq_ix(fx as int, my as int)] == crate::cell_view(
                board@[sq_ix(fx as int, my as int)],
            ));
            assert(b[sq_ix(fx as int, ty2 as int)] == crate::cell_view(
                board@[sq_ix(fx as int, ty2 as int)],
            ));
        }
        if board[my * 8 + fx].is_none() && board[ty2 * 8 + fx].is_none() {
            moves.push(
                Move {
                    piece: clone_piece(piece),
                    from: piece.position,
                    to: Position { x: fx, y: ty2 },
                    take_piece: false,
                },
            );
            proof {
                assert(moves@[moves@.len() - 1].to.x == fx);
                assert(list_has_dest(moves@, fx as int, ty2 as int));
            }
        }
    }
    if 0 <= tyi && tyi < 8 {
        let ty = tyi as usize;
        // Single push onto an empty square.
        proof {
            assert(b[sq_ix(fx as int, ty as int)] == crate::cell_view(
                board@[sq_ix(fx as int, ty as int)],
            ));
        }
        if board[ty * 8 + fx].is_none() {
            let ghost pre = moves@;
            moves.push(
                Move {
                    piece: clone_piece(piece),
                    from: piece.position,
                    to: Position { x: fx, y: ty },
                    take_piece: false,
                },
            );
            proof {
                assert(moves@[moves@.len() - 1].to.x == fx);
                assert(list_has_dest(moves@, fx as int, ty as int));
                lemma_keeps_all(pre, moves@);
            }
        }
        // Diagonal captures, and en passant beside a just-advanced pawn.
        let mut side: usize = 0;
        while side < 2
            invariant
                board_wf(b),
                b == board_view(board@),
                p == piece@,
                p.piece_type == PieceType::Pawn,
                p.position.x == fx,
                p.position.y == fy,
                fx < 8,
                fy < 8,
                d as int == p.color.spec_dir(),
                tyi as int == fy + d as int,
                0 <= tyi < 8,
                ty == tyi as usize,
                side <= 2,
                forall|k: int|
                    0 <= k < moves@.len() ==> move_fields_ok(b, p, #[trigger] moves@[k]),
                forall|tx2: int, ty2: int|
                    (pawn_side_done(b, p, side as int, tx2, ty2) && on_board(tx2, ty2)
                        && pawn_dest(b, p, tx2, ty2)) ==> #[trigger] list_has_dest(
                        moves@,
                        tx2,
                        ty2,
                    ),
            decreases 2 - side,
        {
            let dxs: i8 = if side == 0 {
                -1
            } else {
                1
            };
            let txi: i8 = fx as i8 + dxs;
            if 0 <= txi && txi < 8 {
                let tx = txi as usize;
                let ti = ty * 8 + tx;
                proof {
                    assert(b[sq_ix(tx as int, ty as int)] == crate::cell_view(board@[ti as int]));
                    assert(b[sq_ix(tx as int, fy as int)] == crate::cell_view(
                        board@[sq_ix(tx as int, fy as int)],
                    ));
                }
                let can_capture: bool = match &board[ti] {
                    Some(q) => q.color != piece.color,
                    None => false,
                };
                if can_capture {
                    let ghost pre = moves@;
                    moves.push(
                        Move {
                            piece: clone_piece(piece),
                            from: piece.position,
                            to: Position { x: tx, y: ty },
                            take_piece: true,
                        },
                    );
                    proof {
                        assert(moves@[moves@.len() - 1].to.x == tx);
                        assert(list_has_dest(moves@, tx as int, ty as int));
                        lemma_keeps_all(pre, moves@);
                    }
                }
                let beside: bool = match &board[fy * 8 + tx] {
                    Some(q) => {
                        let two_step: bool = if q.prev_positions.len() == 1 {
                            let p0 = q.prev_positions[0];
                            (p0.y >= 2 && p0.y - 2 == q.position.y) || (q.position.y >= 2
                                && q.position.y - 2 == p0.y)
                        } else {
                            false
                        };
                        q.color != piece.color && q.piece_type == PieceType::Pawn && two_step
                    },
                    None => false,
                };
                if beside && board[ti].is_none() {
                    let ghost pre = moves@;
                    moves.push(
                        Move {
                            piece: clone_piece(piece),
                            from: piece.position,
                            to: Position { x: tx, y: ty },
                            take_piece: false,
                        },
                    );
                    proof {
                        assert(moves@[moves@.len() - 1].to.x == tx);
                        assert(list_has_dest(moves@, tx as int, ty as int));
                        lemma_keeps_all(pre, moves@);
                    }
                }
            }
            side = side + 1;
        }
    }
    proof {
        assert forall|tx: int, ty2: int| piece_dest(b, p, tx, ty2) implies #[trigger] list_has_dest(
            moves@,
            tx,
            ty2,
        ) by {
            assert(on_board(tx, ty2));
            assert(pawn_dest(b, p, tx, ty2));
            assert(tx == p.position.x - 1 || tx == p.position.x || tx == p.position.x + 1);
        }
    }
    moves
}

/// Which diagonal sides the pawn walk has already handled: after `side`
/// rounds, destinations left of the pawn are handled from round one on,
/// those to its right after round two; the straight pushes are always
/// handled.
pub open spec fn pawn_side_done(b: BoardV, p: PieceV, side: int, tx: int, ty: int) -> bool {
    tx == p.position.x || (tx == p.position.x - 1 && side >= 1) || (tx == p.position.x + 1 && side
        >= 2)
}

/// Every destination in the old list is kept when the list only grows.
pub(crate) proof fn lemma_keeps_all(ms0: Seq<Move>, ms1: Seq<Move>)
    requires
        ms1.len() >= ms0.len(),
        forall|k: int| 0 <= k < ms0.len() ==> ms1[k] == ms0[k],
    ensures
        forall|tx: int, ty: int|
            list_has_dest(ms0, tx, ty) ==> #[trigger] list_has_dest(ms1, tx, ty),
{
    assert forall|tx: int, ty: int|
        list_has_dest(ms0, tx, ty) implies #[trigger] list_has_dest(ms1, tx, ty) by {
        lemma_has_dest_push(ms0, ms1, tx, ty);
    }
}

/// The pseudo-legal moves of every piece on the board: 64 lists, one per
/// square, empty for the empty squares.
pub fn generate_moves(board: &Board) -> (r: Vec<Vec<Move>>)
    requires
        board_wf(board_view(board@)),
    ensures
        move_map_ok(board_view(board@), r@),
{
    let ghost b = board_view(board@);
    let mut r: Vec<Vec<Move>> = Vec::new();
    let mut i: usize = 0;
    while i < 64
        invariant
            board_wf(b),
            b == board_view(board@),
            i <= 64,
            r@.len() == i,
            forall|j: int| 0 <= j < i ==> move_list_ok(b, j, (#[trigger] r@[j])@),
        decreases 64 - i,
    {
        proof {
            assert(b[i as int] == crate::cell_view(board@[i as int]));
            assert(crate::model::cell_wf(b, i as int));
        }
        let ms: Vec<Move> = match &board[i] {
            Some(piece) => {
                match piece.piece_type {
                    PieceType::King => valid_moves_king(board, piece),
                    PieceType::Queen => valid_moves_queen(board, piece),
                    PieceType::Rook => valid_moves_rook(board, piece),
                    PieceType::Bishop => valid_moves_bishop(board, piece),
                    PieceType::Knight => valid_moves_knight(board, piece),
                    PieceType::Pawn => valid_moves_pawn(board, piece),
                }
            },
            None => Vec::new(),
        };
        r.push(ms);
        i = i + 1;
    }
    r
}

} // verus!
