//! The mathematical model of the rules: which destinations a piece may
//! reach ignoring self-check, how a move transforms a board, when a king
//! is attacked, and how a position is classified. The executable code in
//! the other modules is proved to agree with these definitions.

use vstd::prelude::*;

use crate::BoardV;
use crate::CastlingType;
use crate::Color;
use crate::Move;
use crate::MoveType;
use crate::PieceType;
use crate::PieceV;
use crate::Position;
use crate::Status;
use crate::DrawType;

verus! {

/// Both coordinates lie on the board.
pub open spec fn on_board(x: int, y: int) -> bool {
    0 <= x < 8 && 0 <= y < 8
}

/// The board index of the square at file `x`, rank `y`.
pub open spec fn sq_ix(x: int, y: int) -> int {
    y * 8 + x
}

/// A cell is either empty or holds a piece standing on that very square.
pub open spec fn cell_wf(b: BoardV, i: int) -> bool {
    b[i] matches Some(p) ==> p.position.x < 8 && p.position.y < 8 && p.position.spec_index()
        == i
}

/// A well-formed board: 64 cells, each piece on its own square.
pub open spec fn board_wf(b: BoardV) -> bool {
    b.len() == 64 && forall|i: int| 0 <= i < 64 ==> cell_wf(b, i)
}

/// The square at `(x, y)` is empty.
pub open spec fn empty_at(b: BoardV, x: int, y: int) -> bool {
    b[sq_ix(x, y)] is None
}

/// The square at `(x, y)` holds a piece.
pub open spec fn occupied(b: BoardV, x: int, y: int) -> bool {
    b[sq_ix(x, y)] is Some
}

/// The square at `(x, y)` holds a piece of color `c`.
pub open spec fn friendly_at(b: BoardV, c: Color, x: int, y: int) -> bool {
    b[sq_ix(x, y)] matches Some(p) && p.color == c
}

/// The square at `(x, y)` holds a piece of the other color.
pub open spec fn enemy_at(b: BoardV, c: Color, x: int, y: int) -> bool {
    b[sq_ix(x, y)] matches Some(p) && p.color != c
}

/// One king step: to an adjacent square.
pub open spec fn king_step(fx: int, fy: int, tx: int, ty: int) -> bool {
    !(tx == fx && ty == fy) && -1 <= tx - fx <= 1 && -1 <= ty - fy <= 1
}

/// One knight jump.
pub open spec fn knight_jump(fx: int, fy: int, tx: int, ty: int) -> bool {
    ||| (tx == fx + 2 && ty == fy + 1)
    ||| (tx == fx + 1 && ty == fy + 2)
    ||| (tx == fx - 1 && ty == fy + 2)
    ||| (tx == fx - 2 && ty == fy + 1)
    ||| (tx == fx - 2 && ty == fy - 1)
    ||| (tx == fx - 1 && ty == fy - 2)
    ||| (tx == fx + 1 && ty == fy - 2)
    ||| (tx == fx + 2 && ty == fy - 1)
}

/// `m` lies strictly between `a` and `b`.
pub open spec fn strictly_between(a: int, m: int, b: int) -> bool {
    (a < m && m < b) || (b < m && m < a)
}

/// A rook's line from `(fx, fy)` to `(tx, ty)`: same rank or same file,
/// with every square strictly between them empty.
pub open spec fn rook_path_clear(b: BoardV, fx: int, fy: int, tx: int, ty: int) -> bool {
    ||| (ty == fy && tx != fx && forall|u: int|
        strictly_between(fx, u, tx) ==> empty_at(b, u, fy))
    ||| (tx == fx && ty != fy && forall|v: int|
        strictly_between(fy, v, ty) ==> empty_at(b, fx, v))
}

/// A bishop's diagonal from `(fx, fy)` to `(tx, ty)`, with every square
/// strictly between them empty.
pub open spec fn bishop_path_clear(b: BoardV, fx: int, fy: int, tx: int, ty: int) -> bool {
    tx != fx && {
        ||| (ty - fy == tx - fx && forall|u: int|
            strictly_between(fx, u, tx) ==> empty_at(b, u, fy + (u - fx)))
        ||| (ty - fy == fx - tx && forall|u: int|
            strictly_between(fx, u, tx) ==> empty_at(b, u, fy - (u - fx)))
    }
}

/// The rank a side's pawns start on.
pub open spec fn start_rank(c: Color) -> int {
    match c {
        Color::White => 1,
        Color::Black => 6,
    }
}

/// The farthest rank, where a side's pawns promote.
pub open spec fn promo_rank(c: Color) -> int {
    match c {
        Color::White => 7,
        Color::Black => 0,
    }
}

/// The rank a side's king and rooks start on.
pub open spec fn home_rank(c: Color) -> int {
    match c {
        Color::White => 0,
        Color::Black => 7,
    }
}

/// An enemy pawn beside `(x, y)` whose whole history is one two-square
/// advance, so that it may be captured en passant.
pub open spec fn ep_victim(b: BoardV, c: Color, x: int, y: int) -> bool {
    b[sq_ix(x, y)] matches Some(v) && v.color != c && v.piece_type == PieceType::Pawn
        && v.prev_positions.len() == 1 && (v.prev_positions[0].y == v.position.y + 2
        || v.prev_positions[0].y + 2 == v.position.y)
}

/// A pawn's destinations: single push, double push from the start rank,
/// diagonal capture, or en passant onto the empty square behind a pawn
/// that has just advanced two squares.
pub open spec fn pawn_dest(b: BoardV, p: PieceV, tx: int, ty: int) -> bool {
    let fx = p.position.x as int;
    let fy = p.position.y as int;
    let d = p.color.spec_dir();
    ||| (tx == fx && ty == fy + d && empty_at(b, tx, ty))
    ||| (tx == fx && fy == start_rank(p.color) && ty == fy + 2 * d && empty_at(b, fx, fy + d)
        && empty_at(b, tx, ty))
    ||| ((tx == fx + 1 || tx == fx - 1) && ty == fy + d && enemy_at(b, p.color, tx, ty))
    ||| ((tx == fx + 1 || tx == fx - 1) && ty == fy + d && empty_at(b, tx, ty) && ep_victim(
        b,
        p.color,
        tx,
        fy,
    ))
}

/// A never-moved rook of color `c` stands on its home corner.
pub open spec fn rook_home_ready(b: BoardV, c: Color, kingside: bool) -> bool {
    b[sq_ix(if kingside { 7 } else { 0 }, home_rank(c))] matches Some(r)
        && r.piece_type == PieceType::Rook && r.color == c && r.prev_positions.len() == 0
}

/// The corner rook is ready and every square strictly between king and
/// rook is empty.
pub open spec fn castle_lane_ok(b: BoardV, c: Color, kingside: bool) -> bool {
    let row = home_rank(c);
    rook_home_ready(b, c, kingside) && if kingside {
        empty_at(b, 5, row) && empty_at(b, 6, row)
    } else {
        empty_at(b, 1, row) && empty_at(b, 2, row) && empty_at(b, 3, row)
    }
}

/// A castling candidate destination for a king standing on its home
/// square: the corner of the ready rook.
pub open spec fn castle_dest(b: BoardV, p: PieceV, tx: int, ty: int) -> bool {
    let row = home_rank(p.color);
    p.position.x == 4 && p.position.y == row && ty == row && ((tx == 0 && castle_lane_ok(
        b,
        p.color,
        false,
    )) || (tx == 7 && castle_lane_ok(b, p.color, true)))
}

/// Every destination the piece `p` may reach on board `b`, ignoring
/// whether the move leaves its own king attacked.
pub open spec fn piece_dest(b: BoardV, p: PieceV, tx: int, ty: int) -> bool {
    let fx = p.position.x as int;
    let fy = p.position.y as int;
    on_board(tx, ty) && match p.piece_type {
        PieceType::King => (king_step(fx, fy, tx, ty) && !friendly_at(b, p.color, tx, ty))
            || castle_dest(b, p, tx, ty),
        PieceType::Queen => (rook_path_clear(b, fx, fy, tx, ty) || bishop_path_clear(
            b,
            fx,
            fy,
            tx,
            ty,
        )) && !friendly_at(b, p.color, tx, ty),
        PieceType::Rook => rook_path_clear(b, fx, fy, tx, ty) && !friendly_at(b, p.color, tx, ty),
        PieceType::Bishop => bishop_path_clear(b, fx, fy, tx, ty) && !friendly_at(
            b,
            p.color,
            tx,
            ty,
        ),
        PieceType::Knight => knight_jump(fx, fy, tx, ty) && !friendly_at(b, p.color, tx, ty),
        PieceType::Pawn => pawn_dest(b, p, tx, ty),
    }
}

/// Whether the move to `(tx, ty)` takes the piece standing there. A
/// castling candidate stands on its own rook and takes nothing.
pub open spec fn dest_takes(b: BoardV, p: PieceV, tx: int, ty: int) -> bool {
    occupied(b, tx, ty) && !(p.piece_type == PieceType::King && castle_dest(b, p, tx, ty))
}

/// Every field of a recorded move is right: it snapshots the piece, it
/// starts on the piece's square, its destination is one the piece may
/// reach, and its capture flag tells whether the destination piece is
/// taken.
pub open spec fn move_fields_ok(b: BoardV, p: PieceV, m: Move) -> bool {
    &&& m.piece@ == p
    &&& m.from == p.position
    &&& piece_dest(b, p, m.to.x as int, m.to.y as int)
    &&& m.take_piece == dest_takes(b, p, m.to.x as int, m.to.y as int)
}

/// The list holds a move whose destination is `(tx, ty)`.
pub open spec fn list_has_dest(ms: Seq<Move>, tx: int, ty: int) -> bool {
    exists|k: int|
        0 <= k < ms.len() && (#[trigger] ms[k]).to.x == tx && ms[k].to.y == ty
}

/// A generated move list for the piece `p`: sound (every recorded move
/// well-formed and reachable) and complete (every reachable destination
/// recorded).
pub open spec fn gen_ok(b: BoardV, p: PieceV, ms: Seq<Move>) -> bool {
    &&& forall|k: int| 0 <= k < ms.len() ==> move_fields_ok(b, p, #[trigger] ms[k])
    &&& forall|tx: int, ty: int| piece_dest(b, p, tx, ty) ==> #[trigger] list_has_dest(ms, tx, ty)
}

/// The move list of one origin square is correct: empty for an empty
/// square, else sound and complete for the piece standing there.
pub open spec fn move_list_ok(b: BoardV, i: int, ms: Seq<Move>) -> bool {
    &&& (b[i] is None ==> ms.len() == 0)
    &&& (b[i] matches Some(p) ==> gen_ok(b, p, ms))
}

/// All 64 move lists are correct for board `b`.
pub open spec fn move_map_ok(b: BoardV, mm: Seq<Vec<Move>>) -> bool {
    mm.len() == 64 && forall|i: int| 0 <= i < 64 ==> move_list_ok(b, i, (#[trigger] mm[i])@)
}

/// The coordinate `k` steps from `a` along direction `d`, for the unit
/// directions used by the sliding pieces.
pub open spec fn shift(a: int, d: int, k: int) -> int {
    if d == 1 {
        a + k
    } else if d == -1 {
        a - k
    } else {
        a
    }
}

/// The destination lies `k` steps along the ray.
pub open spec fn ray_hit(fx: int, fy: int, dx: int, dy: int, k: int, tx: int, ty: int) -> bool {
    tx == shift(fx, dx, k) && ty == shift(fy, dy, k)
}

/// The square `(tx, ty)` can be reached from `(fx, fy)` by walking along
/// the ray `(dx, dy)`: it lies some number of steps out, on the board,
/// with every square strictly before it empty.
pub open spec fn dir_reach(b: BoardV, fx: int, fy: int, dx: int, dy: int, tx: int, ty: int) -> bool {
    exists|k: int|
        1 <= k < 8 && #[trigger] ray_hit(fx, fy, dx, dy, k, tx, ty) && on_board(tx, ty) && (forall|
            j: int,
        |
            1 <= j < k ==> empty_at(b, shift(fx, dx, j), shift(fy, dy, j)))
}

/// How a move from `from` to `to` on board `b` is applied.
pub open spec fn classify_move(b: BoardV, from: Position, to: Position) -> MoveType {
    match b[from.spec_index()] {
        Some(p) => {
            let dx = from.x - to.x;
            if p.piece_type == PieceType::King && (dx == 3 || dx == -3 || dx == 4 || dx == -4)
                && to.x == 0 {
                MoveType::Castling(CastlingType::QueenSide(p.color))
            } else if p.piece_type == PieceType::King && (dx == 3 || dx == -3 || dx == 4 || dx
                == -4) && to.x == 7 {
                MoveType::Castling(CastlingType::KingSide(p.color))
            } else if p.piece_type == PieceType::Pawn && (dx == 1 || dx == -1) && b[to.spec_index()]
                is None {
                MoveType::EnPassant
            } else if p.piece_type == PieceType::Pawn && to.y == promo_rank(p.color) {
                MoveType::Promotion
            } else {
                MoveType::Normal
            }
        },
        None => MoveType::Normal,
    }
}

/// The piece `p` moved to `to`, its old square pushed onto its history.
pub open spec fn moved_piece(p: PieceV, to: Position) -> PieceV {
    PieceV {
        piece_type: p.piece_type,
        color: p.color,
        position: to,
        prev_positions: p.prev_positions.push(p.position),
    }
}

/// A plain move: the piece leaves `from` and lands on `to`.
pub open spec fn apply_normal_v(b: BoardV, from: Position, to: Position) -> BoardV {
    let p = b[from.spec_index()]->0;
    b.update(to.spec_index(), Some(moved_piece(p, to))).update(from.spec_index(), None)
}

/// The square of the pawn removed by an en passant capture: directly
/// behind the destination, from the mover's point of view.
pub open spec fn ep_victim_ix(to: Position, c: Color) -> int {
    to.spec_index() - 8 * c.spec_dir()
}

/// An en passant capture: the plain move, then the passed pawn is removed.
pub open spec fn apply_ep_v(b: BoardV, from: Position, to: Position, c: Color) -> BoardV {
    apply_normal_v(b, from, to).update(ep_victim_ix(to, c), None)
}

/// The file the king lands on when castling.
pub open spec fn castle_king_to_x(kingside: bool) -> int {
    if kingside { 6 } else { 2 }
}

/// The file the rook lands on when castling.
pub open spec fn castle_rook_to_x(kingside: bool) -> int {
    if kingside { 5 } else { 3 }
}

/// Which wing a castling type is on.
pub open spec fn castle_is_kingside(t: CastlingType) -> bool {
    t matches CastlingType::KingSide(_)
}

/// The color castling.
pub open spec fn castle_color(t: CastlingType) -> Color {
    match t {
        CastlingType::KingSide(c) => c,
        CastlingType::QueenSide(c) => c,
    }
}

/// Pieces stand on both squares a castling move reads.
pub open spec fn castle_pieces_present(b: BoardV, t: CastlingType) -> bool {
    let row = home_rank(castle_color(t));
    let rx = if castle_is_kingside(t) { 7 } else { 0 };
    b[sq_ix(4, row)] is Some && b[sq_ix(rx, row)] is Some
}

/// Castling applied: the king moves two squares toward the corner and
/// the rook lands on the square the king crossed.
pub open spec fn apply_castle_v(b: BoardV, t: CastlingType) -> BoardV {
    let row = home_rank(castle_color(t));
    let ks = castle_is_kingside(t);
    let rx = if ks { 7 } else { 0 };
    let king = b[sq_ix(4, row)]->0;
    let rook = b[sq_ix(rx, row)]->0;
    let kto = Position { x: castle_king_to_x(ks) as usize, y: row as usize };
    let rto = Position { x: castle_rook_to_x(ks) as usize, y: row as usize };
    b.update(sq_ix(castle_king_to_x(ks), row), Some(moved_piece(king, kto))).update(
        sq_ix(4, row),
        None,
    ).update(sq_ix(castle_rook_to_x(ks), row), Some(moved_piece(rook, rto))).update(
        sq_ix(rx, row),
        None,
    )
}

/// The board after the move from `from` to `to` is applied.
pub open spec fn board_after(b: BoardV, from: Position, to: Position) -> BoardV {
    match classify_move(b, from, to) {
        MoveType::Castling(t) => apply_castle_v(b, t),
        MoveType::EnPassant => apply_ep_v(b, from, to, b[from.spec_index()]->0.color),
        _ => apply_normal_v(b, from, to),
    }
}

/// Whether applying the move removes a piece from the board: an en
/// passant capture, or a landing on an occupied square (castling lands
/// on the mover's own rook and removes nothing).
pub open spec fn move_captures(b: BoardV, from: Position, to: Position) -> bool {
    match classify_move(b, from, to) {
        MoveType::Castling(_) => false,
        MoveType::EnPassant => true,
        _ => b[to.spec_index()] is Some,
    }
}

/// The board while the castling king is in transit, `i` squares out of
/// its home file: the rook already stands on its destination square and
/// the king on its transit square, both histories extended. On the
/// first transit square of each wing the king covers the rook's square.
pub open spec fn castle_transit_board(b: BoardV, t: CastlingType, i: int) -> BoardV {
    let row = home_rank(castle_color(t));
    let ks = castle_is_kingside(t);
    let rx: int = if ks {
        7
    } else {
        0
    };
    let king = b[sq_ix(4, row)]->0;
    let rook = b[sq_ix(rx, row)]->0;
    let ktx: int = if ks {
        4 + i
    } else {
        4 - i
    };
    let rtx: int = castle_rook_to_x(ks);
    let kto = Position { x: ktx as usize, y: row as usize };
    let rto = Position { x: rtx as usize, y: row as usize };
    b.update(sq_ix(rtx, row), Some(moved_piece(rook, rto))).update(sq_ix(rx, row), None).update(
        sq_ix(ktx, row),
        Some(moved_piece(king, kto)),
    ).update(sq_ix(4, row), None)
}

/// The transit position does not put the castling side in check or end
/// the game.
pub open spec fn transit_ok(b: BoardV, turn: Color) -> bool {
    match classify_board(b, turn) {
        Status::Check(c) => c != turn,
        Status::Checkmate(c) => c != turn,
        Status::Draw(_) => false,
        _ => true,
    }
}

/// Whether a castling move may be played now: the game is ongoing and
/// it is this side's move, king and rook stand on their home squares
/// and have never moved, the squares between them are empty, and the
/// king passes through no attacked square.
pub open spec fn castle_possible(b: BoardV, status: Status, turn: Color, t: CastlingType) -> bool {
    let row = home_rank(castle_color(t));
    let ks = castle_is_kingside(t);
    let rx: int = if ks {
        7
    } else {
        0
    };
    &&& status == Status::Chilling
    &&& castle_color(t) == turn
    &&& b[sq_ix(4, row)] matches Some(k) && k.piece_type == PieceType::King && k.color == turn
        && k.prev_positions.len() == 0
    &&& b[sq_ix(rx, row)] matches Some(r) && r.piece_type == PieceType::Rook && r.color == turn
        && r.prev_positions.len() == 0
    &&& (if ks {
        empty_at(b, 5, row) && empty_at(b, 6, row)
    } else {
        empty_at(b, 1, row) && empty_at(b, 2, row) && empty_at(b, 3, row)
    })
    &&& transit_ok(castle_transit_board(b, t, 1), turn)
    &&& transit_ok(castle_transit_board(b, t, 2), turn)
}

/// Cell `i` holds a king of color `c`.
pub open spec fn king_cell(b: BoardV, i: int, c: Color) -> bool {
    b[i] matches Some(p) && p.piece_type == PieceType::King && p.color == c
}

/// Cell `i` holds the first king of color `c` in board order.
pub open spec fn is_first_king(b: BoardV, c: Color, i: int) -> bool {
    0 <= i < 64 && king_cell(b, i, c) && forall|j: int| 0 <= j < i ==> !king_cell(b, j, c)
}

/// Some cell holds a king of color `c`.
pub open spec fn has_king(b: BoardV, c: Color) -> bool {
    exists|i: int| 0 <= i < 64 && king_cell(b, i, c)
}

/// Cell `j` holds a piece of the other color that may reach `t`.
pub open spec fn attacker_at(b: BoardV, j: int, t: Position, c: Color) -> bool {
    b[j] matches Some(p) && p.color != c && piece_dest(b, p, t.x as int, t.y as int)
}

/// Some enemy piece may reach the square `t`.
pub open spec fn square_attacked(b: BoardV, t: Position, c: Color) -> bool {
    exists|j: int| 0 <= j < 64 && #[trigger] attacker_at(b, j, t, c)
}

/// The side `c` is in check: its first king's square is attacked. A side
/// with no king on the board is never in check.
pub open spec fn in_check(b: BoardV, c: Color) -> bool {
    exists|i: int| #[trigger] is_first_king(b, c, i) && square_attacked(b, b[i]->0.position, c)
}

/// Cell `i` holds a piece of color `c` that may reach `(tx, ty)`.
pub open spec fn own_move(b: BoardV, c: Color, i: int, tx: int, ty: int) -> bool {
    &&& 0 <= i < 64
    &&& b[i] matches Some(p) && p.color == c && piece_dest(b, p, tx, ty)
}

/// The side `c` has no move that frees its king: every move it may make
/// still leaves it in check.
pub open spec fn stuck(b: BoardV, c: Color) -> bool {
    forall|i: int, tx: int, ty: int| #[trigger] own_move(b, c, i, tx, ty) ==> in_check(
        board_after(b, b[i]->0.position, Position { x: tx as usize, y: ty as usize }),
        c,
    )
}

/// The classification of board `b` when it is `turn`'s move, before the
/// draw counters and pending promotions are overlaid.
pub open spec fn classify_board(b: BoardV, turn: Color) -> Status {
    if in_check(b, turn) && stuck(b, turn) {
        Status::Checkmate(turn)
    } else if in_check(b, turn.spec_not()) && stuck(b, turn.spec_not()) {
        Status::Checkmate(turn.spec_not())
    } else if in_check(b, turn) {
        Status::Check(turn)
    } else if in_check(b, turn.spec_not()) {
        Status::Check(turn.spec_not())
    } else if stuck(b, turn) {
        Status::Draw(DrawType::Stalemate)
    } else {
        Status::Chilling
    }
}

/// Cell `i` holds a pawn standing on its farthest rank.
pub open spec fn promo_cell(b: BoardV, i: int) -> bool {
    b[i] matches Some(p) && p.piece_type == PieceType::Pawn && p.position.y == promo_rank(p.color)
}

/// Cell `i` holds the first pawn awaiting promotion in board order.
pub open spec fn is_first_promo(b: BoardV, i: int) -> bool {
    0 <= i < 64 && promo_cell(b, i) && forall|j: int| 0 <= j < i ==> !promo_cell(b, j)
}

/// Some pawn stands on its farthest rank.
pub open spec fn has_promo(b: BoardV) -> bool {
    exists|i: int| 0 <= i < 64 && promo_cell(b, i)
}

/// The code a piece contributes to a position fingerprint.
pub open spec fn piece_code(p: PieceV) -> u8 {
    match p.piece_type {
        PieceType::King => if p.color == Color::White { 1u8 } else { 2u8 },
        PieceType::Queen => if p.color == Color::White { 3u8 } else { 4u8 },
        PieceType::Rook => if p.color == Color::White { 5u8 } else { 6u8 },
        PieceType::Bishop => if p.color == Color::White { 7u8 } else { 8u8 },
        PieceType::Knight => if p.color == Color::White { 9u8 } else { 10u8 },
        PieceType::Pawn => if p.color == Color::White { 11u8 } else { 12u8 },
    }
}

/// The fingerprint of a position: one code per square, empty squares 0.
/// Histories and the side to move are not part of it, so two boards have
/// the same fingerprint exactly when the same kinds and colors stand on
/// the same squares.
pub open spec fn fingerprint(b: BoardV) -> Seq<u8> {
    Seq::new(64, |i: int| match b[i] {
        Some(p) => piece_code(p),
        None => 0u8,
    })
}

} // verus!
