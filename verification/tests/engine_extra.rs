use chess::Chess;
use chess::Color;
use chess::DrawType;
use chess::PieceType;
use chess::Position;
use chess::Status;
use chess::ValidationResult;

#[test]
fn default_board_piece_counts() {
    let chess = Chess::new();
    let pawns = chess
        .board
        .iter()
        .filter(|p| matches!(p, Some(piece) if piece.piece_type == PieceType::Pawn))
        .count();
    let pieces = chess.board.iter().filter(|p| p.is_some()).count();
    assert_eq!(pawns, 16);
    assert_eq!(pieces, 32);
    assert_eq!(chess.status, Status::Chilling);
    assert_eq!(chess.winner, None);
}

#[test]
fn from_fen_ignores_trailing_fields() {
    let chess = Chess::from_fen("rnbqkbnr/pppppppp/8/8/8/8/PPPPPPPP/RNBQKBNR w KQkq - 0 1");
    assert!(chess.is_ok());
    let chess = chess.unwrap();
    assert_eq!(chess.turn, Color::White);
    assert_eq!(chess.status, Status::Chilling);
}

#[test]
fn from_fen_error_reasons() {
    assert!(matches!(Chess::from_fen(""), Err("No board")));
    assert!(matches!(Chess::from_fen("   "), Err("No board")));
    assert!(matches!(Chess::from_fen("k7/8/8/8/8/8/8/x7 w"), Err("Invalid board")));
    // too few rows
    assert!(matches!(Chess::from_fen("k7/8/8/8/8/8/8 w"), Err("Invalid board")));
    // a short row
    assert!(matches!(Chess::from_fen("k6/8/8/8/8/8/8/8 w"), Err("Invalid board")));
    assert!(matches!(Chess::from_fen("k7/8/8/8/8/8/8/8"), Err("No turn")));
    assert!(matches!(Chess::from_fen("k7/8/8/8/8/8/8/8 white"), Err("Invalid turn")));
    assert!(Chess::from_fen("k7/8/8/8/8/8/8/8 b").is_ok());
}

#[test]
fn position_round_trips() {
    let p = Position::from_str("e2");
    assert_eq!(p, Position { x: 4, y: 1 });
    assert_eq!(p.to_str(), "e2");
    assert_eq!(p.to_index(), 12);
    assert_eq!(Position::from_index(12), p);
    assert_eq!(Position::from_str("A8"), Position { x: 0, y: 7 });
    assert_eq!(Position::from_str("h1").to_index(), 7);
    assert_eq!(Position::from_index(63).to_str(), "h8");
}

#[test]
fn invalid_position_results() {
    let chess = Chess::from_fen("k7/8/8/8/8/8/8/K7 w").unwrap();
    // empty origin square
    assert_eq!(
        chess.validate_move(Position { x: 4, y: 4 }, Position { x: 4, y: 5 }),
        ValidationResult::InvalidPosition
    );
    // origin off the board
    assert_eq!(
        chess.validate_move(Position { x: 9, y: 0 }, Position { x: 0, y: 1 }),
        ValidationResult::InvalidPosition
    );
    // destination off the board
    assert_eq!(
        chess.validate_move(Position { x: 0, y: 0 }, Position { x: 0, y: 8 }),
        ValidationResult::InvalidPosition
    );
}

#[test]
fn validate_move_does_not_mutate() {
    let chess = Chess::from_fen("k7/8/8/8/8/8/8/1R6 w").unwrap();
    let res = chess.validate_move(Position::from_str("b1"), Position::from_str("a1"));
    assert_eq!(res, ValidationResult::Valid(Status::Check(Color::Black)));
    // the rook has not moved and it is still White's turn
    assert!(chess.board[1].is_some());
    assert!(chess.board[0].is_none());
    assert_eq!(chess.turn, Color::White);
    assert_eq!(chess.status, Status::Chilling);
}

#[test]
fn promotion_rejects_king_and_pawn() {
    let mut chess = Chess::from_fen("7k/P7/8/8/8/8/8/P6K w").unwrap();
    chess.move_piece(Position::from_str("a7"), Position::from_str("a8"));
    assert_eq!(chess.status, Status::AwaitingPromotion);
    assert_eq!(chess.promote_piece(PieceType::King), None);
    assert_eq!(chess.promote_piece(PieceType::Pawn), None);
    assert_eq!(chess.status, Status::AwaitingPromotion);
    // moves are refused while the promotion is pending
    let res = chess.move_piece(Position::from_str("a1"), Position::from_str("a2"));
    assert_eq!(res, ValidationResult::InvalidTurn);
    assert_eq!(chess.promote_piece(PieceType::Knight), Some(Status::Chilling));
}

#[test]
fn premature_promotion_is_refused() {
    let mut chess = Chess::new();
    assert_eq!(chess.promote_piece(PieceType::Queen), None);
    assert_eq!(chess.status, Status::Chilling);
}

#[test]
fn threefold_rule_reports_without_recording() {
    let mut chess = Chess::from_fen("k7/8/8/8/8/8/8/K7 w").unwrap();
    // the starting position was recorded once at construction
    assert_eq!(chess.threefold_rule(false), Status::Chilling);
    // record it twice more by hand: the third occurrence is the draw
    chess.threefold_rule(true);
    assert_eq!(chess.threefold_rule(true), Status::Draw(DrawType::ThreefoldRepetition));
}

#[test]
fn legal_moves_never_leave_own_king_attacked() {
    // the white king is pinned to the first rank by the rook on a4
    let chess = Chess::from_fen("k7/8/8/8/r7/8/7r/K7 w").unwrap();
    let mut boards_tried: usize = 0;
    let moves = chess.generate_valid_moves();
    for list in moves.iter() {
        for m in list.iter() {
            let mut replay = Chess::from_fen("k7/8/8/8/r7/8/7r/K7 w").unwrap();
            let res = replay.move_piece(m.from, m.to);
            assert!(matches!(res, ValidationResult::Valid(_)));
            assert_ne!(replay.is_check(), Some(Color::White));
            boards_tried += 1;
        }
    }
    assert_eq!(boards_tried, 1);
}

#[test]
fn is_check_reports_the_attacked_side() {
    let chess = Chess::from_fen("k7/8/8/8/8/8/8/QR6 w").unwrap();
    assert_eq!(chess.is_check(), Some(Color::Black));
    let chess = Chess::from_fen("k7/8/8/8/8/8/8/K7 w").unwrap();
    assert_eq!(chess.is_check(), None);
}

#[test]
fn black_en_passant_capture_works_both_ways() {
    // White double-pushes beside a black pawn; Black captures en passant
    let mut chess = Chess::from_fen("k7/8/8/8/2p5/8/3P4/K7 w").unwrap();
    let res = chess.move_piece(Position::from_str("d2"), Position::from_str("d4"));
    assert!(matches!(res, ValidationResult::Valid(_)));
    let res = chess.move_piece(Position::from_str("c4"), Position::from_str("d3"));
    assert!(matches!(res, ValidationResult::Valid(_)));
    // the white pawn that passed is gone from d4
    assert!(chess.board[3 * 8 + 3].is_none());
    // and the black pawn stands on d3
    let p = chess.board[2 * 8 + 3].as_ref().unwrap();
    assert_eq!(p.piece_type, PieceType::Pawn);
    assert_eq!(p.color, Color::Black);
}

#[test]
fn knight_in_the_middle_has_eight_moves() {
    let chess = Chess::from_fen("k7/8/8/8/4N3/8/8/K7 w").unwrap();
    let moves = chess.generate_valid_moves();
    assert_eq!(moves[3 * 8 + 4].len(), 8);
}

#[test]
fn blocked_double_push_is_refused() {
    // a piece on a3 blocks the double push from a2
    let mut chess = Chess::from_fen("k7/8/8/8/8/n7/P7/K7 w").unwrap();
    let res = chess.move_piece(Position::from_str("a2"), Position::from_str("a4"));
    assert_eq!(res, ValidationResult::InvalidMove);
}
