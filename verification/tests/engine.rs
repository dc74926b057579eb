use chess_engine::Board;
use chess_engine::Color;
use chess_engine::GameStatus;
use chess_engine::Move;
use chess_engine::Piece;
use chess_engine::PieceKind;

fn board(fen: &str) -> Board {
    Board::from_fen(fen).expect("test position parses")
}

fn lan(b: &Board, s: &str) -> Move {
    Move::from_lan(b, s).expect("test move parses")
}

fn count_castles(moves: &[Move]) -> usize {
    moves
        .iter()
        .filter(|m| matches!(m, Move::CastleKingside | Move::CastleQueenside))
        .count()
}

#[test]
fn start_position_has_twenty_legal_moves() {
    let b = board("start");
    assert_eq!(b.get_legal_moves().len(), 20);
}

#[test]
fn start_token_equals_full_start_fen() {
    let a = board("start");
    let b = board("rnbqkbnr/pppppppp/8/8/8/8/PPPPPPPP/RNBQKBNR w KQkq - 0 1");
    assert_eq!(a, b);
}

#[test]
fn to_fen_of_start_is_the_start_fen() {
    let b = board("start");
    assert_eq!(
        b.to_fen(),
        "rnbqkbnr/pppppppp/8/8/8/8/PPPPPPPP/RNBQKBNR w KQkq - 0 1"
    );
}

#[test]
fn fen_round_trip_start() {
    let b = board("start");
    let again = board(&b.to_fen());
    assert_eq!(b, again);
}

#[test]
fn fen_round_trip_after_some_moves() {
    let mut b = board("start");
    for m in ["e2e4", "c7c5", "g1f3", "d7d6"] {
        let mv = lan(&b, m);
        b.move_piece(mv).expect("legal move");
    }
    let text = b.to_fen();
    let again = board(&text);
    assert_eq!(again.to_fen(), text);
    assert_eq!(again.state, b.state);
    assert_eq!(again.active_turn, b.active_turn);
    assert_eq!(again.castle_flags, b.castle_flags);
    assert_eq!(again.en_passant_square, b.en_passant_square);
    assert_eq!(again.halfmove_clock, b.halfmove_clock);
    assert_eq!(again.fullmove_number, b.fullmove_number);
}

#[test]
fn double_push_sets_en_passant_target() {
    let mut b = board("start");
    let mv = lan(&b, "e2e4");
    b.move_piece(mv).unwrap();
    // e3 is rank index 5, file index 4
    assert_eq!(b.en_passant_square, Some((5, 4)));
    assert!(b.to_fen().contains(" e3 "));
}

#[test]
fn next_double_push_replaces_en_passant_target() {
    let mut b = board("start");
    let first = lan(&b, "e2e4");
    b.move_piece(first).unwrap();
    let mv = lan(&b, "d7d5");
    b.move_piece(mv).unwrap();
    // d6 is rank index 2, file index 3
    assert_eq!(b.en_passant_square, Some((2, 3)));
}

#[test]
fn any_single_move_clears_en_passant_target() {
    let mut b = board("start");
    let first = lan(&b, "e2e4");
    b.move_piece(first).unwrap();
    assert!(b.en_passant_square.is_some());
    let mv = lan(&b, "g8f6");
    b.move_piece(mv).unwrap();
    assert_eq!(b.en_passant_square, None);
}

#[test]
fn en_passant_capture_removes_bypassed_pawn() {
    let mut b = board("4k3/8/8/3pP3/8/8/8/4K3 w - d6 0 1");
    let mv = lan(&b, "e5d6");
    b.move_piece(mv).expect("en passant capture is legal");
    // the capturing pawn stands on d6, the bypassed pawn on d5 is gone
    assert_eq!(
        b.piece_at((2, 3)),
        Some(Piece {
            piece_kind: PieceKind::Pawn,
            color: Color::White
        })
    );
    assert_eq!(b.piece_at((3, 3)), None);
    assert_eq!(b.piece_at((3, 4)), None);
}

#[test]
fn legal_moves_never_leave_own_king_attacked() {
    // White king stands in check from the rook on e2; every legal reply
    // must resolve it.
    let fen = "4k3/8/8/8/8/8/4r3/4K3 w - - 0 1";
    let b = board(fen);
    let moves = b.get_legal_moves();
    assert!(!moves.is_empty());
    for mv in moves {
        let mut copy = board(fen);
        copy.move_piece(mv).expect("generated move is legal");
        // after White's move it is Black's turn; White's king must be safe
        assert!(!copy.is_attacked(copy.white_king_position, Color::Black));
    }
}

#[test]
fn castle_allowed_with_right_and_clear_safe_path() {
    let b = board("4k3/8/8/8/8/8/8/4K2R w K - 0 1");
    let moves = b.get_legal_moves();
    assert_eq!(count_castles(&moves), 1);
    let mut b2 = board("4k3/8/8/8/8/8/8/4K2R w K - 0 1");
    b2.move_piece(Move::CastleKingside).unwrap();
    assert_eq!(
        b2.piece_at((7, 6)),
        Some(Piece {
            piece_kind: PieceKind::King,
            color: Color::White
        })
    );
    assert_eq!(
        b2.piece_at((7, 5)),
        Some(Piece {
            piece_kind: PieceKind::Rook,
            color: Color::White
        })
    );
    assert_eq!(b2.piece_at((7, 4)), None);
    assert_eq!(b2.piece_at((7, 7)), None);
}

#[test]
fn castle_rejected_without_the_right() {
    // rooks and kings all on their origin squares, but no rights at all
    let b = board("r3k2r/8/8/8/8/8/8/R3K2R w - - 0 1");
    assert_eq!(count_castles(&b.get_legal_moves()), 0);
    let mut b2 = board("r3k2r/8/8/8/8/8/8/R3K2R w - - 0 1");
    assert!(b2.move_piece(Move::CastleKingside).is_err());
}

#[test]
fn castle_rejected_with_piece_between() {
    let b = board("4k3/8/8/8/8/8/8/4KB1R w K - 0 1");
    assert_eq!(count_castles(&b.get_legal_moves()), 0);
}

#[test]
fn castle_rejected_with_attacked_transit_square() {
    // the rook on f3 attacks f1, the square the king passes through
    let b = board("4k3/8/8/8/8/5r2/8/4K2R w K - 0 1");
    assert!(!b.is_legal_move(Move::CastleKingside));
}

#[test]
fn castle_rejected_with_attacked_origin_square() {
    // the rook on e3 gives check on e1
    let b = board("4k3/8/8/8/8/4r3/8/4K2R w K - 0 1");
    assert!(!b.is_legal_move(Move::CastleKingside));
}

#[test]
fn castle_rejected_with_attacked_destination_square() {
    // the rook on g3 attacks g1, the king's destination
    let b = board("4k3/8/8/8/8/6r1/8/4K2R w K - 0 1");
    assert!(!b.is_legal_move(Move::CastleKingside));
}

#[test]
fn bare_kings_produce_only_king_moves_and_no_castles() {
    let b = board("8/8/8/8/8/8/8/K6k w - - 0 1");
    let moves = b.get_legal_moves();
    assert!(!moves.is_empty());
    assert_eq!(count_castles(&moves), 0);
    for mv in &moves {
        match mv {
            Move::PieceMove { origin_piece, .. } => {
                assert_eq!(origin_piece.piece_kind, PieceKind::King);
            }
            _ => panic!("unexpected castle move"),
        }
    }
}

#[test]
fn checkmate_reports_opponent_as_winner() {
    // Black to move, mated on the back rank by the two rooks
    let b = board("R3k3/R7/8/8/8/8/8/4K3 b - - 0 1");
    assert!(b.get_legal_moves().is_empty());
    assert_eq!(b.get_game_status(), GameStatus::WhiteWin);
}

#[test]
fn stalemate_reports_draw() {
    // Black to move, not in check, and without a single legal move
    let b = board("k7/8/1Q6/8/8/8/8/K7 b - - 0 1");
    assert!(b.get_legal_moves().is_empty());
    assert_eq!(b.get_game_status(), GameStatus::Draw);
}

#[test]
fn clock_at_threshold_with_moves_available_is_still_ongoing() {
    let b = board("4k3/8/8/8/8/8/8/4K3 w - - 150 40");
    assert!(!b.get_legal_moves().is_empty());
    assert_eq!(b.get_game_status(), GameStatus::Ongoing);
}

#[test]
fn pawn_move_resets_halfmove_clock() {
    let mut b = board("4k3/8/8/8/8/8/4P3/4K3 w - - 37 40");
    let mv = lan(&b, "e2e3");
    b.move_piece(mv).unwrap();
    assert_eq!(b.halfmove_clock, 0);
}

#[test]
fn capture_resets_halfmove_clock() {
    let mut b = board("4k3/8/8/8/8/r3R3/8/4K3 b - - 37 40");
    let mv = lan(&b, "a3e3");
    b.move_piece(mv).unwrap();
    assert_eq!(b.halfmove_clock, 0);
}

#[test]
fn fullmove_number_increments_after_black_moves() {
    let mut b = board("start");
    let first = lan(&b, "g1f3");
    b.move_piece(first).unwrap();
    assert_eq!(b.fullmove_number, 1);
    let mv = lan(&b, "g8f6");
    b.move_piece(mv).unwrap();
    assert_eq!(b.fullmove_number, 2);
}

#[test]
fn promotion_always_yields_a_queen() {
    let mut b = board("4k3/P7/8/8/8/8/8/4K3 w - - 0 1");
    let mv = lan(&b, "a7a8");
    b.move_piece(mv).unwrap();
    assert_eq!(
        b.piece_at((0, 0)),
        Some(Piece {
            piece_kind: PieceKind::Queen,
            color: Color::White
        })
    );
}

#[test]
fn illegal_move_is_rejected_and_board_is_unchanged() {
    let mut b = board("start");
    let before = b.to_fen();
    let mv = lan(&b, "e2e5");
    assert!(b.move_piece(mv).is_err());
    assert_eq!(b.to_fen(), before);
}

#[test]
fn capturing_rook_on_origin_square_clears_that_right() {
    let mut b = board("r3k2r/8/8/8/8/8/8/R3K2R w KQkq - 0 1");
    let mv = lan(&b, "a1a8");
    b.move_piece(mv).expect("rook takes rook");
    // White's queenside right fell with the rook leaving a1, and Black's
    // queenside right fell with the rook captured on a8.
    assert!(b.castle_flags.white_kingside);
    assert!(!b.castle_flags.white_queenside);
    assert!(b.castle_flags.black_kingside);
    assert!(!b.castle_flags.black_queenside);
    assert!(b.to_fen().contains(" Kk "));
}

#[test]
fn fen_round_trip_after_rook_capture() {
    let mut b = board("r3k2r/8/8/8/8/8/8/R3K2R w KQkq - 0 1");
    let mv = lan(&b, "a1a8");
    b.move_piece(mv).unwrap();
    let again = board(&b.to_fen());
    assert_eq!(again.state, b.state);
    assert_eq!(again.castle_flags, b.castle_flags);
    assert_eq!(again.to_fen(), b.to_fen());
}

#[test]
fn bishop_capturing_kingside_rook_clears_the_right() {
    let mut b = board("start");
    for m in ["a2a3", "d7d5", "b2b3", "c8h3", "c2c3", "h3g2", "d2d3", "g2h1"] {
        let mv = lan(&b, m);
        b.move_piece(mv).expect("legal move");
    }
    // the bishop now stands on h1 where White's kingside rook began
    assert_eq!(
        b.piece_at((7, 7)),
        Some(Piece {
            piece_kind: PieceKind::Bishop,
            color: Color::Black
        })
    );
    assert!(!b.castle_flags.white_kingside);
    assert!(b.castle_flags.white_queenside);
    let again = board(&b.to_fen());
    assert_eq!(again.castle_flags, b.castle_flags);
    assert_eq!(again.state, b.state);
}

#[test]
fn legal_moves_come_in_fixed_order_castles_first() {
    let b = board("r3k2r/8/8/8/8/8/8/R3K2R w KQkq - 0 1");
    let moves = b.get_legal_moves();
    assert_eq!(moves[0], Move::CastleKingside);
    assert_eq!(moves[1], Move::CastleQueenside);
    let again = board("r3k2r/8/8/8/8/8/8/R3K2R w KQkq - 0 1");
    assert_eq!(again.get_legal_moves(), moves);
}
