use chess_engine::board::bb_pos_from_2d;
use chess_engine::fen::parse_active_turn;
use chess_engine::fen::parse_en_passant_target_square;
use chess_engine::fen::parse_squares;
use chess_engine::fen::START_FEN;
use chess_engine::Board;
use chess_engine::CastleFlags;
use chess_engine::Color;
use chess_engine::Move;
use chess_engine::MoveError;
use chess_engine::ParseFenError;
use chess_engine::Piece;
use chess_engine::PieceKind;

#[test]
fn piece_chars_round_trip() {
    let all = ['P', 'N', 'B', 'R', 'Q', 'K', 'p', 'n', 'b', 'r', 'q', 'k'];
    for c in all {
        let p = Piece::from_char(c);
        assert_eq!(p.to_char(), c);
    }
    assert_eq!(
        Piece::from_char('q'),
        Piece {
            piece_kind: PieceKind::Queen,
            color: Color::Black
        }
    );
    assert_eq!(Piece::new(PieceKind::Rook, Color::White).to_char(), 'R');
}

#[test]
fn color_helpers() {
    assert_eq!(Color::White.invert(), Color::Black);
    assert_eq!(Color::Black.invert(), Color::White);
    assert_eq!(Color::from_char('w'), Color::White);
    assert_eq!(Color::from_char('b'), Color::Black);
    assert_eq!(Color::from_char_case('K'), Color::White);
    assert_eq!(Color::from_char_case('k'), Color::Black);
    assert_eq!(PieceKind::from_char('n'), PieceKind::Knight);
}

#[test]
fn square_index_helper() {
    assert_eq!(bb_pos_from_2d(0, 0), 0);
    assert_eq!(bb_pos_from_2d(1, 2), 10);
    assert_eq!(bb_pos_from_2d(7, 7), 63);
}

#[test]
fn castle_flags_parse_each_letter() {
    let all = CastleFlags::parse_castle_flags("KQkq");
    assert!(all.white_kingside && all.white_queenside && all.black_kingside && all.black_queenside);
    let none = CastleFlags::parse_castle_flags("-");
    assert!(
        !none.white_kingside && !none.white_queenside && !none.black_kingside && !none.black_queenside
    );
    let some = CastleFlags::parse_castle_flags("Kq");
    assert!(some.white_kingside && !some.white_queenside && !some.black_kingside && some.black_queenside);
}

#[test]
fn active_turn_parses_or_reports_the_text() {
    assert_eq!(parse_active_turn("w"), Ok(Color::White));
    assert_eq!(parse_active_turn("b"), Ok(Color::Black));
    assert!(matches!(
        parse_active_turn("x"),
        Err(ParseFenError::MalformedActiveTurn(t)) if t == "x"
    ));
}

#[test]
fn en_passant_field_parses_squares_and_dash() {
    assert_eq!(parse_en_passant_target_square("-"), Ok(None));
    assert_eq!(parse_en_passant_target_square("e3"), Ok(Some((5, 4))));
    assert_eq!(parse_en_passant_target_square("d6"), Ok(Some((2, 3))));
    assert!(matches!(
        parse_en_passant_target_square("zz"),
        Err(ParseFenError::MalformedEnPassantSquare(t)) if t == "zz"
    ));
}

#[test]
fn placement_parses_start_ranks() {
    let grid = parse_squares("rnbqkbnr/pppppppp/8/8/8/8/PPPPPPPP/RNBQKBNR").unwrap();
    assert_eq!(grid.len(), 64);
    assert_eq!(
        grid[0],
        Some(Piece {
            piece_kind: PieceKind::Rook,
            color: Color::Black
        })
    );
    assert_eq!(grid[20], None);
    assert_eq!(
        grid[63],
        Some(Piece {
            piece_kind: PieceKind::Rook,
            color: Color::White
        })
    );
}

#[test]
fn placement_rejects_bad_rank_totals_and_letters() {
    assert!(matches!(
        parse_squares("9/8/8/8/8/8/8/8"),
        Err(ParseFenError::MalformedPlacement(_))
    ));
    assert!(matches!(
        parse_squares("8/8/8/8/8/8/8"),
        Err(ParseFenError::MalformedPlacement(_))
    ));
    assert!(matches!(
        parse_squares("7z/8/8/8/8/8/8/8"),
        Err(ParseFenError::MalformedPlacement(_))
    ));
}

#[test]
fn from_fen_reports_missing_king() {
    assert!(matches!(
        Board::from_fen("8/8/8/8/8/8/8/8 w - - 0 1"),
        Err(ParseFenError::MissingKing)
    ));
    assert!(matches!(
        Board::from_fen("4k3/8/8/8/8/8/8/8 w - - 0 1"),
        Err(ParseFenError::MissingKing)
    ));
}

#[test]
fn from_fen_rejects_duplicate_kings_as_malformed_placement() {
    assert!(matches!(
        Board::from_fen("4k3/8/8/8/8/8/4K3/4K3 w - - 0 1"),
        Err(ParseFenError::MalformedPlacement(_))
    ));
}

#[test]
fn from_fen_field_errors_carry_the_offending_text() {
    assert!(matches!(
        Board::from_fen("4k3/8/8/8/8/8/8/4K3 white - - 0 1"),
        Err(ParseFenError::MalformedActiveTurn(t)) if t == "white"
    ));
    assert!(matches!(
        Board::from_fen("4k3/8/8/8/8/8/8/4K3 w - e9 0 1"),
        Err(ParseFenError::MalformedEnPassantSquare(t)) if t == "e9"
    ));
}

#[test]
fn from_fen_defaults_unparsable_clocks_to_zero() {
    let b = Board::from_fen("4k3/8/8/8/8/8/8/4K3 w - - abc xyz").unwrap();
    assert_eq!(b.halfmove_clock, 0);
    assert_eq!(b.fullmove_number, 0);
}

#[test]
fn from_fen_force_clears_rights_without_pieces_at_home() {
    // the castle field claims all rights, but only White's kingside rook
    // actually stands on its origin square
    let b = Board::from_fen("4k3/8/8/8/8/8/8/4K2R w KQkq - 0 1").unwrap();
    assert!(b.castle_flags.white_kingside);
    assert!(!b.castle_flags.white_queenside);
    assert!(!b.castle_flags.black_kingside);
    assert!(!b.castle_flags.black_queenside);
}

#[test]
fn start_fen_constant_matches_token() {
    let a = Board::from_fen(START_FEN).unwrap();
    let b = Board::from_fen("start").unwrap();
    assert_eq!(a, b);
}

#[test]
fn from_lan_reads_squares_and_pieces() {
    let b = Board::from_fen("start").unwrap();
    let mv = Move::from_lan(&b, "e2e4").unwrap();
    match mv {
        Move::PieceMove {
            origin_square,
            target_square,
            origin_piece,
            target_piece,
        } => {
            assert_eq!(origin_square, (6, 4));
            assert_eq!(target_square, (4, 4));
            assert_eq!(
                origin_piece,
                Piece {
                    piece_kind: PieceKind::Pawn,
                    color: Color::White
                }
            );
            assert_eq!(target_piece, None);
        }
        _ => panic!("expected a piece move"),
    }
}

#[test]
fn from_lan_accepts_castle_tokens() {
    let b = Board::from_fen("start").unwrap();
    assert_eq!(Move::from_lan(&b, "O-O"), Ok(Move::CastleKingside));
    assert_eq!(Move::from_lan(&b, "o-o-o"), Ok(Move::CastleQueenside));
}

#[test]
fn from_lan_rejects_bad_notation_and_empty_origin() {
    let b = Board::from_fen("start").unwrap();
    assert!(matches!(
        Move::from_lan(&b, "e2"),
        Err(MoveError::MalformedMoveNotation(t)) if t == "e2"
    ));
    assert!(matches!(
        Move::from_lan(&b, "i9i8"),
        Err(MoveError::MalformedMoveNotation(_))
    ));
    assert_eq!(Move::from_lan(&b, "e4e5"), Err(MoveError::IllegalMove));
}

#[test]
fn to_str_writes_long_algebraic_text() {
    let b = Board::from_fen("start").unwrap();
    assert_eq!(Move::from_lan(&b, "e2e4").unwrap().to_str(), "e4");
    assert_eq!(Move::from_lan(&b, "g1f3").unwrap().to_str(), "Nf3");
    assert_eq!(Move::CastleKingside.to_str(), "O-O");
    assert_eq!(Move::CastleQueenside.to_str(), "O-O-O");
    let capture = Board::from_fen("4k3/8/8/3p4/4P3/8/8/4K3 w - - 0 1").unwrap();
    assert_eq!(Move::from_lan(&capture, "e4d5").unwrap().to_str(), "exd5");
    let rook_take = Board::from_fen("4k3/8/8/8/8/r3R3/8/4K3 w - - 0 1").unwrap();
    assert_eq!(Move::from_lan(&rook_take, "e3a3").unwrap().to_str(), "Rxa3");
}

#[test]
fn attack_queries_see_sliders_and_leapers() {
    let b = Board::from_fen("4k3/8/8/8/8/2n5/8/R3K3 w - - 0 1").unwrap();
    // the rook on a1 attacks along the first rank up to the king's square
    assert!(b.is_attacked((7, 1), Color::White));
    assert!(b.is_attacked((7, 4), Color::White));
    // the knight on c3 attacks a2, b1, d1, e2 among others
    assert!(b.is_attacked((6, 0), Color::Black));
    assert!(b.is_attacked((7, 1), Color::Black));
    assert!(b.is_attacked((7, 3), Color::Black));
    // but not a neighbouring square it cannot leap to
    assert!(!b.is_attacked((5, 1), Color::Black));
}

#[test]
fn get_attack_positions_matches_is_attacked() {
    let b = Board::from_fen("4k3/8/8/8/8/2n5/8/R3K3 w - - 0 1").unwrap();
    let knight = b.piece_at((5, 2)).unwrap();
    let squares = knight.get_attack_positions((5, 2), &b);
    assert_eq!(squares.len(), 8);
    assert!(squares.contains(&(7, 1)));
    assert!(squares.contains(&(7, 3)));
    assert!(!squares.contains(&(5, 1)));
}
