use fen_codec::board::{BoardState, STARTING_FEN};
use fen_codec::error::{FenError, FenErrorKind};
use fen_codec::pieces::{Color, Piece, PieceType};
use fen_codec::to_fen::ToFen;

fn piece(color: Color, piece_type: PieceType) -> Option<Piece> {
    Some(Piece { color, piece_type })
}

#[test]
fn test_create_board() {
    let fields: Vec<_> = STARTING_FEN.split(" ").collect();
    let board = BoardState::create_board(fields[0]).unwrap();

    assert_eq!(board.len(), 64);

    assert_eq!(
        board[0],
        Some(Piece {
            color: Color::Black,
            piece_type: PieceType::Rook
        })
    );
    assert_eq!(
        board[7],
        Some(Piece {
            color: Color::Black,
            piece_type: PieceType::Rook
        })
    );
    assert_eq!(
        board[56],
        Some(Piece {
            color: Color::White,
            piece_type: PieceType::Rook
        })
    );
    assert_eq!(
        board[63],
        Some(Piece {
            color: Color::White,
            piece_type: PieceType::Rook
        })
    );
}

#[test]
fn test_from_fen() {
    let board_state = BoardState::from_fen(STARTING_FEN).unwrap();

    assert_eq!(board_state.active_color, Color::White);

    assert_eq!(board_state.white_castle_kingside, true);
    assert_eq!(board_state.white_castle_queenside, true);
    assert_eq!(board_state.black_castle_kingside, true);
    assert_eq!(board_state.black_castle_queenside, true);

    assert_eq!(board_state.halfmove_clock, 0);
    assert_eq!(board_state.fullmove_clock, 1);
}

#[test]
fn test_to_fen() {
    let board_state = BoardState::from_fen(STARTING_FEN).unwrap();
    assert_eq!(STARTING_FEN, BoardState::to_fen(&board_state));
    let board_state =
        BoardState::from_fen("8/5pkp/4b3/p3P1b1/1p5P/1P1R2B1/P5PK/2rB4 b - - 0 33").unwrap();

    assert_eq!(
        "8/5pkp/4b3/p3P1b1/1p5P/1P1R2B1/P5PK/2rB4 b - - 0 33",
        BoardState::to_fen(&board_state)
    );
}

#[test]
fn new_is_the_starting_record() {
    let start = BoardState::new().unwrap();
    assert!(start.is_well_formed());
    assert_eq!(start, BoardState::from_fen(STARTING_FEN).unwrap());
    assert_eq!(BoardState::to_fen(&start), STARTING_FEN);
    assert_eq!(start.en_passant_target, None);
    assert_eq!(start.piece_placement[4], piece(Color::Black, PieceType::King));
    assert_eq!(start.piece_placement[3], piece(Color::Black, PieceType::Queen));
    assert_eq!(start.piece_placement[8], piece(Color::Black, PieceType::Pawn));
    assert_eq!(start.piece_placement[16], None);
    assert_eq!(start.piece_placement[47], None);
    assert_eq!(start.piece_placement[48], piece(Color::White, PieceType::Pawn));
    assert_eq!(start.piece_placement[57], piece(Color::White, PieceType::Knight));
    assert_eq!(start.piece_placement[60], piece(Color::White, PieceType::King));
}

#[test]
fn midgame_squares_are_read_in_board_order() {
    let state =
        BoardState::from_fen("8/5pkp/4b3/p3P1b1/1p5P/1P1R2B1/P5PK/2rB4 b - - 0 33").unwrap();
    for i in 0..8 {
        assert_eq!(state.piece_placement[i], None);
    }
    assert_eq!(state.piece_placement[13], piece(Color::Black, PieceType::Pawn));
    assert_eq!(state.piece_placement[14], piece(Color::Black, PieceType::King));
    assert_eq!(state.piece_placement[15], piece(Color::Black, PieceType::Pawn));
    assert_eq!(state.piece_placement[20], piece(Color::Black, PieceType::Bishop));
    assert_eq!(state.piece_placement[28], piece(Color::White, PieceType::Pawn));
    assert_eq!(state.piece_placement[43], piece(Color::White, PieceType::Rook));
    assert_eq!(state.piece_placement[58], piece(Color::Black, PieceType::Rook));
    assert_eq!(state.piece_placement[59], piece(Color::White, PieceType::Bishop));
    assert_eq!(state.piece_placement[63], None);
    assert_eq!(state.active_color, Color::Black);
    assert_eq!(state.fullmove_clock, 33);
}

#[test]
fn active_color_w_is_white_and_b_is_black() {
    assert_eq!(BoardState::get_active_color("w").unwrap(), Color::White);
    assert_eq!(BoardState::get_active_color("b").unwrap(), Color::Black);
    let state = BoardState::from_fen("8/8/8/8/8/8/8/8 b - - 0 1").unwrap();
    assert_eq!(state.active_color, Color::Black);
    assert_eq!(BoardState::to_fen(&state), "8/8/8/8/8/8/8/8 b - - 0 1");
}

#[test]
fn active_color_rejects_other_tokens() {
    for token in ["", "W", "B", "white", "wb", "-", "w ", "é"] {
        let e = BoardState::get_active_color(token).unwrap_err();
        assert_eq!(e, FenError::BadActiveColor(token.to_string()));
    }
    let e = BoardState::from_fen("8/8/8/8/8/8/8/8 x - - 0 1").unwrap_err();
    assert_eq!(e.kind(), FenErrorKind::BadActiveColor);
    assert_eq!(e.text(), "x");
}

#[test]
fn placement_with_a_nine_is_refused() {
    let e = BoardState::create_board("9/8/8/8/8/8/8/8").unwrap_err();
    assert_eq!(e, FenError::BadPieceNotation("9/8/8/8/8/8/8/8".to_string()));
    let e = BoardState::from_fen("rnbqkbnr/pppppppp/9/8/8/8/PPPPPPPP/RNBQKBNR w KQkq - 0 1")
        .unwrap_err();
    assert_eq!(
        e,
        FenError::BadPieceNotation("rnbqkbnr/pppppppp/9/8/8/8/PPPPPPPP/RNBQKBNR".to_string())
    );
}

#[test]
fn placement_with_an_unknown_letter_is_refused() {
    let e = BoardState::create_board("rnbqkbnr/pppppppp/8/8/8/8/PPPPPPPP/RNBQKBNx").unwrap_err();
    assert_eq!(e.kind(), FenErrorKind::BadPieceNotation);
    assert_eq!(e.text(), "rnbqkbnr/pppppppp/8/8/8/8/PPPPPPPP/RNBQKBNx");
    let e = BoardState::from_fen("xnbqkbnr/pppppppp/8/8/8/8/PPPPPPPP/RNBQKBNR w KQkq - 0 1")
        .unwrap_err();
    assert_eq!(e.kind(), FenErrorKind::BadPieceNotation);
}

#[test]
fn placement_with_a_wrong_count_is_refused() {
    for field in [
        "",
        "8",
        "8/8/8/8/8/8/8",
        "8/8/8/8/8/8/8/8/8",
        "8/8/8/8/8/8/8/7",
        "8/8/8/8/8/8/8/71p",
        "8/8/8/8/8/8/8/ppppppppp",
        "8/8/8/8/8/8/8/8/",
        "/8/8/8/8/8/8/8/8",
        "8/8/8/8/8/8/8/0",
        "8/8/8/8/8/8/8/08",
        "16/8/8/8/8/8/8",
        "8/8/8/8/8/8/8/4 4",
        "8/8/8/8/8/8/8/é7",
    ] {
        let e = BoardState::create_board(field).unwrap_err();
        assert_eq!(e, FenError::BadPieceNotation(field.to_string()));
    }
}

#[test]
fn placement_accepts_split_runs() {
    let board = BoardState::create_board("44/1111p111/8/8/8/8/8/8").unwrap();
    assert_eq!(board.len(), 64);
    assert_eq!(board[12], piece(Color::Black, PieceType::Pawn));
    assert_eq!(BoardState::piece_placement_to_fen(&board), "8/4p3/8/8/8/8/8/8");
}

#[test]
fn five_fields_are_a_malformed_record() {
    let e = BoardState::from_fen("rnbqkbnr/pppppppp/8/8/8/8/PPPPPPPP/RNBQKBNR w KQkq - 0")
        .unwrap_err();
    assert_eq!(
        e,
        FenError::MalformedRecord(
            "rnbqkbnr/pppppppp/8/8/8/8/PPPPPPPP/RNBQKBNR w KQkq - 0".to_string()
        )
    );
    assert_eq!(BoardState::from_fen("").unwrap_err(), FenError::MalformedRecord(String::new()));
    assert_eq!(
        BoardState::from_fen("x y z").unwrap_err().kind(),
        FenErrorKind::MalformedRecord
    );
}

#[test]
fn doubled_spaces_make_empty_fields() {
    let e = BoardState::from_fen("8/8/8/8/8/8/8/8  w - - 0 1").unwrap_err();
    assert_eq!(e, FenError::BadActiveColor(String::new()));
    let e = BoardState::from_fen(" 8/8/8/8/8/8/8/8 w - - 0 1").unwrap_err();
    assert_eq!(e, FenError::BadPieceNotation(String::new()));
}

#[test]
fn fields_after_the_sixth_are_ignored() {
    let state = BoardState::from_fen("8/8/8/8/8/8/8/8 w - - 0 1 extra words").unwrap();
    assert_eq!(BoardState::to_fen(&state), "8/8/8/8/8/8/8/8 w - - 0 1");
    let state = BoardState::from_fen("8/8/8/8/8/8/8/8 w - - 0 1 ").unwrap();
    assert_eq!(state.fullmove_clock, 1);
}

#[test]
fn the_first_bad_field_is_reported() {
    let e = BoardState::from_fen("8/8 x Z zz -1 -2").unwrap_err();
    assert_eq!(e, FenError::BadPieceNotation("8/8".to_string()));
    let e = BoardState::from_fen("8/8/8/8/8/8/8/8 x Z zz -1 -2").unwrap_err();
    assert_eq!(e, FenError::BadActiveColor("x".to_string()));
    let e = BoardState::from_fen("8/8/8/8/8/8/8/8 w Z zz -1 -2").unwrap_err();
    assert_eq!(e, FenError::BadCastling("Z".to_string()));
    let e = BoardState::from_fen("8/8/8/8/8/8/8/8 w K zz -1 -2").unwrap_err();
    assert_eq!(e, FenError::BadEnPassant("zz".to_string()));
    let e = BoardState::from_fen("8/8/8/8/8/8/8/8 w K a3 -1 -2").unwrap_err();
    assert_eq!(e, FenError::BadHalfmove("-1".to_string()));
    let e = BoardState::from_fen("8/8/8/8/8/8/8/8 w K a3 1 -2").unwrap_err();
    assert_eq!(e, FenError::BadFullmove("-2".to_string()));
}

#[test]
fn castling_dash_is_no_right() {
    assert_eq!(BoardState::get_castling("-").unwrap(), (false, false, false, false));
    assert_eq!(BoardState::castling_to_fen(false, false, false, false), "-");
    let state = BoardState::from_fen("8/8/8/8/8/8/8/8 w - - 0 1").unwrap();
    assert!(!state.white_castle_kingside);
    assert!(!state.white_castle_queenside);
    assert!(!state.black_castle_kingside);
    assert!(!state.black_castle_queenside);
    assert_eq!(BoardState::to_fen(&state), "8/8/8/8/8/8/8/8 w - - 0 1");
}

#[test]
fn castling_rights_go_by_letter() {
    assert_eq!(BoardState::get_castling("KQkq").unwrap(), (true, true, true, true));
    assert_eq!(BoardState::get_castling("K").unwrap(), (true, false, false, false));
    assert_eq!(BoardState::get_castling("Q").unwrap(), (false, true, false, false));
    assert_eq!(BoardState::get_castling("k").unwrap(), (false, false, true, false));
    assert_eq!(BoardState::get_castling("q").unwrap(), (false, false, false, true));
    assert_eq!(BoardState::get_castling("qK").unwrap(), (true, false, false, true));
    assert_eq!(BoardState::get_castling("kk-").unwrap(), (false, false, true, false));
    assert_eq!(BoardState::get_castling("").unwrap(), (false, false, false, false));
}

#[test]
fn castling_rejects_other_characters() {
    for field in ["x", "KQkqx", "KQ kq", "A", "0", "Kq–"] {
        let e = BoardState::get_castling(field).unwrap_err();
        assert_eq!(e, FenError::BadCastling(field.to_string()));
    }
}

#[test]
fn castling_is_written_in_fixed_order() {
    assert_eq!(BoardState::castling_to_fen(true, true, true, true), "KQkq");
    assert_eq!(BoardState::castling_to_fen(true, false, false, false), "K");
    assert_eq!(BoardState::castling_to_fen(false, true, false, false), "Q");
    assert_eq!(BoardState::castling_to_fen(false, false, true, false), "k");
    assert_eq!(BoardState::castling_to_fen(false, false, false, true), "q");
    assert_eq!(BoardState::castling_to_fen(true, false, false, true), "Kq");
    assert_eq!(BoardState::castling_to_fen(false, true, true, false), "Qk");
    let state = BoardState::from_fen("8/8/8/8/8/8/8/8 w qkQK - 0 1").unwrap();
    assert_eq!(BoardState::to_fen(&state), "8/8/8/8/8/8/8/8 w KQkq - 0 1");
}

#[test]
fn en_passant_e3_is_square_44() {
    assert_eq!(BoardState::get_en_passant("e3").unwrap(), Some(44));
    assert_eq!(BoardState::en_passant_to_fen(Some(44)), "e3");
    let fen = "rnbqkbnr/pppppppp/8/8/4P3/8/PPPP1PPP/RNBQKBNR b KQkq e3 0 1";
    let state = BoardState::from_fen(fen).unwrap();
    assert_eq!(state.en_passant_target, Some(44));
    assert_eq!(state.piece_placement[36], piece(Color::White, PieceType::Pawn));
    assert_eq!(BoardState::to_fen(&state), fen);
}

#[test]
fn en_passant_corners_and_dash() {
    assert_eq!(BoardState::get_en_passant("-").unwrap(), None);
    assert_eq!(BoardState::get_en_passant("a8").unwrap(), Some(0));
    assert_eq!(BoardState::get_en_passant("h8").unwrap(), Some(7));
    assert_eq!(BoardState::get_en_passant("a1").unwrap(), Some(56));
    assert_eq!(BoardState::get_en_passant("h1").unwrap(), Some(63));
    assert_eq!(BoardState::get_en_passant("d6").unwrap(), Some(19));
    assert_eq!(BoardState::en_passant_to_fen(None), "-");
    assert_eq!(BoardState::en_passant_to_fen(Some(0)), "a8");
    assert_eq!(BoardState::en_passant_to_fen(Some(7)), "h8");
    assert_eq!(BoardState::en_passant_to_fen(Some(56)), "a1");
    assert_eq!(BoardState::en_passant_to_fen(Some(63)), "h1");
    assert_eq!(BoardState::en_passant_to_fen(Some(19)), "d6");
}

#[test]
fn en_passant_names_every_square() {
    for i in 0u8..64 {
        let name = BoardState::en_passant_to_fen(Some(i));
        assert_eq!(BoardState::get_en_passant(&name).unwrap(), Some(i));
    }
}

#[test]
fn en_passant_rejects_other_text() {
    for field in ["", "e", "e9", "e0", "i3", "E3", "3e", "e33", "--", "é3"] {
        let e = BoardState::get_en_passant(field).unwrap_err();
        assert_eq!(e, FenError::BadEnPassant(field.to_string()));
    }
}

#[test]
fn clocks_are_decimal_numbers() {
    assert_eq!(BoardState::get_clock("0"), Some(0));
    assert_eq!(BoardState::get_clock("33"), Some(33));
    assert_eq!(BoardState::get_clock("007"), Some(7));
    assert_eq!(BoardState::get_clock("+5"), Some(5));
    assert_eq!(BoardState::get_clock("4294967295"), Some(4294967295));
    assert_eq!(BoardState::get_clock("0000000000004294967295"), Some(4294967295));
    assert_eq!(BoardState::get_clock("4294967296"), None);
    assert_eq!(BoardState::get_clock("99999999999999999999"), None);
    assert_eq!(BoardState::get_clock(""), None);
    assert_eq!(BoardState::get_clock("+"), None);
    assert_eq!(BoardState::get_clock("++1"), None);
    assert_eq!(BoardState::get_clock("-1"), None);
    assert_eq!(BoardState::get_clock("1 "), None);
    assert_eq!(BoardState::get_clock("1_0"), None);
    assert_eq!(BoardState::get_clock("x"), None);
    assert_eq!(BoardState::get_clock("١"), None);
}

#[test]
fn clocks_agree_with_the_standard_parser() {
    for field in ["0", "1", "10", "0010", "+0", "+", "", "-0", "4294967295", "4294967296", "12a"] {
        assert_eq!(BoardState::get_clock(field), field.parse::<u32>().ok());
    }
}

#[test]
fn bad_clocks_carry_their_field() {
    let e = BoardState::from_fen("8/8/8/8/8/8/8/8 w - - x 1").unwrap_err();
    assert_eq!(e, FenError::BadHalfmove("x".to_string()));
    let e = BoardState::from_fen("8/8/8/8/8/8/8/8 w - - 0 4294967296").unwrap_err();
    assert_eq!(e, FenError::BadFullmove("4294967296".to_string()));
}

#[test]
fn large_clocks_round_trip() {
    let fen = "8/8/8/8/8/8/8/8 w - - 4294967295 1000000";
    let state = BoardState::from_fen(fen).unwrap();
    assert_eq!(state.halfmove_clock, u32::MAX);
    assert_eq!(state.fullmove_clock, 1_000_000);
    assert_eq!(BoardState::to_fen(&state), fen);
}

#[test]
fn every_piece_has_its_symbol() {
    let kinds = [
        (PieceType::Pawn, 'P'),
        (PieceType::Knight, 'N'),
        (PieceType::Bishop, 'B'),
        (PieceType::Rook, 'R'),
        (PieceType::Queen, 'Q'),
        (PieceType::King, 'K'),
    ];
    for (piece_type, letter) in kinds {
        let white = Piece { color: Color::White, piece_type };
        let black = Piece { color: Color::Black, piece_type };
        assert_eq!(BoardState::piece_to_fen(&white), letter.to_string());
        assert_eq!(BoardState::piece_to_fen(&black), letter.to_ascii_lowercase().to_string());
        assert_eq!(BoardState::get_piece(letter), Some(white));
        assert_eq!(BoardState::get_piece(letter.to_ascii_lowercase()), Some(black));
    }
    for c in ['x', '1', '/', ' ', 'A', 'é', '-'] {
        assert_eq!(BoardState::get_piece(c), None);
    }
}

#[test]
fn ranks_are_run_length_encoded() {
    let rank: Vec<char> = "p2P1n1K".chars().collect();
    let squares = BoardState::get_rank(&rank).unwrap();
    assert_eq!(
        squares,
        vec![
            piece(Color::Black, PieceType::Pawn),
            None,
            None,
            piece(Color::White, PieceType::Pawn),
            None,
            piece(Color::Black, PieceType::Knight),
            None,
            piece(Color::White, PieceType::King),
        ]
    );
    let too_long: Vec<char> = "8p".chars().collect();
    assert_eq!(BoardState::get_rank(&too_long), None);
    let too_short: Vec<char> = "3p3".chars().collect();
    assert_eq!(BoardState::get_rank(&too_short), None);
}

#[test]
fn well_formedness_is_sixty_four_squares_and_a_target_on_the_board() {
    let mut state = BoardState::new().unwrap();
    state.en_passant_target = Some(63);
    assert!(state.is_well_formed());
    state.en_passant_target = Some(64);
    assert!(!state.is_well_formed());
    state.en_passant_target = None;
    state.piece_placement.push(None);
    assert!(!state.is_well_formed());
}

#[test]
fn messages_name_the_kind_and_the_text() {
    assert_eq!(
        FenError::MalformedRecord("a b".to_string()).message(),
        "Not enough FEN fields: a b"
    );
    assert_eq!(
        FenError::BadPieceNotation("9".to_string()).message(),
        "Piece notation error: 9"
    );
    assert_eq!(FenError::BadActiveColor("x".to_string()).message(), "Active color error: x");
    assert_eq!(FenError::BadCastling("x".to_string()).message(), "Castling error: x");
    assert_eq!(FenError::BadEnPassant("e9".to_string()).message(), "En passant error: e9");
    assert_eq!(FenError::BadHalfmove("x".to_string()).message(), "Halfmove error: x");
    assert_eq!(FenError::BadFullmove("".to_string()).message(), "Fullmove error: ");
}

#[test]
fn decoding_what_was_encoded_gives_the_position_back() {
    let mut state = BoardState::new().unwrap();
    state.piece_placement[0] = None;
    state.piece_placement[35] = piece(Color::White, PieceType::Queen);
    state.piece_placement[63] = None;
    state.active_color = Color::Black;
    state.white_castle_queenside = false;
    state.black_castle_kingside = false;
    state.en_passant_target = Some(21);
    state.halfmove_clock = 17;
    state.fullmove_clock = 120;
    let fen = BoardState::to_fen(&state);
    assert_eq!(fen, "1nbqkbnr/pppppppp/8/8/3Q4/8/PPPPPPPP/RNBQKBN1 b Kq f6 17 120");
    assert_eq!(BoardState::from_fen(&fen).unwrap(), state);
}

#[test]
fn non_ascii_records_are_refused_not_mangled() {
    let e = BoardState::from_fen("é w - - 0 1").unwrap_err();
    assert_eq!(e, FenError::BadPieceNotation("é".to_string()));
    let e = BoardState::from_fen("8/8/8/8/8/8/8/8 w - ñ3 0 1").unwrap_err();
    assert_eq!(e, FenError::BadEnPassant("ñ3".to_string()));
}

#[test]
fn canonical_records_encode_to_themselves() {
    for fen in [
        STARTING_FEN,
        "8/5pkp/4b3/p3P1b1/1p5P/1P1R2B1/P5PK/2rB4 b - - 0 33",
        "r3k2r/8/8/8/8/8/8/R3K2R w Kq - 12 40",
        "rnbqkbnr/pp1ppppp/8/2p5/4P3/8/PPPP1PPP/RNBQKBNR w KQkq c6 0 2",
        "8/8/8/8/8/8/8/8 b Qk h1 0 0",
        "pppppppp/1p1p1p1p/p1p1p1p1/7p/p7/3pp3/p6p/2p2p2 w q a8 4294967295 10",
    ] {
        let state = BoardState::from_fen(fen).unwrap();
        assert!(state.is_well_formed());
        assert_eq!(BoardState::to_fen(&state), fen);
    }
}

#[test]
fn other_records_encode_to_their_canonical_form() {
    let cases = [
        ("44/8/8/8/8/8/8/8 w - - 0 1", "8/8/8/8/8/8/8/8 w - - 0 1"),
        ("8/8/8/8/8/8/8/8 w kK - 0 1", "8/8/8/8/8/8/8/8 w Kk - 0 1"),
        ("8/8/8/8/8/8/8/8 w KK - 0 1", "8/8/8/8/8/8/8/8 w K - 0 1"),
        ("8/8/8/8/8/8/8/8 w -- - 0 1", "8/8/8/8/8/8/8/8 w - - 0 1"),
        ("8/8/8/8/8/8/8/8 w - - 00 +1", "8/8/8/8/8/8/8/8 w - - 0 1"),
        ("8/8/8/8/8/8/8/8 w - - 0 1 x", "8/8/8/8/8/8/8/8 w - - 0 1"),
    ];
    for (fen, canonical) in cases {
        let state = BoardState::from_fen(fen).unwrap();
        let written = BoardState::to_fen(&state);
        assert_eq!(written, canonical);
        assert_eq!(BoardState::from_fen(&written).unwrap(), state);
    }
}
