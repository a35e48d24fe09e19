use enrust::game_state::{Color, GameState};

#[test]
fn test_pawn_attacks() {
    let mut game = GameState::default();
    game.set_fen_position("8/8/8/8/3p4/4P3/8/8 w - - 0 1");
    /*
        12x10 Chess Board:
        ==============================
        10 │ X X X X X X X X X X │
        09 │ X X X X X X X X X X │
        08 │ X . . . . . . . . X │
        07 │ X . . . . . . . . X │
        06 │ X . . . . . . . . X │
        05 │ X . . . . . . . . X │
        04 │ X . . . p . . . . X │
        03 │ X . . . . P . . . X │
        02 │ X . . . . . . . . X │
        01 │ X . . . . . . . . X │
        00 │ X X X X X X X X X X │
        -1 │ X X X X X X X X X X │
           └─────────────────────
            z a b c d e f g h i
    */

    // Black pawn at d4 should attack e3 and c3
    assert!(game.get_chess_board().piece_list.is_square_attacked(
        game.get_chess_board(),
        game.get_chess_board().algebraic_to_internal("e3"),
        Color::Black
    ));
    assert!(game.get_chess_board().piece_list.is_square_attacked(
        game.get_chess_board(),
        game.get_chess_board().algebraic_to_internal("c3"),
        Color::Black
    ));
    // e4 not attacked
    assert!(!game.get_chess_board().piece_list.is_square_attacked(
        game.get_chess_board(),
        game.get_chess_board().algebraic_to_internal("e4"),
        Color::Black
    ));
    // diagonals behind can't be attacked
    assert!(!game.get_chess_board().piece_list.is_square_attacked(
        game.get_chess_board(),
        game.get_chess_board().algebraic_to_internal("d5"),
        Color::Black
    ));
    assert!(!game.get_chess_board().piece_list.is_square_attacked(
        game.get_chess_board(),
        game.get_chess_board().algebraic_to_internal("c5"),
        Color::Black
    ));
}

#[test]
fn test_knight_attacks() {
    let mut game = GameState::default();
    game.set_fen_position("8/8/8/3N4/8/8/8/8 w - - 0 1");
    /*
        12x10 Chess Board:
        ==============================
        10 │ X X X X X X X X X X │
        09 │ X X X X X X X X X X │
        08 │ X . . . . . . . . X │
        07 │ X . . . . . . . . X │
        06 │ X . . . . . . . . X │
        05 │ X . . . N . . . . X │
        04 │ X . . . . . . . . X │
        03 │ X . . . . . . . . X │
        02 │ X . . . . . . . . X │
        01 │ X . . . . . . . . X │
        00 │ X X X X X X X X X X │
        -1 │ X X X X X X X X X X │
           └─────────────────────
             z a b c d e f g h i
    */

    // Knight at d5 should attack 8 squares
    let attacked_squares = ["b4", "b6", "c3", "c7", "e3", "e7", "f4", "f6"];

    for &algebraic_square in &attacked_squares {
        let square = game.get_chess_board().algebraic_to_internal(algebraic_square);
        assert!(
            game.get_chess_board()
                .piece_list
                .is_square_attacked(game.get_chess_board(), square, Color::White),
            "Square {} should be attacked by knight",
            algebraic_square
        );
    }

    let safe_square = game.get_chess_board().algebraic_to_internal("a1");
    assert!(
        !game.get_chess_board()
            .piece_list
            .is_square_attacked(game.get_chess_board(), safe_square, Color::White),
        "Square {} should not be attacked by knight",
        "a1"
    );
}

#[test]
fn test_bishop_attacks() {
    let mut game = GameState::default();
    game.set_fen_position("8/8/8/3B4/8/8/8/8 w - - 0 1");
    /*
        12x10 Chess Board:
        ==============================
        10 │ X X X X X X X X X X │
        09 │ X X X X X X X X X X │
        08 │ X . . . . . . . . X │
        07 │ X . . . . . . . . X │
        06 │ X . . . . . . . . X │
        05 │ X . . . B . . . . X │
        04 │ X . . . . . . . . X │
        03 │ X . . . . . . . . X │
        02 │ X . . . . . . . . X │
        01 │ X . . . . . . . . X │
        00 │ X X X X X X X X X X │
        -1 │ X X X X X X X X X X │
           └─────────────────────
             z a b c d e f g h i
    */
    // diagonals
    let attacked_squares = ["a8", "h1", "g8", "a2"];

    // Bishop at d5 should attack diagonals
    for &algebraic_square in &attacked_squares {
        let square = game.get_chess_board().algebraic_to_internal(algebraic_square);
        assert!(
            game.get_chess_board()
                .piece_list
                .is_square_attacked(game.get_chess_board(), square, Color::White),
            "Square {} should be attacked by bishop",
            algebraic_square
        );
    }

    let safe_square = game.get_chess_board().algebraic_to_internal("d4");
    assert!(
        !game.get_chess_board()
            .piece_list
            .is_square_attacked(game.get_chess_board(), safe_square, Color::White),
        "Square {} should not be attacked by bishop",
        "d4"
    );
}

#[test]
fn test_rook_attacks() {
    let mut game = GameState::default();
    game.set_fen_position("8/8/8/3R4/8/8/8/8 w - - 0 1");
    /*
        ==============================
        10 │ X X X X X X X X X X │
        09 │ X X X X X X X X X X │
        08 │ X . . . . . . . . X │
        07 │ X . . . . . . . . X │
        06 │ X . . . . . . . . X │
        05 │ X . . . R . . . . X │
        04 │ X . . . . . . . . X │
        03 │ X . . . . . . . . X │
        02 │ X . . . . . . . . X │
        01 │ X . . . . . . . . X │
        00 │ X X X X X X X X X X │
        -1 │ X X X X X X X X X X │
           └─────────────────────
             z a b c d e f g h i
    */
    let attacked_squares = ["b5", "h5", "d6", "d3"];

    for &algebraic_square in &attacked_squares {
        let square = game.get_chess_board().algebraic_to_internal(algebraic_square);
        assert!(
            game.get_chess_board()
                .piece_list
                .is_square_attacked(game.get_chess_board(), square, Color::White),
            "Square {} should be attacked by rook",
            algebraic_square
        );
    }
    let safe_square = game.get_chess_board().algebraic_to_internal("e4");
    assert!(
        !game.get_chess_board()
            .piece_list
            .is_square_attacked(game.get_chess_board(), safe_square, Color::White),
        "Square {} should be attacked by rook",
        "e4"
    );
}
#[test]
fn test_queen_attacks() {
    let mut game = GameState::default();
    game.set_fen_position("8/8/8/3Q4/8/8/8/8 w - - 0 1");
    /*
        12x10 Chess Board:
        ==============================
        10 │ X X X X X X X X X X │
        09 │ X X X X X X X X X X │
        08 │ X . . . . . . . . X │
        07 │ X . . . . . . . . X │
        06 │ X . . . . . . . . X │
        05 │ X . . . Q . . . . X │
        04 │ X . . . . . . . . X │
        03 │ X . . . . . . . . X │
        02 │ X . . . . . . . . X │
        01 │ X . . . . . . . . X │
        00 │ X X X X X X X X X X │
        -1 │ X X X X X X X X X X │
           └─────────────────────
             z a b c d e f g h i
    */

    let attacked_squares = ["a5", "g5", "d6", "b3", "f7", "b3", "c6", "h1"];

    for &algebraic_square in &attacked_squares {
        let square = game.get_chess_board().algebraic_to_internal(algebraic_square);
        assert!(
            game.get_chess_board()
                .piece_list
                .is_square_attacked(game.get_chess_board(), square, Color::White),
            "Square {} should be attacked by queen",
            algebraic_square
        );
    }

    let safe_square = game.get_chess_board().algebraic_to_internal("g4");
    assert!(
        !game.get_chess_board()
            .piece_list
            .is_square_attacked(game.get_chess_board(), safe_square, Color::White)
    );
}

#[test]
fn test_king_attacks() {
    let mut game = GameState::default();
    game.set_fen_position("8/8/8/3K4/8/8/8/8 w - - 0 1");
    /*
        12x10 Chess Board:
        ==============================
        10 │ X X X X X X X X X X │
        09 │ X X X X X X X X X X │
        08 │ X . . . . . . . . X │
        07 │ X . . . . . . . . X │
        06 │ X . . . . . . . . X │
        05 │ X . . . K . . . . X │
        04 │ X . . . . . . . . X │
        03 │ X . . . . . . . . X │
        02 │ X . . . . . . . . X │
        01 │ X . . . . . . . . X │
        00 │ X X X X X X X X X X │
        -1 │ X X X X X X X X X X │
           └─────────────────────
             z a b c d e f g h i
    */

    // King at d5 should attack surrounding squares
    let attacked_squares = ["c6", "d6", "e6", "c5", "e5", "c4", "d4", "e4"];

    for &algebraic_square in &attacked_squares {
        let square = game.get_chess_board().algebraic_to_internal(algebraic_square);
        assert!(
            game.get_chess_board()
                .piece_list
                .is_square_attacked(game.get_chess_board(), square, Color::White),
            "Square {} should be attacked by king",
            algebraic_square
        );
    }

    let safe_square = game.get_chess_board().algebraic_to_internal("e3"); // too far
    assert!(
        !game.get_chess_board()
            .piece_list
            .is_square_attacked(game.get_chess_board(), safe_square, Color::White)
    );
}

#[test]
fn test_blocked_attacks() {
    let mut game = GameState::default();
    game.set_fen_position("8/8/8/3R4/3P4/8/8/8 w - - 0 1");
    /*
        12x10 Chess Board:
        ==============================
        10 │ X X X X X X X X X X │
        09 │ X X X X X X X X X X │
        08 │ X . . . . . . . . X │
        07 │ X . . . . . . . . X │
        06 │ X . . . . . . . . X │
        05 │ X . . . R . . . . X │
        04 │ X . . . P . . . . X │
        03 │ X . . . . . . . . X │
        02 │ X . . . . . . . . X │
        01 │ X . . . . . . . . X │
        00 │ X X X X X X X X X X │
        -1 │ X X X X X X X X X X │
           └─────────────────────
             z a b c d e f g h i
    */

    // Rook at d5 should not attack squares beyond the pawn at d4
    let attacked_square = game.get_chess_board().algebraic_to_internal("d4");
    assert!(game.get_chess_board().piece_list.is_square_attacked(
        game.get_chess_board(),
        attacked_square,
        Color::White
    ));

    let safe_square = game.get_chess_board().algebraic_to_internal("d3"); // blocked by pawn
    assert!(
        !game.get_chess_board()
            .piece_list
            .is_square_attacked(game.get_chess_board(), safe_square, Color::White)
    );
}
