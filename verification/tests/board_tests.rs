use std::collections::HashSet;
use std::sync::Arc;

use enrust::game_state::{ChessBoard, Color, GameState, Move, Piece, TranspositionTable, Zobrist};

fn setup_game_with_fen(fen: &str) -> GameState {
    let zobrist_keys = Arc::new(Zobrist::new());

    let shared_transposition_table = Arc::new(TranspositionTable::new(256));

    let mut game = GameState::new(zobrist_keys, shared_transposition_table);
    game.set_fen_position(fen);
    game
}

fn setup_game() -> GameState {
    setup_game_with_fen("rnbqkbnr/pppppppp/8/8/8/8/PPPPPPPP/RNBQKBNR w KQkq - 0 1")
}

#[test]
fn algebraic_to_internal_convertion() {
    let board = setup_game().get_chess_board().clone();

    assert_eq!(board.algebraic_to_internal("e4"), 55);
    assert_eq!(board.algebraic_to_internal("a1"), 21);
    assert_eq!(board.algebraic_to_internal("a8"), 91);
    assert_eq!(board.algebraic_to_internal("h1"), 28);
    assert_eq!(board.algebraic_to_internal("h8"), 98);
}

fn assert_board_states_equal(b1: &ChessBoard, b2: &ChessBoard, msg: &str) {
    // Compare critical board state components
    assert_eq!(
        b1.castling_rights, b2.castling_rights,
        "{}: Castling rights mismatch",
        msg
    );
    assert_eq!(
        b1.en_passant_target, b2.en_passant_target,
        "{}: En passant target mismatch",
        msg
    );
    assert_eq!(b1.hash, b2.hash, "{}: Hash mismatch", msg);

    // Compare piece positions
    for square in 0..64 {
        let internal_square = b1.map_inner_to_outer_board(square);
        let piece1 = b1.get_piece_on_square(internal_square);
        let piece2 = b2.get_piece_on_square(internal_square);
        assert_eq!(
            piece1, piece2,
            "{}: Piece mismatch at square {}",
            msg, square
        );
    }
}

#[test]
fn test_make_unmake_move() {
    let game =
        setup_game_with_fen("rnbqkbnr/pppppppp/8/8/4P3/8/PPPP1PPP/RNBQKBNR b KQkq e3 0 1");
    let mut board = game.get_chess_board().clone();
    let original_board = board.clone();

    let mv = board.from_uci("c7c5").unwrap();

    // First make move
    board.make_move(&mv);

    // Undo move
    board.unmake_move(&mv);

    // Board state should be the same
    assert_board_states_equal(&board, &original_board, "test_make_unmake_move");
}

#[test]
fn test_castling_move_execution() {
    let mut game = setup_game_with_fen("r3k2r/pppppppp/8/8/8/8/PPPPPPPP/R3K2R w KQkq - 0 1");

    // Execute kingside castling
    game.make_move("e1g1");

    // Verify board state after castling
    let king_square = game.get_chess_board().algebraic_to_internal("g1");
    let rook_square = game.get_chess_board().algebraic_to_internal("f1");

    assert_eq!(
        game.get_chess_board().get_piece_on_square(king_square),
        Piece::WhiteKing
    );
    assert_eq!(
        game.get_chess_board().get_piece_on_square(rook_square),
        Piece::WhiteRook
    );

    // Original squares should be empty
    let original_king = game.get_chess_board().algebraic_to_internal("e1");
    let original_rook = game.get_chess_board().algebraic_to_internal("h1");

    assert_eq!(
        game.get_chess_board().get_piece_on_square(original_king),
        Piece::EmptySquare
    );
    assert_eq!(
        game.get_chess_board().get_piece_on_square(original_rook),
        Piece::EmptySquare
    );
}

#[test]
fn test_castling_unmake() {
    let mut game = setup_game_with_fen("r3k2r/pppppppp/8/8/8/8/PPPPPPPP/R3K2R w KQkq - 0 1");

    let mut board = game.get_chess_board().clone();
    let initial_board = board.board_squares;
    let initial_castling = board.castling_rights;

    // Make and unmake castling move
    let mv = game
        .create_move("e1g1")
        .expect("Castling move should be valid");
    board.make_move(&mv);
    board.unmake_move(&mv);

    // Board should be back to initial state
    assert_eq!(board.board_squares, initial_board);
    assert_eq!(board.castling_rights, initial_castling);
}

#[test]
fn test_complete_castling_scenario() {
    let mut game = setup_game_with_fen("r3k2r/pppppppp/8/8/8/8/PPPPPPPP/R3K2R w KQkq - 0 1");

    // White castles kingside
    game.make_move("e1g1");

    // Black castles queenside
    game.make_move("e8c8");

    // Verify final position
    let white_king = game.get_chess_board().algebraic_to_internal("g1");
    let white_rook = game.get_chess_board().algebraic_to_internal("f1");
    let black_king = game.get_chess_board().algebraic_to_internal("c8");
    let black_rook = game.get_chess_board().algebraic_to_internal("d8");

    assert_eq!(game.get_chess_board().get_piece_on_square(white_king), Piece::WhiteKing);
    assert_eq!(game.get_chess_board().get_piece_on_square(white_rook), Piece::WhiteRook);
    assert_eq!(game.get_chess_board().get_piece_on_square(black_king), Piece::BlackKing);
    assert_eq!(game.get_chess_board().get_piece_on_square(black_rook), Piece::BlackRook);

    // Castling rights should be lost for both sides
    assert!(!game.get_chess_board().castling_rights.white_kingside);
    assert!(!game.get_chess_board().castling_rights.white_queenside);
    assert!(!game.get_chess_board().castling_rights.black_kingside);
    assert!(!game.get_chess_board().castling_rights.black_queenside);
}

#[test]
fn test_can_castle_queenside_normal() {
    let game = setup_game_with_fen("r3k2r/pppppppp/8/8/8/8/PPPPPPPP/R3K2R w KQkq - 0 1");

    // White should be able to castle queenside
    assert!(game.get_chess_board().can_castle_queenside(
        Color::White,
        game.get_chess_board().algebraic_to_internal("e1"),
        game.get_chess_board().algebraic_to_internal("a1")
    ));

    // Black should be able to castle queenside
    assert!(game.get_chess_board().can_castle_queenside(
        Color::Black,
        game.get_chess_board().algebraic_to_internal("e8"),
        game.get_chess_board().algebraic_to_internal("a8")
    ));
}

#[test]
fn test_cannot_castle_queenside_if_king_moved() {
    let game = setup_game_with_fen("r3k2r/pppppppp/8/8/8/8/PPPPPPPP/R3K2R w KQkq - 0 1");
    let mut board = game.get_chess_board().clone();

    // Simulate king moved by removing castling rights
    board.castling_rights.white_queenside = false;

    assert!(!board.can_castle_queenside(
        Color::White,
        game.get_chess_board().algebraic_to_internal("e1"),
        game.get_chess_board().algebraic_to_internal("a1")
    ));
}

#[test]
fn test_cannot_castle_queenside_if_rook_moved() {
    let game = setup_game_with_fen("r3k2r/pppppppp/8/8/8/8/PPPPPPPP/R3K2R w KQkq - 0 1");
    let mut board = game.get_chess_board().clone();

    // Simulate rook moved by removing castling rights
    board.castling_rights.white_queenside = false;

    assert!(!board.can_castle_queenside(
        Color::White,
        game.get_chess_board().algebraic_to_internal("e1"),
        game.get_chess_board().algebraic_to_internal("a1")
    ));
}

#[test]
fn test_cannot_castle_queenside_if_squares_occupied() {
    let game = setup_game_with_fen("r3k2r/pppppppp/8/8/8/8/PPPPPPPP/R1B1K2R w KQkq - 0 1");

    // Bishop on c1 blocks queenside castling
    assert!(!game.get_chess_board().can_castle_queenside(
        Color::White,
        game.get_chess_board().algebraic_to_internal("e1"),
        game.get_chess_board().algebraic_to_internal("a1")
    ));
}

#[test]
fn test_cannot_castle_queenside_through_check() {
    let game = setup_game_with_fen("8/8/8/8/8/2n5/8/R3K3 w - - 0 1");

    // Black knight attacks d1, which king moves through
    assert!(!game.get_chess_board().can_castle_queenside(
        Color::White,
        game.get_chess_board().algebraic_to_internal("e1"),
        game.get_chess_board().algebraic_to_internal("a1")
    ));
}

#[test]
fn test_cannot_castle_queenside_if_in_check() {
    let game = setup_game_with_fen("8/8/8/8/7b/8/8/R3K3 w - - 0 1");

    // Black bishop attacks e1 (king is in check)
    assert!(!game.get_chess_board().can_castle_queenside(
        Color::White,
        game.get_chess_board().algebraic_to_internal("e1"),
        game.get_chess_board().algebraic_to_internal("a1")
    ));
}

#[test]
fn test_cannot_castle_queenside_if_pieces_missing() {
    let game = setup_game_with_fen("4k3/pppppppp/8/8/8/8/PPPPPPPP/4K3 w - - 0 1");

    // No rook on a1
    assert!(!game.get_chess_board().can_castle_queenside(
        Color::White,
        game.get_chess_board().algebraic_to_internal("e1"),
        game.get_chess_board().algebraic_to_internal("a1")
    ));
}

#[test]
fn test_cannot_castle_queenside_wrong_color() {
    let game = setup_game_with_fen("r3k2r/pppppppp/8/8/8/8/PPPPPPPP/R3K2R w KQkq - 0 1");

    // Black pieces on white squares shouldn't allow white to castle
    assert!(!game.get_chess_board().can_castle_queenside(
        Color::White,
        game.get_chess_board().algebraic_to_internal("e1"), // white king
        game.get_chess_board().algebraic_to_internal("a8")  // black rook - WRONG ROOK!
    ));
}

fn create_test_board() -> ChessBoard {
    let zobrist_keys = Arc::new(Zobrist::new());

    let transposition_table = Arc::new(TranspositionTable::new(256));

    let mut game = GameState::new(zobrist_keys, transposition_table);
    game.set_fen_position("rnbqkbnr/pppppppp/8/8/8/8/PPPPPPPP/RNBQKBNR w KQkq - 0 1");
    game.get_chess_board().clone()
}

#[test]
fn test_initial_position_hash_consistency() {
    let board = create_test_board();
    let hash1 = board.zobrist_hash(Color::White);
    let hash2 = board.zobrist_hash(Color::White);

    assert_eq!(hash1, hash2, "Initial position hash should be consistent");
}

#[test]
fn test_hash_changes_with_side_to_move() {
    let board = create_test_board();
    let white_hash = board.zobrist_hash(Color::White);
    let black_hash = board.zobrist_hash(Color::Black);

    assert_ne!(
        white_hash, black_hash,
        "Hash should change with side to move"
    );

    // Test that XORing side_to_move flips correctly
    let side_to_move_key = board.zobrist.side_to_move;
    assert_eq!(
        white_hash ^ side_to_move_key,
        black_hash,
        "XOR side_to_move should flip colors"
    );
}

#[test]
fn test_pawn_move_hash_update() {
    let mut board = create_test_board();
    let initial_hash = board.hash;

    // Create a pawn move (e2 to e4)
    let mv = Move {
        from: board.algebraic_to_internal("e2"),
        to: board.algebraic_to_internal("e4"),
        piece: Piece::WhitePawn,
        captured_piece: Piece::EmptySquare,
        promotion: None,
        castling: None,
        en_passant: false,
        en_passant_square: Some(board.algebraic_to_internal("e3")),
        previous_en_passant: None,
        previous_castling_rights: Some(board.castling_rights.clone()),
    };

    board.update_hash(&mv);
    let after_move_hash = board.hash;

    assert_ne!(
        initial_hash, after_move_hash,
        "Hash should change after pawn move"
    );

    // Test unmake
    board.update_hash(&mv);
    assert_eq!(initial_hash, board.hash, "Hash should restore after unmake");
}

#[test]
fn test_capture_hash_update() {
    // Set up a position where capture is possible
    // For example, after 1.e4 e5 2.Nf3 Nc6 3.Bb5 a6
    // Then capture on c6: Bxc6
    let game = setup_game_with_fen(
        "r1bqkbnr/1ppp1ppp/p1n5/1B2p3/4P3/5N2/PPPP1PPP/RNBQK2R w KQkq - 0 1",
    );

    let mut board = game.get_chess_board().clone();
    let mv = board.from_uci("b5c6").unwrap();

    let initial_hash = board.hash;

    board.make_move(&mv);

    let after_capture_hash = board.hash;

    assert_ne!(
        initial_hash, after_capture_hash,
        "Hash should change after capture"
    );

    // Test unmake
    board.unmake_move(&mv);
    assert_eq!(
        initial_hash, board.hash,
        "Hash should restore after unmake capture"
    );
}

#[test]
fn test_castling_rights_loss_hash() {
    let game = setup_game_with_fen("r3k2r/pp2pppp/8/8/8/8/PPP2PPP/R3K2R w KQkq - 0 1");

    let mut board = game.get_chess_board().clone();
    let mv = board.from_uci("e1e2").unwrap();

    let initial_hash = board.hash;

    // King move should remove castling rights
    board.make_move(&mv);

    // Hash should change due to both piece move and castling rights change
    let after_king_move_hash = board.hash;
    assert_ne!(
        initial_hash, after_king_move_hash,
        "Hash should change when castling rights are lost"
    );

    // Test unmake restores original hash
    board.unmake_move(&mv);
    assert_eq!(
        initial_hash, board.hash,
        "Hash should restore after unmaking king move with castling rights change"
    );
}

#[test]
fn test_rook_move_castling_rights_hash() {
    let game = setup_game_with_fen("r3k2r/pp2pppp/8/8/8/8/PPP2PPP/R3K2R w KQkq - 0 1");

    let mut board = game.get_chess_board().clone();
    let mv = board.from_uci("a1a2").unwrap();

    let initial_hash = board.hash;

    // Moving queenside rook should remove queenside castling right
    board.make_move(&mv);

    let after_rook_move_hash = board.hash;

    assert_ne!(
        initial_hash, after_rook_move_hash,
        "Hash should change when rook move removes castling right"
    );

    board.unmake_move(&mv);
    assert_eq!(
        initial_hash, board.hash,
        "Hash should restore after unmaking rook move"
    );
}

#[test]
fn test_castling_move_hash() {
    let game = setup_game_with_fen("r3k2r/pp2pppp/8/8/8/8/PPP2PPP/R3K2R w KQkq - 0 1");

    let mut board = game.get_chess_board().clone();
    let mv = board.from_uci("e1g1").unwrap();

    let initial_hash = board.hash;

    board.make_move(&mv);

    let after_castling_hash = board.hash;

    assert_ne!(
        initial_hash, after_castling_hash,
        "Hash should change after castling move"
    );

    board.unmake_move(&mv);
    assert_eq!(
        initial_hash, board.hash,
        "Hash should restore after unmaking castling move"
    );
}

#[test]
fn test_en_passant_hash() {
    let game =
        setup_game_with_fen("rnbqkbnr/pp2pppp/8/2ppP3/8/8/PPPP1PPP/RNBQKBNR w KQkq d6 0 1");

    let mut board = game.get_chess_board().clone();
    let mv = board.from_uci("e5d6").unwrap(); // Capturing en passant

    let initial_hash = board.hash;

    board.make_move(&mv);

    let after_ep_hash = board.hash;

    assert_ne!(
        initial_hash, after_ep_hash,
        "Hash should change after en passant capture"
    );

    board.unmake_move(&mv);
    assert_eq!(
        initial_hash, board.hash,
        "Hash should restore after unmaking en passant"
    );
}

#[test]
fn test_promotion_hash() {
    // Set up promotion situation - white pawn on 7th rank
    let game = setup_game_with_fen("r4rk1/1p2Pppp/p7/2P1n3/8/B7/P4PPP/R4RK1 b KQkq - 0 1");

    let mut board = game.get_chess_board().clone();
    let mv = board.from_uci("e7e8q").unwrap();

    let initial_hash = board.hash;

    board.make_move(&mv);

    let after_promotion_hash = board.hash;

    assert_ne!(
        initial_hash, after_promotion_hash,
        "Hash should change after promotion"
    );

    board.unmake_move(&mv);
    assert_eq!(
        initial_hash, board.hash,
        "Hash should restore after unmaking promotion"
    );
}

#[test]
fn test_en_passant_target_file_hash() {
    let mut board = create_test_board();
    let initial_hash = board.hash;

    // Test that setting en passant target file affects hash
    let target_square = board.algebraic_to_internal("e3");
    let file = board.square_file(target_square) - (board.board_width - 8) / 2;

    // XOR in the en passant file
    board.hash ^= board.zobrist.en_passant[file as usize];
    let with_ep_hash = board.hash;

    assert_ne!(
        initial_hash, with_ep_hash,
        "Hash should change when en passant target is set"
    );

    // XOR out to restore
    board.hash ^= board.zobrist.en_passant[file as usize];
    assert_eq!(
        initial_hash, board.hash,
        "Hash should restore when en passant target is cleared"
    );
}

#[test]
fn test_multiple_moves_hash_consistency() {
    let game = setup_game_with_fen("rnbqkbnr/pppppppp/8/8/8/8/PPPPPPPP/RNBQKBNR w KQkq - 0 1");

    let mut board = game.get_chess_board().clone();

    let initial_hash = board.hash;
    // Make a series of moves and unmakes, hash should always restore
    let test_moves = vec!["e2e4", "c7c5", "g1f3", "b8c6"];

    for uci_mv in &test_moves {
        let mv = board.from_uci(uci_mv).unwrap();

        let before_move_hash = board.hash;
        board.make_move(&mv);
        let after_move_hash = board.hash;

        assert_ne!(
            before_move_hash, after_move_hash,
            "Hash should change after each move"
        );

        board.unmake_move(&mv);
        assert_eq!(
            before_move_hash, board.hash,
            "Hash should restore after unmaking each move"
        );
    }

    assert_eq!(
        initial_hash, board.hash,
        "Hash should be back to initial after all moves unmade"
    );
}

#[test]
fn test_zobrist_structure_initialization() {
    let zobrist = Zobrist::new();

    // Verify all arrays are initialized with non-zero values
    assert_ne!(zobrist.side_to_move, 0, "Side to move should be non-zero");

    for i in 0..4 {
        assert_ne!(
            zobrist.castling_rights[i], 0,
            "Castling right {} should be non-zero",
            i
        );
    }

    for i in 0..8 {
        assert_ne!(
            zobrist.en_passant[i], 0,
            "En passant file {} should be non-zero",
            i
        );
    }

    // Check pieces array
    for square in 0..64 {
        for piece in 0..12 {
            assert_ne!(
                zobrist.pieces[square][piece], 0,
                "Piece at square {}, type {} should be non-zero",
                square, piece
            );
        }
    }

    // Verify uniqueness (with high probability)
    let mut values = HashSet::new();

    values.insert(zobrist.side_to_move);
    for &val in &zobrist.castling_rights {
        values.insert(val);
    }
    for &val in &zobrist.en_passant {
        values.insert(val);
    }
    for square in 0..64 {
        for piece in 0..12 {
            values.insert(zobrist.pieces[square][piece]);
        }
    }

    // With 64*12 + 4 + 8 + 1 = 781 values, collisions are extremely unlikely
    let expected_unique = 64 * 12 + 4 + 8 + 1;
    assert_eq!(
        values.len(),
        expected_unique,
        "All Zobrist values should be unique"
    );
}

#[test]
fn test_hash_symmetry_operations() {
    let mut board = create_test_board();
    let original_hash = board.hash;

    // Test that XOR operations are symmetric
    let test_value = 0x1234567890ABCDEF;

    board.hash ^= test_value;
    assert_ne!(original_hash, board.hash, "Hash should change after XOR");

    board.hash ^= test_value;
    assert_eq!(
        original_hash, board.hash,
        "Hash should restore after second XOR"
    );
}

#[test]
fn test_incremental_hash_matches_full_hash() {
    // positions without castling rights or en passant target, so that the
    // hash set up from the FEN is the full hash
    for (fen, uci) in [
        ("4k3/8/8/8/8/8/4P3/4K3 w - - 0 1", "e2e4"),
        ("4k3/P7/8/8/8/8/8/4K3 w - - 0 1", "a7a8q"),
        ("4k3/8/8/3p4/4P3/8/8/4K3 w - - 0 1", "e4d5"),
    ] {
        let mut board = setup_game_with_fen(fen).get_chess_board().clone();
        assert_eq!(board.hash, board.zobrist_hash(Color::White));
        let mv = board.from_uci(uci).unwrap();
        board.make_move(&mv);
        assert_eq!(board.hash, board.zobrist_hash(Color::Black), "after {}", uci);
        // a reply keeps the full hash too
        let replies = board.generate_moves(Color::Black);
        let reply = replies[0];
        board.make_move(&reply);
        assert_eq!(board.hash, board.zobrist_hash(Color::White));
    }
}
