use std::sync::Arc;
use std::sync::atomic::Ordering;

use enrust::game_state::board::piece_list::PieceList;
use enrust::game_state::board::search::quiescence::quiescence;
use enrust::game_state::{CastlingRights, Color, GameState, Piece, SearchConfiguration, TranspositionTable, Zobrist};

const START_FEN: &str = "rnbqkbnr/pppppppp/8/8/8/8/PPPPPPPP/RNBQKBNR w KQkq - 0 1";

fn new_game() -> GameState {
    GameState::new(Arc::new(Zobrist::new()), Arc::new(TranspositionTable::new(4)))
}

fn piece_at(game: &GameState, square: &str) -> Piece {
    let board = game.get_chess_board();
    board.get_piece_on_square(board.algebraic_to_internal(square))
}

#[test]
fn test_new_game_is_empty_white_to_move() {
    let mut game = new_game();
    assert_eq!(game.get_side_to_move(), Color::White);
    assert_eq!(game.get_ply_moves(), 0);
    assert!(game.get_search_control().is_none());
    assert_eq!(piece_at(&game, "e1"), Piece::EmptySquare);
    assert!(game.generate_moves().is_empty());
}

#[test]
fn test_fen_start_position_fields() {
    let mut game = new_game();
    assert!(game.set_fen_position(START_FEN));
    assert_eq!(game.get_side_to_move(), Color::White);
    assert_eq!(game.get_ply_moves(), 1);
    assert_eq!(piece_at(&game, "e1"), Piece::WhiteKing);
    assert_eq!(piece_at(&game, "d8"), Piece::BlackQueen);
    assert_eq!(piece_at(&game, "e4"), Piece::EmptySquare);
    let rights = game.get_chess_board().castling_rights;
    assert_eq!(
        rights,
        CastlingRights { white_queenside: true, white_kingside: true, black_queenside: true, black_kingside: true }
    );
    assert_eq!(game.get_chess_board().en_passant_target, None);
    assert_eq!(game.generate_moves().len(), 20);
}

#[test]
fn test_start_position_matches_fen() {
    let mut game = new_game();
    game.start_position();
    assert_eq!(game.get_ply_moves(), 1);
    assert_eq!(piece_at(&game, "a8"), Piece::BlackRook);
    assert_eq!(game.generate_moves().len(), 20);
}

#[test]
fn test_fen_counters_are_summed() {
    let mut game = new_game();
    assert!(game.set_fen_position("8/8/8/8/8/8/8/K6k b - - 12 40"));
    assert_eq!(game.get_ply_moves(), 52);
    assert_eq!(game.get_side_to_move(), Color::Black);
    assert!(game.set_fen_position("8/8/8/8/8/8/8/K6k w - - +3 4"));
    assert_eq!(game.get_ply_moves(), 7);
}

#[test]
fn test_fen_en_passant_square() {
    let mut game = new_game();
    assert!(game.set_fen_position("rnbqkbnr/pppppppp/8/8/4P3/8/PPPP1PPP/RNBQKBNR b KQkq e3 0 1"));
    let board = game.get_chess_board();
    assert_eq!(board.en_passant_target, Some(board.algebraic_to_internal("e3")));
    assert_eq!(board.en_passant_target, Some(45));
}

#[test]
fn test_fen_invalid_character_changes_nothing() {
    let mut game = new_game();
    assert!(game.set_fen_position(START_FEN));
    assert!(!game.set_fen_position("rnbqkbnr/ppppxppp/8/8/8/8/PPPPPPPP/RNBQKBNR w KQkq - 0 1"));
    assert_eq!(piece_at(&game, "e7"), Piece::BlackPawn);
    assert_eq!(game.get_ply_moves(), 1);
}

#[test]
fn test_fen_empty_string_is_refused() {
    let mut game = new_game();
    assert!(!game.set_fen_position(""));
    assert!(!game.set_fen_position("   "));
    assert_eq!(game.get_side_to_move(), Color::White);
}

#[test]
fn test_fen_bad_side_keeps_side_but_sets_board() {
    let mut game = new_game();
    assert!(!game.set_fen_position("8/8/8/8/8/8/8/K6k x - - 0 1"));
    assert_eq!(game.get_side_to_move(), Color::White);
    assert_eq!(piece_at(&game, "a1"), Piece::WhiteKing);
    assert_eq!(piece_at(&game, "h1"), Piece::BlackKing);
}

#[test]
fn test_fen_missing_counters_refused() {
    let mut game = new_game();
    assert!(!game.set_fen_position("8/8/8/8/8/8/8/K6k b KQ -"));
    // the fields read up to the missing one are applied
    assert_eq!(game.get_side_to_move(), Color::Black);
    assert!(game.get_chess_board().castling_rights.white_kingside);
    assert_eq!(game.get_ply_moves(), 0);
}

#[test]
fn test_fen_invalid_castling_and_en_passant() {
    let mut game = new_game();
    assert!(!game.set_fen_position("8/8/8/8/8/8/8/K6k w KX - 0 1"));
    assert!(!game.set_fen_position("8/8/8/8/8/8/8/K6k w - z9 0 1"));
    assert!(!game.set_fen_position("8/8/8/8/8/8/8/K6k w - e33 0 1"));
    assert!(!game.set_fen_position("8/8/8/8/8/8/8/K6k w - - x 1"));
}

#[test]
fn test_fen_counter_overflow_refused() {
    let mut game = new_game();
    assert!(!game.set_fen_position("8/8/8/8/8/8/8/K6k w - - 18446744073709551615 1"));
    assert!(!game.set_fen_position("8/8/8/8/8/8/8/K6k w - - 18446744073709551616 0"));
    assert!(game.set_fen_position("8/8/8/8/8/8/8/K6k w - - 18446744073709551614 1"));
    assert_eq!(game.get_ply_moves(), u64::MAX);
}

#[test]
fn test_fen_dash_ends_castling_field() {
    let mut game = new_game();
    assert!(game.set_fen_position("r3k2r/8/8/8/8/8/8/R3K2R w -KQ - 0 1"));
    let rights = game.get_chess_board().castling_rights;
    assert!(!rights.white_kingside && !rights.white_queenside);
}

#[test]
fn test_make_move_by_uci() {
    let mut game = new_game();
    game.start_position();
    game.make_move("e2e4");
    assert_eq!(game.get_side_to_move(), Color::Black);
    assert_eq!(piece_at(&game, "e4"), Piece::WhitePawn);
    assert_eq!(piece_at(&game, "e2"), Piece::EmptySquare);
    assert_eq!(game.get_chess_board().en_passant_target, Some(game.get_chess_board().algebraic_to_internal("e3")));
}

#[test]
fn test_make_move_from_empty_square_does_nothing() {
    let mut game = new_game();
    game.start_position();
    let hash = game.get_chess_board().hash;
    game.make_move("e4e5");
    game.make_move("zz");
    assert_eq!(game.get_side_to_move(), Color::White);
    assert_eq!(game.get_chess_board().hash, hash);
}

#[test]
fn test_generate_moves_in_uci() {
    let mut game = new_game();
    assert!(game.set_fen_position("4k3/P7/8/8/8/8/8/4K3 w - - 0 1"));
    let moves = game.generate_moves();
    for promotion in ["a7a8q", "a7a8r", "a7a8b", "a7a8n"] {
        assert!(moves.contains(&promotion.to_string()), "missing {}", promotion);
    }
    assert!(moves.contains(&"e1d1".to_string()));
}

#[test]
fn test_perft_depth_zero_is_one() {
    let mut game = new_game();
    game.start_position();
    assert_eq!(game.perft_debug(0), 1);
}

#[test]
fn test_perft_divide_sums_to_perft() {
    let mut game = new_game();
    game.start_position();
    let lines = game.perft_divide(3);
    assert_eq!(lines.len(), 20);
    let total: u64 = lines.iter().map(|(_, n)| *n).sum();
    assert_eq!(total, 8902);
    assert_eq!(game.perft_debug(3), 8902);
    let e2e4 = lines.iter().find(|(m, _)| m == "e2e4").unwrap();
    assert_eq!(e2e4.1, 600);
}

#[test]
fn test_perft_leaves_position_unchanged() {
    let mut game = new_game();
    assert!(game.set_fen_position("r3k2r/p1ppqpb1/bn2pnp1/3PN3/1p2P3/2N2Q1p/PPPBBPPP/R3K2R w KQkq - 0 1"));
    let before = game.get_chess_board().clone();
    assert_eq!(game.perft_debug(2), 2039);
    let after = game.get_chess_board();
    assert_eq!(before.hash, after.hash);
    assert_eq!(before.board_squares, after.board_squares);
    assert_eq!(before.castling_rights, after.castling_rights);
    assert_eq!(game.get_side_to_move(), Color::White);
}

#[test]
fn test_perft_same_position_same_count() {
    let mut a = new_game();
    let mut b = new_game();
    assert!(a.set_fen_position("8/2p5/3p4/KP5r/1R3p1k/8/4P1P1/8 w - - 0 1"));
    assert!(b.set_fen_position("8/2p5/3p4/KP5r/1R3p1k/8/4P1P1/8 w - - 0 1"));
    assert_eq!(a.perft_debug(3), b.perft_debug(3));
}

#[test]
fn test_set_time_control_copies_configuration() {
    let mut game = new_game();
    game.start_position();
    let mut sc = SearchConfiguration::new();
    sc.wtime = Some(60000);
    sc.btime = Some(50000);
    sc.infinite = true;
    sc.searchmoves = Some(vec![game.create_move("e2e4").unwrap()]);
    game.set_time_control(&sc);
    let control = game.get_search_control().as_ref().unwrap();
    assert_eq!(control.wtime, Some(60000));
    assert_eq!(control.btime, Some(50000));
    assert!(control.infinite);
    assert_eq!(control.searchmoves.as_ref().unwrap().len(), 1);
    assert_eq!(control.searchmoves.as_ref().unwrap()[0], game.create_move("e2e4").unwrap());
}

#[test]
fn test_search_configuration_new_is_unset() {
    let sc = SearchConfiguration::new();
    assert!(sc.wtime.is_none() && sc.btime.is_none() && sc.winc.is_none() && sc.binc.is_none());
    assert!(sc.movestogo.is_none() && sc.movetime.is_none() && sc.depth.is_none() && sc.nodes.is_none());
    assert!(!sc.infinite && !sc.ponder && sc.searchmoves.is_none() && sc.mate.is_none());
}

#[test]
fn test_stop_search_sets_shared_flag() {
    let game = new_game();
    let flag = game.get_stop_flag();
    assert!(!flag.load(Ordering::Acquire));
    game.stop_search();
    assert!(flag.load(Ordering::Acquire));
}

#[test]
fn test_resize_hash_table_keeps_position() {
    let mut game = new_game();
    game.start_position();
    let hash = game.get_chess_board().hash;
    game.resize_hash_table(1);
    assert_eq!(game.get_chess_board().hash, hash);
    assert_eq!(game.generate_moves().len(), 20);
}

#[test]
fn test_quiescence_stays_within_window() {
    let mut game = new_game();
    assert!(game.set_fen_position("k7/8/8/3q4/3Q4/8/8/K7 w - - 0 1"));
    let mut board = game.get_chess_board().clone();
    let hash = board.hash;
    let r = quiescence(&mut board, -100, 100, Color::White);
    assert!(-100 <= r && r <= 100);
    assert_eq!(board.hash, hash);
    let wide = quiescence(&mut board, -32767, 32767, Color::White);
    assert!(-32767 <= wide && wide <= 32767);
}

#[test]
fn test_make_unmake_restores_every_generated_move() {
    let mut game = new_game();
    assert!(game.set_fen_position("r3k2r/Pppp1ppp/1b3nbN/nP6/BBP1P3/q4N2/Pp1P2PP/R2Q1RK1 w kq - 0 1"));
    let mut board = game.get_chess_board().clone();
    let moves = board.generate_moves(Color::White);
    for mv in &moves {
        let squares = board.board_squares;
        let hash = board.hash;
        let rights = board.castling_rights;
        let ep = board.en_passant_target;
        board.make_move(mv);
        board.unmake_move(mv);
        assert_eq!(board.board_squares, squares);
        assert_eq!(board.hash, hash);
        assert_eq!(board.castling_rights, rights);
        assert_eq!(board.en_passant_target, ep);
    }
}

#[test]
fn test_king_steps_never_end_attacked() {
    let mut game = new_game();
    assert!(game.set_fen_position("8/8/8/3k4/8/2r5/4K3/8 w - - 0 1"));
    let mut board = game.get_chess_board().clone();
    let moves = board.generate_moves(Color::White);
    assert!(!moves.is_empty());
    for mv in &moves {
        assert_eq!(mv.piece, Piece::WhiteKing);
        board.make_move(mv);
        let attacked = board.piece_list.is_square_attacked(&board, mv.to, Color::Black);
        board.unmake_move(mv);
        assert!(!attacked, "king stepped into attack: {}", mv.to_uci(&board));
    }
}

#[test]
fn test_pinned_pieces_keep_the_king_safe() {
    let mut game = new_game();
    assert!(game.set_fen_position("4k3/4r3/8/b7/8/8/3NR3/4K3 w - - 0 1"));
    let mut board = game.get_chess_board().clone();
    let king = board.piece_list.get_list(Piece::WhiteKing).unwrap()[0];
    let moves = board.generate_moves(Color::White);
    let mut rook_moves = Vec::new();
    for mv in &moves {
        assert_ne!(mv.piece, Piece::WhiteKnight);
        if mv.piece == Piece::WhiteRook {
            rook_moves.push(mv.to_uci(&board));
        }
        board.make_move(mv);
        let attacked = board.piece_list.is_square_attacked(&board, king, Color::Black);
        board.unmake_move(mv);
        if mv.piece != Piece::WhiteKing {
            assert!(!attacked, "move left the king attacked: {}", mv.to_uci(&board));
        }
    }
    rook_moves.sort();
    assert_eq!(rook_moves, vec!["e2e3", "e2e4", "e2e5", "e2e6", "e2e7"]);
}

fn assert_moves_keep_king_safe(fen: &str) -> usize {
    let mut game = new_game();
    assert!(game.set_fen_position(fen));
    let mut board = game.get_chess_board().clone();
    let king = board.piece_list.get_list(Piece::WhiteKing).unwrap()[0];
    let moves = board.generate_moves(Color::White);
    for mv in &moves {
        board.make_move(mv);
        let square = if mv.piece == Piece::WhiteKing { mv.to } else { king };
        let attacked = board.piece_list.is_square_attacked(&board, square, Color::Black);
        board.unmake_move(mv);
        assert!(!attacked, "move left the king attacked: {}", mv.to_uci(&board));
    }
    moves.len()
}

#[test]
fn test_single_check_evasions_keep_the_king_safe() {
    // rook check along the e-file: block on e2..e7 or capture, or step aside
    assert!(assert_moves_keep_king_safe("4r1k1/8/8/8/8/2N5/1B6/R3K3 w - - 0 1") > 0);
    // knight check: capture it or move the king
    assert!(assert_moves_keep_king_safe("6k1/8/8/8/8/3n4/2B5/4K3 w - - 0 1") > 0);
}

#[test]
fn test_pawn_moves_keep_the_king_safe() {
    // pawn pinned along the file may only push; the other pawns move freely
    assert!(assert_moves_keep_king_safe("4r1k1/8/8/8/8/8/3PP3/4K3 w - - 0 1") > 0);
    // en passant that would expose the king along the rank is not generated
    let mut game = new_game();
    assert!(game.set_fen_position("8/8/8/K2pP2r/8/8/8/7k w - d6 0 1"));
    let moves = game.generate_moves();
    assert!(!moves.contains(&"e5d6".to_string()));
    assert_moves_keep_king_safe("8/8/8/K2pP2r/8/8/8/7k w - d6 0 1");
}

fn square_names() -> Vec<String> {
    let mut names = Vec::new();
    for rank in 1..=8 {
        for file in ["a", "b", "c", "d", "e", "f", "g", "h"] {
            names.push(format!("{}{}", file, rank));
        }
    }
    names
}

/// The white knight, bishop, rook, queen and king steps that follow the
/// pieces' rules and leave the king unattacked, found by trying every pair
/// of squares, and the generated moves of those pieces (castling aside).
fn brute_force_and_generated(fen: &str) -> (Vec<String>, Vec<String>) {
    let mut game = new_game();
    assert!(game.set_fen_position(fen));
    let mut board = game.get_chess_board().clone();
    let king = board.piece_list.get_list(Piece::WhiteKing).unwrap()[0];
    let mut expected = Vec::new();
    for from_name in square_names() {
        let from = board.algebraic_to_internal(&from_name);
        let piece = board.get_piece_on_square(from);
        for to_name in square_names() {
            let to = board.algebraic_to_internal(&to_name);
            let target = board.get_piece_on_square(to);
            if target.is_white() && target != Piece::EmptySquare || target == Piece::BlackKing || from == to {
                continue;
            }
            let follows_rules = match piece {
                Piece::WhiteKnight => PieceList::knight_attack(&board, from, to),
                Piece::WhiteBishop => PieceList::bishop_attack(&board, from, to),
                Piece::WhiteRook => PieceList::rook_attack(&board, from, to),
                Piece::WhiteQueen => PieceList::queen_attack(&board, from, to),
                Piece::WhiteKing => PieceList::king_attack(&board, from, to),
                _ => false,
            };
            if !follows_rules {
                continue;
            }
            let uci = format!("{}{}", from_name, to_name);
            let mv = board.from_uci(&uci).unwrap();
            board.make_move(&mv);
            let square = if piece == Piece::WhiteKing { to } else { king };
            let attacked = board.piece_list.is_square_attacked(&board, square, Color::Black);
            board.unmake_move(&mv);
            if !attacked {
                expected.push(uci);
            }
        }
    }
    let mut generated: Vec<String> = board
        .generate_moves(Color::White)
        .iter()
        .filter(|mv| mv.piece != Piece::WhitePawn && mv.castling.is_none())
        .map(|mv| mv.to_uci(&board))
        .collect();
    expected.sort();
    generated.sort();
    (expected, generated)
}

#[test]
fn test_piece_moves_complete_when_not_in_check() {
    for fen in [
        START_FEN,
        "4k3/4r3/8/b7/8/2Q5/3NR3/4K2B w - - 0 1",
        "r3k2r/p1ppqpb1/bn2pnp1/3PN3/1p2P3/2N2Q1p/PPPBBPPP/R3K2R w KQkq - 0 1",
    ] {
        let (expected, generated) = brute_force_and_generated(fen);
        assert!(!expected.is_empty());
        assert_eq!(expected, generated, "{}", fen);
    }
}

#[test]
fn test_piece_moves_complete_in_single_check() {
    for fen in ["4k3/8/8/8/4r3/8/2N3B1/R3K3 w - - 0 1", "4k3/8/8/8/8/5n2/1Q6/4K2R w - - 0 1"] {
        let (expected, generated) = brute_force_and_generated(fen);
        assert!(!expected.is_empty());
        assert_eq!(expected, generated, "{}", fen);
    }
}

#[test]
fn test_pawn_moves_complete() {
    for fen in [
        "r3k3/1P6/8/3p4/4P3/8/P7/4K3 w - - 0 1",
        "4k3/8/8/8/1r6/8/P1P5/4K3 w - - 0 1",
        "4k3/8/8/8/8/2b5/3P4/4K3 w - - 0 1",
        "4r1k1/8/8/8/8/8/4P3/4K3 w - - 0 1",
        "4k3/8/8/b7/8/8/2P5/4K3 w - - 0 1",
    ] {
        let mut game = new_game();
        assert!(game.set_fen_position(fen));
        let mut board = game.get_chess_board().clone();
        let king = board.piece_list.get_list(Piece::WhiteKing).unwrap()[0];
        let names = square_names();
        let name_of = |square: i16, board: &enrust::game_state::ChessBoard| -> String {
            names.iter().find(|n| board.algebraic_to_internal(n) == square).unwrap().clone()
        };
        let mut expected = Vec::new();
        for from_name in square_names() {
            let from = board.algebraic_to_internal(&from_name);
            if board.get_piece_on_square(from) != Piece::WhitePawn {
                continue;
            }
            let mut targets = Vec::new();
            if board.get_piece_on_square(from + 10) == Piece::EmptySquare {
                targets.push(from + 10);
                if from / 10 == 3 && board.get_piece_on_square(from + 20) == Piece::EmptySquare {
                    targets.push(from + 20);
                }
            }
            for to in [from + 9, from + 11] {
                let target = board.get_piece_on_square(to);
                if target != Piece::EmptySquare && target != Piece::SentinelSquare && !target.is_white() && target != Piece::BlackKing {
                    targets.push(to);
                }
            }
            for to in targets {
                let base = format!("{}{}", from_name, name_of(to, &board));
                let ucis: Vec<String> = if to / 10 == 9 {
                    ["q", "r", "b", "n"].iter().map(|p| format!("{}{}", base, p)).collect()
                } else {
                    vec![base]
                };
                for uci in ucis {
                    let mv = board.from_uci(&uci).unwrap();
                    board.make_move(&mv);
                    let attacked = board.piece_list.is_square_attacked(&board, king, Color::Black);
                    board.unmake_move(&mv);
                    if !attacked {
                        expected.push(uci);
                    }
                }
            }
        }
        let mut generated: Vec<String> = board
            .generate_moves(Color::White)
            .iter()
            .filter(|mv| mv.piece == Piece::WhitePawn && !mv.en_passant)
            .map(|mv| mv.to_uci(&board))
            .collect();
        expected.sort();
        generated.sort();
        assert!(!expected.is_empty());
        assert_eq!(expected, generated, "{}", fen);
    }
}

#[test]
fn test_double_check_leaves_only_king_steps() {
    let (expected, generated) = brute_force_and_generated("4k3/8/8/8/3Q4/5n2/8/r3K1B1 w - - 0 1");
    assert!(!expected.is_empty());
    assert!(expected.iter().all(|uci| uci.starts_with("e1")));
    assert_eq!(expected, generated);
}

#[test]
fn test_king_steps_complete_in_check() {
    let (expected, generated) = brute_force_and_generated("4k3/8/8/8/8/8/8/r3K3 w - - 0 1");
    let king_steps: Vec<String> = expected.iter().filter(|uci| uci.starts_with("e1")).cloned().collect();
    let generated_steps: Vec<String> = generated.iter().filter(|uci| uci.starts_with("e1")).cloned().collect();
    assert!(!king_steps.is_empty());
    assert_eq!(king_steps, generated_steps);
}

#[test]
fn test_uci_text_roundtrip() {
    let mut game = new_game();
    assert!(game.set_fen_position("4k3/P7/8/8/8/8/4P3/4K3 w - - 0 1"));
    let board = game.get_chess_board().clone();
    for text in ["e2e4", "e2e3", "a7a8q", "a7a8n", "e1d1"] {
        let mv = board.from_uci(text).unwrap();
        assert_eq!(board.move_to_uci(&mv), text);
    }
}
