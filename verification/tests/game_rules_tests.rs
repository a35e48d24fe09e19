use std::sync::Arc;

use enrust::game_state::board::transposition_table::{NodeType, TranspositionTable, TranspositionTableData};
use enrust::game_state::board::evaluation::{GamePhase, TaperedScore};
use enrust::game_state::uci::{setoption_action, SetOptionAction};
use enrust::game_state::{Color, GameState, Move, Piece};

const START_FEN: &str = "rnbqkbnr/pppppppp/8/8/8/8/PPPPPPPP/RNBQKBNR w KQkq - 0 1";

#[test]
fn test_en_passant_read_from_uci_text() {
    let mut game = GameState::default();
    assert!(game.set_fen_position("rnbqkbnr/pp2pppp/8/2ppP3/8/8/PPPP1PPP/RNBQKBNR w KQkq d6 0 1"));
    let mut board = game.get_chess_board().clone();
    let m = Move::parse_algebraic_move(&board, "e5d6").unwrap();
    assert_eq!(m.from, 65);
    assert_eq!(m.to, 74);
    assert_eq!(m.piece, Piece::WhitePawn);
    assert_eq!(m.captured_piece, Piece::EmptySquare);
    assert!(m.en_passant);
    assert_eq!(m.previous_en_passant, Some(74));
    assert!(m.is_capture());
    board.make_move(&m);
    assert_eq!(board.get_piece_on_square(64), Piece::EmptySquare);
    assert_eq!(board.get_piece_on_square(74), Piece::WhitePawn);
}

#[test]
fn test_generated_en_passant_round_trips_through_uci() {
    let mut game = GameState::default();
    assert!(game.set_fen_position("rnbqkbnr/pp2pppp/8/2ppP3/8/8/PPPP1PPP/RNBQKBNR w KQkq d6 0 1"));
    let mut board = game.get_chess_board().clone();
    let moves = board.generate_moves(Color::White);
    let ep: Vec<Move> = moves.iter().copied().filter(|m| m.en_passant).collect();
    assert_eq!(ep.len(), 1);
    assert!(ep[0].is_capture());
    for mv in &moves {
        assert_eq!(board.from_uci(&board.move_to_uci(mv)), Some(*mv));
    }
}

#[test]
fn test_unmake_move_takes_back_the_last_move() {
    let mut game = GameState::default();
    assert!(game.set_fen_position(START_FEN));
    let hash = game.get_chess_board().hash;
    game.make_move("e2e4");
    assert_eq!(game.get_chess_board().get_piece_on_square(55), Piece::WhitePawn);
    game.unmake_move("e2e4");
    let board = game.get_chess_board();
    assert_eq!(board.get_piece_on_square(35), Piece::WhitePawn);
    assert_eq!(board.get_piece_on_square(55), Piece::EmptySquare);
    assert_eq!(board.en_passant_target, None);
    assert_eq!(board.hash, hash);
    assert_eq!(game.get_side_to_move(), Color::White);
    assert_eq!(game.generate_moves().len(), 20);
}

#[test]
fn test_unmake_move_of_another_move_changes_nothing() {
    let mut game = GameState::default();
    assert!(game.set_fen_position(START_FEN));
    game.make_move("e2e4");
    let hash = game.get_chess_board().hash;
    game.unmake_move("d2d4");
    assert_eq!(game.get_chess_board().hash, hash);
    assert_eq!(game.get_side_to_move(), Color::Black);
}

#[test]
fn test_start_position_clears_en_passant_target() {
    let mut game = GameState::default();
    assert!(game.set_fen_position("rnbqkbnr/pppppppp/8/8/4P3/8/PPPP1PPP/RNBQKBNR b KQkq e3 0 1"));
    assert!(game.get_chess_board().en_passant_target.is_some());
    game.start_position();
    let mut fresh = GameState::default();
    assert!(fresh.set_fen_position(START_FEN));
    assert_eq!(game.get_chess_board().en_passant_target, None);
    assert_eq!(game.get_chess_board().board_squares, fresh.get_chess_board().board_squares);
    assert_eq!(game.get_side_to_move(), Color::White);
    assert_eq!(game.generate_moves().len(), 20);
}

#[test]
fn test_fen_hash_is_full_hash_of_new_position() {
    let mut game = GameState::default();
    assert!(game.set_fen_position("rnbqkbnr/pppppppp/8/8/4P3/8/PPPP1PPP/RNBQKBNR b KQkq e3 0 1"));
    let board = game.get_chess_board();
    assert_eq!(board.get_piece_on_square(55), Piece::WhitePawn);
    assert_eq!(board.get_piece_on_square(35), Piece::EmptySquare);
    assert_eq!(board.en_passant_target, Some(45));
    assert_eq!(game.get_side_to_move(), Color::Black);
    assert_eq!(board.hash, board.zobrist_hash(Color::Black));
}

#[test]
fn test_resize_discards_entries() {
    let mut tt = TranspositionTable::new(4);
    let h = 0x123456789ABCDEF0;
    tt.save_position(h, &TranspositionTableData { score: 150, depth: 8, node_type: NodeType::Exact, best_move: 0x1543, age: 1 });
    assert!(tt.retrieve_position(h).is_some());
    let t2 = tt.resize(8);
    assert!(tt.retrieve_position(h).is_none());
    assert!(t2.retrieve_position(h).is_none());
    let _shared = Arc::new(t2);
}

fn uci_moves(fen: &str, color: Color) -> Vec<String> {
    let mut game = GameState::default();
    assert!(game.set_fen_position(fen));
    let mut board = game.get_chess_board().clone();
    let moves = board.generate_moves(color);
    let mut ucis: Vec<String> = moves.iter().map(|m| board.move_to_uci(m)).collect();
    ucis.sort();
    ucis
}

#[test]
fn test_king_in_check_lists_every_attacker() {
    let mut game = GameState::default();
    assert!(game.set_fen_position("8/8/8/8/8/8/8/r3K2r w - - 0 1"));
    let board = game.get_chess_board();
    let attackers = board.piece_list.is_king_in_check(board, Color::White);
    assert!(attackers.contains(&(Piece::BlackRook, 21)));
    assert!(attackers.contains(&(Piece::BlackRook, 28)));
    assert_eq!(attackers.len(), 2);
}

#[test]
fn test_double_check_by_two_rooks_allows_only_king_moves() {
    let ucis = uci_moves("8/8/8/8/8/8/2N5/r3K2r w - - 0 1", Color::White);
    assert_eq!(ucis, vec!["e1d2".to_string(), "e1e2".to_string(), "e1f2".to_string()]);
}

#[test]
fn test_diagonally_pinned_pawn_captures_only_along_the_pin() {
    let ucis = uci_moves("7k/8/8/8/1n1b4/2P5/8/K7 w - - 0 1", Color::White);
    let pawn: Vec<&String> = ucis.iter().filter(|u| u.starts_with("c3")).collect();
    assert_eq!(pawn, vec![&"c3d4".to_string()]);
}

#[test]
fn test_setoption_reads_hash_size() {
    assert_eq!(setoption_action("setoption name Hash value 64", 1), SetOptionAction::ResizeHash(64));
    assert_eq!(setoption_action("setoption name Hash value 4096", 1), SetOptionAction::HashOutOfRange(4096));
    assert_eq!(setoption_action("setoption name Hash value big", 1), SetOptionAction::InvalidHash);
    assert_eq!(setoption_action("setoption name Hash value 1 2", 1), SetOptionAction::InvalidHash);
    assert_eq!(setoption_action("setoption name Hash", 1), SetOptionAction::InvalidHash);
    assert_eq!(setoption_action("setoption name Threads value 2", 1), SetOptionAction::Unsupported);
    assert_eq!(setoption_action("setoption name value 2", 1), SetOptionAction::MissingOptionName);
    assert_eq!(setoption_action("setoption Hash value 2", 1), SetOptionAction::MissingName);
}

#[test]
fn test_interpolate_any_phase() {
    let t = TaperedScore::new(100, 20);
    assert_eq!(t.interpolate(&GamePhase { phase: 256 }), 100);
    assert_eq!(t.interpolate(&GamePhase { phase: 0 }), 20);
    assert_eq!(t.interpolate(&GamePhase { phase: 128 }), 60);
    assert_eq!(t.interpolate(&GamePhase { phase: 512 }), 180);
}
