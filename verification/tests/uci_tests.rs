use std::sync::Arc;
use std::sync::atomic::Ordering;

use enrust::game_state::uci::{handle_command, handle_go_command, handle_position_command, GoAction, UciAction};
use enrust::game_state::{Color, GameState, Piece, TranspositionTable, Zobrist};

fn new_game() -> GameState {
    GameState::new(Arc::new(Zobrist::new()), Arc::new(TranspositionTable::new(4)))
}

fn piece_at(game: &GameState, square: &str) -> Piece {
    let board = game.get_chess_board();
    board.get_piece_on_square(board.algebraic_to_internal(square))
}

#[test]
fn test_simple_commands() {
    let mut game = new_game();
    assert_eq!(handle_command(&mut game, "uci"), UciAction::Identify);
    assert_eq!(handle_command(&mut game, "isready"), UciAction::Ready);
    assert_eq!(handle_command(&mut game, "quit"), UciAction::Quit);
    assert_eq!(handle_command(&mut game, "print"), UciAction::Print);
    assert_eq!(handle_command(&mut game, "  "), UciAction::Done);
    assert_eq!(handle_command(&mut game, "hello world"), UciAction::Unhandled);
    assert_eq!(handle_command(&mut game, "position"), UciAction::NoPositionArgs);
}

#[test]
fn test_ucinewgame_sets_start_position() {
    let mut game = new_game();
    assert_eq!(handle_command(&mut game, "ucinewgame"), UciAction::Done);
    assert_eq!(piece_at(&game, "e1"), Piece::WhiteKing);
    assert_eq!(game.generate_moves().len(), 20);
}

#[test]
fn test_position_startpos_with_moves() {
    let mut game = new_game();
    assert_eq!(handle_command(&mut game, "position startpos moves e2e4 e7e5 g1f3"), UciAction::Done);
    assert_eq!(piece_at(&game, "e4"), Piece::WhitePawn);
    assert_eq!(piece_at(&game, "e5"), Piece::BlackPawn);
    assert_eq!(piece_at(&game, "f3"), Piece::WhiteKnight);
    assert_eq!(game.get_side_to_move(), Color::Black);
}

#[test]
fn test_position_fen_with_moves() {
    let mut game = new_game();
    let line = "position fen r3k2r/pppppppp/8/8/8/8/PPPPPPPP/R3K2R w KQkq - 0 1 moves e1g1";
    assert_eq!(handle_command(&mut game, line), UciAction::Done);
    assert_eq!(piece_at(&game, "g1"), Piece::WhiteKing);
    assert_eq!(piece_at(&game, "f1"), Piece::WhiteRook);
    assert_eq!(game.get_side_to_move(), Color::Black);
    assert_eq!(game.get_ply_moves(), 1);
}

#[test]
fn test_position_fen_without_moves() {
    let mut game = new_game();
    assert!(handle_position_command(&mut game, "position fen 8/8/8/8/8/8/8/K6k b - - 3 9", 1));
    assert_eq!(game.get_side_to_move(), Color::Black);
    assert_eq!(game.get_ply_moves(), 12);
    assert_eq!(piece_at(&game, "a1"), Piece::WhiteKing);
}

#[test]
fn test_position_unknown_argument_changes_nothing() {
    let mut game = new_game();
    game.start_position();
    let hash = game.get_chess_board().hash;
    assert_eq!(handle_command(&mut game, "position something"), UciAction::Done);
    assert_eq!(game.get_chess_board().hash, hash);
}

#[test]
fn test_go_reads_time_control() {
    let mut game = new_game();
    game.start_position();
    let action = handle_command(&mut game, "go wtime 300000 btime 290000 winc 1000 binc 2000 movestogo 40");
    assert_eq!(action, UciAction::Go(GoAction::Search));
    let sc = game.get_search_control().as_ref().unwrap();
    assert_eq!(sc.wtime, Some(300000));
    assert_eq!(sc.btime, Some(290000));
    assert_eq!(sc.winc, Some(1000));
    assert_eq!(sc.binc, Some(2000));
    assert_eq!(sc.movestogo, Some(40));
    assert!(!sc.infinite);
}

#[test]
fn test_go_flags_limits_and_bad_numbers() {
    let mut game = new_game();
    game.start_position();
    let action = handle_go_command(&mut game, "go infinite ponder depth 7 nodes x movetime 250 mate 3 bogus", 1);
    assert_eq!(action, GoAction::Search);
    let sc = game.get_search_control().as_ref().unwrap();
    assert!(sc.infinite);
    assert!(sc.ponder);
    assert_eq!(sc.depth, Some(7));
    assert_eq!(sc.nodes, None);
    assert_eq!(sc.movetime, Some(250));
    assert_eq!(sc.mate, Some(3));
}

#[test]
fn test_go_mate_beyond_u32_is_ignored() {
    let mut game = new_game();
    game.start_position();
    assert_eq!(handle_go_command(&mut game, "go mate 4294967296", 1), GoAction::Search);
    assert_eq!(game.get_search_control().as_ref().unwrap().mate, None);
}

#[test]
fn test_go_searchmoves_stops_at_non_move() {
    let mut game = new_game();
    game.start_position();
    let action = handle_go_command(&mut game, "go searchmoves e2e4 d2d4 depth 3", 1);
    assert_eq!(action, GoAction::Search);
    let sc = game.get_search_control().as_ref().unwrap();
    let moves = sc.searchmoves.as_ref().unwrap();
    assert_eq!(moves.len(), 2);
    assert_eq!(moves[0], game.create_move("e2e4").unwrap());
    assert_eq!(moves[1], game.create_move("d2d4").unwrap());
    assert_eq!(sc.depth, Some(3));
}

#[test]
fn test_go_perft() {
    let mut game = new_game();
    game.start_position();
    assert_eq!(handle_command(&mut game, "go perft 3"), UciAction::Go(GoAction::Perft(3)));
    assert!(game.get_search_control().is_none());
    assert_eq!(handle_command(&mut game, "go perft"), UciAction::Go(GoAction::Idle));
    assert_eq!(handle_command(&mut game, "go depth 2 perft x"), UciAction::Go(GoAction::Idle));
    assert!(game.get_search_control().is_none());
}

#[test]
fn test_stop_command_sets_flag() {
    let mut game = new_game();
    let flag = game.get_stop_flag();
    assert_eq!(handle_command(&mut game, "stop"), UciAction::Done);
    assert!(flag.load(Ordering::Acquire));
}
