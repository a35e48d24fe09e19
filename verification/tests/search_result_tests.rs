use std::sync::Arc;
use std::sync::atomic::AtomicBool;

use enrust::game_state::board::evaluation::{CompositeEvaluator, Evaluator};
use enrust::game_state::board::search::quiescence::quiescence;
use enrust::game_state::board::search::{DepthFirst, IterativeDeepening, PureMinimax, PureNegamax, Search, SearchAlgorithm};
use enrust::game_state::{ChessBoard, Color, GameState};
use enrust::game_state::board::moves::Move;
use enrust::game_state::board::search::minimax_alpha_beta::minimax_alpha_beta;
use enrust::game_state::board::transposition_table::NodeType;

fn board_of(fen: &str) -> ChessBoard {
    let mut game = GameState::default();
    assert!(game.set_fen_position(fen));
    game.get_chess_board().clone()
}

fn no_stop() -> Arc<AtomicBool> {
    Arc::new(AtomicBool::new(false))
}

// Black is checkmated: queen on b7 guarded by the king on b6.
const MATED_BLACK: &str = "k7/1Q6/1K6/8/8/8/8/8 b - - 0 1";

#[test]
fn test_root_search_without_moves_gives_zero_and_no_move() {
    let mut board = board_of(MATED_BLACK);
    assert!(board.generate_moves(Color::Black).is_empty());
    assert_eq!(PureNegamax.search(&mut board, 2, Color::Black, no_stop()).0, (0, None));
    assert_eq!(PureMinimax.search(&mut board, 1, Color::Black, no_stop()).0, (0, None));
}

#[test]
fn test_tree_search_without_moves_is_worst_score() {
    let mut board = board_of(MATED_BLACK);
    assert_eq!(PureNegamax.tree_search(&mut board, 1, Color::Black, no_stop()).0, -32767);
    assert_eq!(PureMinimax.tree_search(&mut board, 3, Color::Black, no_stop()).0, -32767);
}

#[test]
fn test_tree_search_depth_zero_is_evaluation_from_side_to_move() {
    let mut board = board_of("k7/8/8/8/8/8/8/KQ6 w - - 0 1");
    let eval = board.evaluate();
    assert!(eval > 0);
    assert_eq!(PureNegamax.tree_search(&mut board, 0, Color::White, no_stop()).0, eval);
    assert_eq!(PureMinimax.tree_search(&mut board, 0, Color::Black, no_stop()).0, -eval);
}

#[test]
fn test_depth_first_without_moves_gives_zero_and_no_move() {
    let mut board = board_of(MATED_BLACK);
    let strategy = DepthFirst::new(PureNegamax, 2);
    assert_eq!(strategy.search(&mut board, Color::Black, no_stop()).0, (0, None));
}

#[test]
fn test_iterative_deepening_depth_zero_gives_worst_score() {
    let mut board = board_of("rnbqkbnr/pppppppp/8/8/8/8/PPPPPPPP/RNBQKBNR w KQkq - 0 1");
    let strategy = IterativeDeepening::new(PureNegamax, 0);
    assert_eq!(strategy.search(&mut board, Color::White, no_stop()).0, (i16::MIN, None));
    assert_eq!(strategy.search(&mut board, Color::Black, no_stop()).0, (i16::MAX, None));
}

#[test]
fn test_iterative_deepening_without_moves_finds_no_move() {
    let mut board = board_of(MATED_BLACK);
    let strategy = IterativeDeepening::new(PureNegamax, 2);
    assert_eq!(strategy.search(&mut board, Color::Black, no_stop()).0, (0, None));
}

#[test]
fn test_board_search_without_moves_is_none() {
    let mut board = board_of(MATED_BLACK);
    assert_eq!(board.search(Color::Black, no_stop()).0, None);
}

#[test]
fn test_quiescence_without_captures_is_stand_pat() {
    let mut board = board_of("k7/8/8/8/8/8/8/KQ6 w - - 0 1");
    let eval = board.evaluate();
    assert_eq!(quiescence(&mut board, -32767, 32767, Color::White), eval);
    assert_eq!(quiescence(&mut board, -32767, 100, Color::White), 100);
}

#[test]
fn test_composite_evaluate_incremental_defaults_to_full_evaluation() {
    let board = board_of("rnbqkbnr/pppppppp/8/8/8/8/PPPPPPPP/RNBQKBNR w KQkq - 0 1");
    let evaluator = CompositeEvaluator::default();
    let full = evaluator.evaluate(&board);
    let mv = board.clone().generate_moves(Color::White)[0];
    assert_eq!(evaluator.evaluate_incremental(&board, &mv, 1234), full);
}

#[test]
fn test_composite_without_components_keeps_previous_score() {
    let board = board_of("rnbqkbnr/pppppppp/8/8/8/8/PPPPPPPP/RNBQKBNR w KQkq - 0 1");
    let evaluator = CompositeEvaluator::new(Vec::new());
    assert_eq!(evaluator.evaluate(&board), 0);
    let mv = board.clone().generate_moves(Color::White)[0];
    assert_eq!(evaluator.evaluate_incremental(&board, &mv, 1234), 1234);
    assert_eq!(evaluator.evaluate_incremental(&board, &mv, i16::MIN), -32767);
}

#[test]
fn test_board_search_with_moves_gives_a_legal_move() {
    let mut board = board_of("k7/8/8/8/8/8/8/KQ6 w - - 0 1");
    let moves = board.generate_moves(Color::White);
    let best = board.search(Color::White, no_stop()).0.unwrap();
    assert!(moves.contains(&best));
}

#[test]
fn test_negamax_finds_mate_in_one_with_every_algorithm() {
    // Ra8 mates: the black king on h8 is boxed in by its own pawns.
    let mut board = board_of("7k/6pp/8/8/8/8/8/R5K1 w - - 0 1");
    let negamax = PureNegamax.search(&mut board, 2, Color::White, no_stop()).0;
    let alpha_beta = enrust::game_state::board::search::MinimaxAlphaBeta.search(&mut board, 2, Color::White, no_stop()).0;
    assert_eq!(negamax.0, 32767);
    assert_eq!(alpha_beta.0, 32767);
    let uci = board.move_to_uci(&negamax.1.unwrap());
    assert_eq!(uci, "a1a8");
}

#[test]
fn test_searches_agree_across_strategies() {
    let mut board = board_of("7k/6pp/8/8/8/8/8/R5K1 w - - 0 1");
    let traced = PureNegamax.search(&mut board, 2, Color::White, no_stop()).0;
    let best = board.search(Color::White, no_stop()).0;
    assert!(best.is_some());
    let strategy = IterativeDeepening::new(PureNegamax, 2);
    let deepened = strategy.search(&mut board, Color::White, no_stop()).0;
    assert_eq!(deepened, traced);
}

#[test]
fn test_alpha_beta_stores_its_result_and_best_move() {
    let mut board = board_of("k7/8/8/8/8/8/8/KQ6 w - - 0 1");
    let moves = board.generate_moves(Color::White);
    let (score, _) = minimax_alpha_beta(&mut board, 1, -32767, 32767, Color::White, no_stop());
    let entry = board.transposition_table.retrieve_position(board.hash).unwrap();
    assert_eq!(entry.score, score);
    assert_eq!(entry.depth, 1);
    assert_eq!(entry.age, 0);
    assert!(matches!(entry.node_type, NodeType::Exact));
    let best = Move::decode(entry.best_move, &board).unwrap();
    let best_uci = board.move_to_uci(&best);
    assert!(moves.iter().any(|m| board.move_to_uci(m) == best_uci));
}

#[test]
fn test_alpha_beta_below_the_window_stores_an_upper_bound_without_move() {
    // Black to move with a bare king against king and queen: every reply
    // scores below a window that starts at a rook's worth.
    let mut board = board_of("k7/8/8/8/8/8/8/KQ6 b - - 0 1");
    let (score, _) = minimax_alpha_beta(&mut board, 1, 500, 600, Color::Black, no_stop());
    assert!(score <= 500);
    let entry = board.transposition_table.retrieve_position(board.hash).unwrap();
    assert_eq!(entry.score, score);
    assert!(matches!(entry.node_type, NodeType::UpperBound));
    assert_eq!(entry.best_move, 0);
}

#[test]
fn test_board_search_with_a_filled_table_still_gives_a_move() {
    let mut board = board_of("k7/8/8/8/8/8/8/KQ6 w - - 0 1");
    let moves = board.generate_moves(Color::White);
    let first = board.search(Color::White, no_stop()).0.unwrap();
    let second = board.search(Color::White, no_stop()).0.unwrap();
    assert!(moves.contains(&first));
    assert!(moves.contains(&second));
}

#[test]
fn test_generated_moves_share_no_origin_target_and_promotion() {
    // Promotions on a7-a8 and captures onto b8, an en passant capture on
    // d6, and castling on both sides.
    let mut board = board_of("1r2k3/P7/8/3pP3/8/8/8/R3K2R w KQ d6 0 1");
    let moves = board.generate_moves(Color::White);
    assert!(moves.len() > 20);
    for i in 0..moves.len() {
        for j in (i + 1)..moves.len() {
            let a = &moves[i];
            let b = &moves[j];
            assert!(!(a.from == b.from && a.to == b.to && a.promotion == b.promotion));
        }
    }
}
