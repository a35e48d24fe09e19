//! Minimax with alpha-beta pruning in the negamax form, with a
//! transposition table and captures searched first.

use std::sync::Arc;
use std::sync::atomic::AtomicBool;
use vstd::prelude::*;

use crate::game_state::board::{same_position, ChessBoard};
use crate::game_state::board::moves::{encoded, Move};
use crate::game_state::board::piece::Color;
use crate::game_state::board::piece_list::movegen::all_fit;
use crate::game_state::board::position::share;
use crate::game_state::board::search::{lemma_quiet_concat, no_stop, quiet, white_side, Reading, lemma_fits_same_position, lemma_undoable_same_position, restored, stop_requested, SearchAlgorithm};
use crate::game_state::board::transposition_table::{NodeType, TranspositionTableData};
use crate::game_state::board::piece_list::movegen::legal_moves;
use crate::game_state::board::search::values::{ab_from, ab_value, lemma_ab_congruent, lemma_negamax_congruent, negamax, search_order};
use crate::game_state::board::search::alpha_beta_law::{lemma_ab_matches_negamax, lemma_alpha_beta_is_negamax};
use crate::game_state::board::analysis::{clamp_score, material};
use crate::game_state::perft::{after_move, can_make};

verus! {

/// Minimax search with alpha-beta pruning and a transposition table.
pub struct MinimaxAlphaBeta;

impl SearchAlgorithm for MinimaxAlphaBeta {
    /// The negamax value, which alpha-beta in the full window computes (see
    /// [`lemma_alpha_beta_is_negamax`]).
    open spec fn search_value(&self, b: ChessBoard, depth: nat, side: Color) -> int {
        negamax(b, depth, side)
    }

    proof fn lemma_search_value_congruent(&self, b1: ChessBoard, b2: ChessBoard, depth: nat, side: Color) {
        lemma_negamax_congruent(b1, b2, depth, side);
    }

    fn tree_search(&self, board: &mut ChessBoard, depth: u8, side_to_move: Color, stop_flag: Arc<AtomicBool>) -> (r: (
        i16,
        Ghost<Seq<Reading>>,
    )) {
        let ghost b0 = *board;
        let r = minimax_alpha_beta(board, depth, i16::MIN + 1, i16::MAX, side_to_move, stop_flag);
        proof {
            lemma_alpha_beta_is_negamax(b0, depth as nat, side_to_move);
        }
        r
    }
}

/// Orders moves for the search, which takes them from the back: the moves
/// that capture nothing first, then the captures, each in their order.
pub fn order_captures_last(moves: Vec<Move>) -> (r: Vec<Move>)
    ensures
        r@ == moves@.filter(|m: Move| !m.removes_piece()) + moves@.filter(|m: Move| m.removes_piece()),
{
    let ghost quiet_pred = |m: Move| !m.removes_piece();
    let ghost capture_pred = |m: Move| m.removes_piece();
    let mut quiet: Vec<Move> = Vec::new();
    let mut captures: Vec<Move> = Vec::new();
    let mut i: usize = 0;
    while i < moves.len()
        invariant
            i <= moves@.len(),
            quiet_pred == (|m: Move| !m.removes_piece()),
            capture_pred == (|m: Move| m.removes_piece()),
            quiet@ == moves@.take(i as int).filter(quiet_pred),
            captures@ == moves@.take(i as int).filter(capture_pred),
        decreases moves@.len() - i,
    {
        let mv = moves[i];
        proof {
            reveal(Seq::filter);
            assert(moves@.take(i as int + 1).drop_last() =~= moves@.take(i as int));
        }
        if mv.is_capture() {
            captures.push(mv);
        } else {
            quiet.push(mv);
        }
        i = i + 1;
    }
    assert(moves@.take(i as int) =~= moves@);
    quiet.append(&mut captures);
    quiet
}

/// Checks if a move is one of a list of moves.
fn holds_move(moves: &Vec<Move>, mv: &Move) -> (r: bool)
    ensures
        r == moves@.contains(*mv),
{
    let mut i: usize = 0;
    while i < moves.len()
        invariant
            i <= moves@.len(),
            forall|j: int| 0 <= j < i ==> moves@[j] != *mv,
        decreases moves@.len() - i,
    {
        if moves[i] == *mv {
            return true;
        }
        i = i + 1;
    }
    false
}

/// A stored score, read back within -32767 ..= 32767 so that it can be
/// negated.
fn stored_score(score: i16) -> (r: i16)
    ensures
        r == if score == i16::MIN {
            -32767i16
        } else {
            score
        },
{
    if score == i16::MIN {
        -32767
    } else {
        score
    }
}

/// The evaluation of the board from the side to move's point of view.
fn side_evaluation(board: &ChessBoard, side_to_move: Color) -> (r: i16)
    requires
        board.wf(),
    ensures
        r == white_side(clamp_score(material(board.piece_list)) as int, side_to_move),
        -32767 <= r <= 32767,
{
    let value = board.evaluate();
    if side_to_move == Color::White {
        value
    } else {
        -value
    }
}

/// The answer a table entry gives a search of `depth` plies in the window
/// `alpha .. beta`: an entry searched at least as deep answers with its
/// score (read back by [`stored_score`]) when it is exact, or when it is an
/// upper bound at most `alpha` or a lower bound at least `beta`.
pub open spec fn table_cut(p: Option<TranspositionTableData>, depth: int, alpha: int, beta: int) -> Option<i16> {
    match p {
        Some(e) => if e.depth >= depth && (e.node_type == NodeType::Exact || e.node_type == NodeType::UpperBound
            && e.score <= alpha || e.node_type == NodeType::LowerBound && e.score >= beta) {
            Some(if e.score == i16::MIN {
                -32767i16
            } else {
                e.score
            })
        } else {
            None
        },
        None => None,
    }
}

/// Decides whether a probed table entry answers the search at once (see
/// [`table_cut`]).
pub fn tt_answer(p: &Option<TranspositionTableData>, depth: u8, alpha: i16, beta: i16) -> (r: Option<i16>)
    ensures
        r == table_cut(*p, depth as int, alpha as int, beta as int),
{
    match p {
        Some(position) => {
            if position.depth >= depth {
                match position.node_type {
                    NodeType::Exact => {
                        return Some(stored_score(position.score));
                    },
                    NodeType::UpperBound => {
                        if position.score <= alpha {
                            return Some(stored_score(position.score));
                        }
                    },
                    NodeType::LowerBound => {
                        if position.score >= beta {
                            return Some(stored_score(position.score));
                        }
                    },
                }
            }
            None
        },
        None => None,
    }
}

/// The bound type of a search result: an upper bound when it did not rise
/// above the original `alpha`, a lower bound when it reached `beta`, exact
/// otherwise.
pub open spec fn bound_type(original_alpha: int, value: int, beta: int) -> NodeType {
    if value <= original_alpha {
        NodeType::UpperBound
    } else if value >= beta {
        NodeType::LowerBound
    } else {
        NodeType::Exact
    }
}

/// Negamax with alpha-beta pruning, returning a score from the side to
/// move's point of view, with what the search read from outside and stored.
///
/// The table is probed first (the first reading): an entry of this position
/// searched at least as deep answers at once when it is exact or its bound
/// already cuts (see [`table_cut`]); otherwise its best move, when it is one
/// of the legal moves here, is searched first. At depth 0 the evaluation
/// from the side to move's point of view is returned. The moves are
/// searched captures first; the first move that raises alpha becomes the
/// best move; the search stops once alpha reaches beta, or returns alpha
/// when the stop flag is seen. The result is stored in the table with its
/// bound type (see [`bound_type`]), depth and best move, as the last
/// reading. The board is given back in the position it had. When nothing
/// read changed the course of the search, the score is the alpha-beta value
/// (see [`ab_value`]), which stands to the negamax value as the window says;
/// in the full window it is the negamax value (see
/// [`lemma_alpha_beta_is_negamax`]).
#[verifier::rlimit(50)]
pub fn minimax_alpha_beta(
    board: &mut ChessBoard,
    depth: u8,
    alpha: i16,
    beta: i16,
    side_to_move: Color,
    stop_flag: Arc<AtomicBool>,
) -> (r: (i16, Ghost<Seq<Reading>>))
    requires
        old(board).wf(),
        old(board).transposition_table.spec_size() > 0,
        -32767 <= alpha <= 32767,
        -32767 <= beta <= 32767,
    ensures
        restored(*final(board), *old(board)),
        -32767 <= r.0 <= 32767,
        r.1@.len() >= 1,
        r.1@[0] is Probe,
        table_cut(r.1@[0]->Probe_0, depth as int, alpha as int, beta as int) matches Some(s) ==> r.0 == s && r.1@.len() == 1,
        depth == 0 && table_cut(r.1@[0]->Probe_0, depth as int, alpha as int, beta as int) is None ==> r.0 == white_side(
            clamp_score(material(old(board).piece_list)) as int,
            side_to_move,
        ) && r.1@.len() == 1,
        depth > 0 && table_cut(r.1@[0]->Probe_0, depth as int, alpha as int, beta as int) is None && no_stop(r.1@) ==> r.1@.last() is Stored,
        r.1@.len() > 1 && r.1@.last() is Stored ==> ({
            let e = r.1@.last()->Stored_0;
            &&& e.score == r.0
            &&& e.depth == depth
            &&& e.node_type == bound_type(alpha as int, r.0 as int, beta as int)
            &&& e.age == 0
            &&& r.0 <= alpha ==> e.best_move == 0
            &&& r.0 > alpha ==> exists|m: Move|
                legal_moves(*old(board), old(board).piece_list, side_to_move).contains(m) && e.best_move == encoded(m)
        }),
        r.1@.len() > 1 && r.1@.last() is Stored && quiet(r.1@) && alpha < r.0 < beta ==> exists|m: Move|
            legal_moves(*old(board), old(board).piece_list, side_to_move).contains(m)
                && r.1@.last()->Stored_0.best_move == encoded(m)
                && negamax(after_move(*old(board), m), (depth - 1) as nat, side_to_move.spec_opposite()) == -r.0,
        quiet(r.1@) ==> r.0 == ab_value(*old(board), depth as nat, alpha as int, beta as int, side_to_move),
        quiet(r.1@) && alpha < beta ==> ({
            let v = negamax(*old(board), depth as nat, side_to_move);
            &&& alpha < v < beta ==> r.0 == v
            &&& v <= alpha ==> r.0 <= alpha
            &&& v >= beta ==> r.0 >= beta
        }),
    decreases depth,
{
    let ghost b_in = *board;
    let mut alpha_now = alpha;
    let original_alpha = alpha;
    let mut tt_move: Option<Move> = None;
    let probe = board.transposition_table.retrieve_position(board.hash);
    let ghost mut seen: Seq<Reading> = seq![Reading::Probe(probe)];
    if let Some(score) = tt_answer(&probe, depth, alpha, beta) {
        return (score, Ghost(seen));
    }
    if let Some(position) = probe {
        if position.depth >= depth {
            tt_move = Move::decode(position.best_move, board);
        }
    }
    if depth == 0 {
        let value = side_evaluation(board, side_to_move);
        proof {
            assert(*board == b_in);
            if alpha < beta {
                lemma_ab_matches_negamax(b_in, depth as nat, alpha as int, beta as int, side_to_move);
            }
        }
        return (value, Ghost(seen));
    }
    let ghost b0 = *board;
    let mut best_move: Option<Move> = None;
    let generated = board.generate_moves(side_to_move);
    let ghost gen = generated@;
    let mut moves = order_captures_last(generated);
    proof {
        assert forall|k: int| #![trigger moves@[k]] 0 <= k < moves@.len() implies moves@[k].fits(&b0) && gen.contains(moves@[k]) by {
            let quiet_pred = |m: Move| !m.removes_piece();
            let capture_pred = |m: Move| m.removes_piece();
            let q = gen.filter(quiet_pred);
            let c = gen.filter(capture_pred);
            if k < q.len() {
                assert(q.contains(moves@[k]));
                gen.lemma_filter_contains_rev(quiet_pred, moves@[k]);
            } else {
                assert(c[k - q.len()] == moves@[k]);
                assert(c.contains(moves@[k]));
                gen.lemma_filter_contains_rev(capture_pred, moves@[k]);
            }
            let j = choose|j: int| 0 <= j < gen.len() && gen[j] == moves@[k];
            assert(gen[j].fits(&b0));
        }
    }
    if let Some(mv) = tt_move {
        if holds_move(&moves, &mv) {
            let ghost before_push = moves@;
            moves.push(mv);
            proof {
                let j = choose|j: int| 0 <= j < before_push.len() && before_push[j] == mv;
                assert(before_push[j].fits(&b0));
                assert(gen.contains(before_push[j]));
                assert forall|k: int| #![trigger moves@[k]] 0 <= k < moves@.len() implies moves@[k].fits(&b0) && gen.contains(moves@[k]) by {
                    if k < before_push.len() {
                        assert(moves@[k] == before_push[k]);
                    }
                }
            }
        }
    }
    let ghost mut done: bool = false;
    let mut idx: usize = moves.len();
    proof {
        if quiet(seen) {
            assert(moves@ == search_order(legal_moves(b0, b0.piece_list, side_to_move)));
        }
    }
    while idx > 0
        invariant_except_break
            !done,
        invariant
            quiet(seen) ==> moves@ == search_order(legal_moves(b0, b0.piece_list, side_to_move)),
            seen.len() >= 1,
            seen[0] == Reading::Probe(probe),
            original_alpha == alpha,
            table_cut(probe, depth as int, alpha as int, beta as int) is None,
            quiet(seen) ==> ab_value(b0, depth as nat, original_alpha as int, beta as int, side_to_move) == if done {
                alpha_now as int
            } else {
                ab_from(b0, moves@, idx as int, alpha_now as int, beta as int, side_to_move, depth as nat)
            },
            board.wf(),
            b0.wf(),
            b0 == *old(board),
            same_position(*board, b0),
            board.transposition_table.spec_size() > 0,
            depth >= 1,
            all_fit(moves@, b0),
            idx <= moves@.len(),
            -32767 <= original_alpha <= alpha_now <= 32767,
            -32767 <= beta <= 32767,
            best_move matches Some(m) ==> moves@.contains(m),
            forall|k: int| 0 <= k < moves@.len() ==> gen.contains(#[trigger] moves@[k]),
            gen == legal_moves(b0, b0.piece_list, side_to_move),
            (best_move is Some) == (alpha_now > original_alpha),
            quiet(seen) && alpha_now < beta ==> (best_move matches Some(m) ==> negamax(
                after_move(b0, m),
                (depth - 1) as nat,
                side_to_move.spec_opposite(),
            ) == -alpha_now),
        ensures
            !done ==> idx == 0,
        decreases idx,
    {
        idx = idx - 1;
        let mv = moves[idx];
        let stop = stop_requested(&stop_flag);
        proof {
            lemma_quiet_concat(seen, seq![Reading::Stop(stop)]);
            assert((seen + seq![Reading::Stop(stop)])[0] == seen[0]);
            seen = seen + seq![Reading::Stop(stop)];
        }
        if stop {
            proof {
                assert(seen.last() == Reading::Stop(true));
            }
            return (alpha_now, Ghost(seen));
        }
        let ghost before = *board;
        proof {
            lemma_fits_same_position(moves@, b0, *board);
            assert(moves@[idx as int].fits(board));
        }
        board.make_move(&mv);
        let ghost after_make = *board;
        let ghost alpha_before = alpha_now;
        let (child, child_seen) = minimax_alpha_beta(board, depth - 1, -beta, -alpha_now, side_to_move.opposite(), share(&stop_flag));
        let score = -child;
        let ghost after_search = *board;
        proof {
            lemma_undoable_same_position(mv, after_make, *board);
        }
        board.unmake_move(&mv);
        proof {
            crate::game_state::board::lemma_make_visit_unmake(before, after_make, after_search, *board, mv);
            crate::game_state::board::lemma_made_same_position(before, b0, after_make, mv);
            assert(can_make(b0, mv));
            let x = after_move(b0, mv);
            crate::game_state::board::lemma_made_unique(b0, x, after_make, mv);
            lemma_ab_congruent(x, after_make, (depth - 1) as nat, -beta as int, -alpha_before as int, side_to_move.spec_opposite());
            assert(mv == moves@[idx as int]);
            lemma_quiet_concat(seen, child_seen@);
            assert((seen + child_seen@)[0] == seen[0]);
            seen = seen + child_seen@;
        }
        if score > alpha_now {
            proof {
                if quiet(seen) && score < beta {
                    let x = after_move(b0, mv);
                    lemma_ab_matches_negamax(x, (depth - 1) as nat, -beta as int, -alpha_before as int, side_to_move.spec_opposite());
                }
            }
            alpha_now = score;
            best_move = Some(mv);
            assert(moves@[idx as int] == mv);
        }
        if alpha_now >= beta {
            proof {
                done = true;
            }
            break;
        }
    }
    let node_type = if alpha_now <= original_alpha {
        NodeType::UpperBound
    } else if alpha_now >= beta {
        NodeType::LowerBound
    } else {
        NodeType::Exact
    };
    let encoded_move = if let Some(mv) = best_move {
        proof {
            let j = choose|j: int| 0 <= j < moves@.len() && moves@[j] == mv;
            assert(moves@[j].fits(&b0));
            assert(gen.contains(moves@[j]));
        }
        mv.encode(board)
    } else {
        0
    };
    let entry = TranspositionTableData { depth, score: alpha_now, node_type, best_move: encoded_move, age: 0 };
    board.transposition_table.save_position(board.hash, &entry);
    proof {
        lemma_quiet_concat(seen, seq![Reading::Stored(entry)]);
        assert((seen + seq![Reading::Stored(entry)])[0] == seen[0]);
        if let Some(m) = best_move {
            assert(gen.contains(m));
            assert(entry.best_move == encoded(m));
        }
        seen = seen + seq![Reading::Stored(entry)];
        if alpha < beta {
            lemma_ab_matches_negamax(b_in, depth as nat, alpha as int, beta as int, side_to_move);
        }
    }
    (alpha_now, Ghost(seen))
}

} // verus!
