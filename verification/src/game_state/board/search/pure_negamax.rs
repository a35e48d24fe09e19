//! Pure negamax: one recursive function for both sides, negating the score
//! at each level, without pruning.

use std::sync::Arc;
use std::sync::atomic::AtomicBool;
use vstd::prelude::*;

use crate::game_state::board::ChessBoard;
use crate::game_state::board::piece::Color;
use crate::game_state::board::position::share;
use crate::game_state::board::analysis::{clamp_score, material};
use crate::game_state::board::piece_list::movegen::legal_moves;
use crate::game_state::board::search::{quiet, lemma_quiet_concat, Reading, white_side, lemma_fits_same_position, lemma_undoable_same_position, restored, stop_requested, SearchAlgorithm};
use crate::game_state::board::same_position;
use crate::game_state::board::search::values::{lemma_negamax_congruent, negamax, negamax_from};
use crate::game_state::perft::{after_move, can_make};

verus! {

/// Pure negamax search without pruning.
pub struct PureNegamax;

impl SearchAlgorithm for PureNegamax {
    /// The negamax value (see [`negamax`]).
    open spec fn search_value(&self, b: ChessBoard, depth: nat, side: Color) -> int {
        negamax(b, depth, side)
    }

    proof fn lemma_search_value_congruent(&self, b1: ChessBoard, b2: ChessBoard, depth: nat, side: Color) {
        lemma_negamax_congruent(b1, b2, depth, side);
    }

    fn tree_search(&self, game: &mut ChessBoard, depth: u8, side_to_move: Color, stop_flag: Arc<AtomicBool>) -> (r: (
        i16,
        Ghost<Seq<Reading>>,
    ))
        ensures
            depth == 0 ==> r.0 == white_side(clamp_score(material(old(game).piece_list)) as int, side_to_move),
            depth > 0 && legal_moves(*old(game), old(game).piece_list, side_to_move).len() == 0 ==> r.0 == -32767,
    {
        pure_negamax(game, depth, side_to_move, stop_flag)
    }
}

/// Negamax to `depth` plies: the evaluation from the side to move's point
/// of view at depth 0, otherwise the best negated score over the legal
/// moves (-32767 when there is none). When the stop flag is seen, returns
/// the best score found so far. The board is given back in the position it
/// had. With the score come the readings of the stop flag; when none was
/// `true`, the score is the negamax value (see [`negamax`]).
pub fn pure_negamax(game: &mut ChessBoard, depth: u8, side_to_move: Color, stop_flag: Arc<AtomicBool>) -> (r: (i16, Ghost<Seq<Reading>>))
    requires
        old(game).wf(),
    ensures
        restored(*final(game), *old(game)),
        -32767 <= r.0 <= 32767,
        depth == 0 ==> r.0 == white_side(clamp_score(material(old(game).piece_list)) as int, side_to_move),
        depth > 0 && legal_moves(*old(game), old(game).piece_list, side_to_move).len() == 0 ==> r.0 == -32767,
        quiet(r.1@) ==> r.0 == negamax(*old(game), depth as nat, side_to_move),
    decreases depth,
{
    if depth == 0 {
        let perspective: i16 = if side_to_move == Color::White {
            1
        } else {
            -1
        };
        return (game.evaluate() * perspective, Ghost(Seq::empty()));
    }
    let ghost b0 = *game;
    let moves = game.generate_moves(side_to_move);
    let mut score: i16 = i16::MIN + 1;
    let ghost mut seen: Seq<Reading> = Seq::empty();
    let mut i: usize = 0;
    while i < moves.len()
        invariant
            game.wf(),
            b0.wf(),
            b0 == *old(game),
            same_position(*game, b0),
            depth >= 1,
            crate::game_state::board::piece_list::movegen::all_fit(moves@, b0),
            i <= moves@.len(),
            moves@ == legal_moves(b0, b0.piece_list, side_to_move),
            i == 0 ==> score == -32767,
            -32767 <= score <= 32767,
            quiet(seen) ==> negamax(b0, depth as nat, side_to_move) == negamax_from(
                b0,
                moves@,
                i as int,
                score as int,
                side_to_move,
                depth as nat,
            ),
        decreases moves@.len() - i,
    {
        let stop = stop_requested(&stop_flag);
        proof {
            lemma_quiet_concat(seen, seq![Reading::Stop(stop)]);
            seen = seen + seq![Reading::Stop(stop)];
            assert(seen[seen.len() - 1] == Reading::Stop(stop));
        }
        if stop {
            return (score, Ghost(seen));
        }
        let mv = moves[i];
        let ghost before = *game;
        proof {
            lemma_fits_same_position(moves@, b0, *game);
            assert(moves@[i as int].fits(game));
        }
        game.make_move(&mv);
        let ghost after_make = *game;
        let (child, child_seen) = pure_negamax(game, depth - 1, side_to_move.opposite(), share(&stop_flag));
        let value = -child;
        let ghost after_search = *game;
        proof {
            lemma_undoable_same_position(mv, after_make, *game);
        }
        game.unmake_move(&mv);
        proof {
            crate::game_state::board::lemma_make_visit_unmake(before, after_make, after_search, *game, mv);
            crate::game_state::board::lemma_made_same_position(before, b0, after_make, mv);
            assert(can_make(b0, mv));
            let x = after_move(b0, mv);
            crate::game_state::board::lemma_made_unique(b0, x, after_make, mv);
            lemma_negamax_congruent(x, after_make, (depth - 1) as nat, side_to_move.spec_opposite());
            assert(mv == moves@[i as int]);
            lemma_quiet_concat(seen, child_seen@);
            seen = seen + child_seen@;
        }
        if value > score {
            score = value;
        }
        i = i + 1;
    }
    (score, Ghost(seen))
}

} // verus!
