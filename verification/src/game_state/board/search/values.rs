//! The values that the searches compute when nothing interrupts them: plain
//! negamax, and negamax with fail-hard alpha-beta pruning over the moves in
//! the order the search tries them.

use vstd::prelude::*;

use crate::game_state::board::{lemma_made_same_position, lemma_made_unique, same_position, ChessBoard};
use crate::game_state::board::analysis::{clamp_score, material};
use crate::game_state::board::moves::Move;
use crate::game_state::board::piece::Color;
use crate::game_state::board::piece_list::congruence::lemma_legal_moves_congruent;
use crate::game_state::board::piece_list::movegen::legal_moves;
use crate::game_state::board::search::white_side;
use crate::game_state::perft::{after_move, can_make};

verus! {

/// The negamax value of `b` with `side` to move at `depth` plies: the
/// evaluation from the side to move's point of view at depth 0, otherwise
/// the highest negated value of the positions after the legal moves,
/// starting from -32767 (so -32767 when there is no legal move).
pub open spec fn negamax(b: ChessBoard, depth: nat, side: Color) -> int
    decreases depth, 1nat, 0int,
{
    if depth == 0 {
        white_side(clamp_score(material(b.piece_list)) as int, side)
    } else {
        negamax_from(b, legal_moves(b, b.piece_list, side), 0, -32767, side, depth)
    }
}

/// The best of `best` and the negated values of the positions after the
/// moves from the `i`-th on (those that can be made), each searched to
/// `depth - 1` plies.
pub open spec fn negamax_from(b: ChessBoard, moves: Seq<Move>, i: int, best: int, side: Color, depth: nat) -> int
    decreases depth, 0nat, moves.len() - i,
{
    if depth == 0 || i < 0 || i >= moves.len() {
        best
    } else if can_make(b, moves[i]) {
        let value = -negamax(after_move(b, moves[i]), (depth - 1) as nat, side.spec_opposite());
        negamax_from(
            b,
            moves,
            i + 1,
            if value > best {
                value
            } else {
                best
            },
            side,
            depth,
        )
    } else {
        negamax_from(b, moves, i + 1, best, side, depth)
    }
}

/// Boards in the same position have the same negamax values.
pub proof fn lemma_negamax_congruent(b1: ChessBoard, b2: ChessBoard, depth: nat, side: Color)
    requires
        same_position(b1, b2),
    ensures
        negamax(b1, depth, side) == negamax(b2, depth, side),
    decreases depth, 1nat, 0int,
{
    if depth > 0 {
        lemma_legal_moves_congruent(b1, b1.piece_list, b2, b2.piece_list, side);
        lemma_negamax_from_congruent(b1, b2, legal_moves(b1, b1.piece_list, side), 0, -32767, side, depth);
    } else {
        assert(material(b1.piece_list) == material(b2.piece_list));
    }
}

/// Boards in the same position give the same partial negamax values.
pub proof fn lemma_negamax_from_congruent(
    b1: ChessBoard,
    b2: ChessBoard,
    moves: Seq<Move>,
    i: int,
    best: int,
    side: Color,
    depth: nat,
)
    requires
        same_position(b1, b2),
    ensures
        negamax_from(b1, moves, i, best, side, depth) == negamax_from(b2, moves, i, best, side, depth),
    decreases depth, 0nat, moves.len() - i,
{
    if depth > 0 && 0 <= i < moves.len() {
        let m = moves[i];
        if can_make(b1, m) {
            let x1 = after_move(b1, m);
            lemma_made_same_position(b1, b2, x1, m);
            let x2 = after_move(b2, m);
            lemma_made_same_position(b2, b1, x2, m);
            lemma_made_unique(b1, x1, x2, m);
            lemma_negamax_congruent(x1, x2, (depth - 1) as nat, side.spec_opposite());
            let value = -negamax(x1, (depth - 1) as nat, side.spec_opposite());
            let next = if value > best {
                value
            } else {
                best
            };
            lemma_negamax_from_congruent(b1, b2, moves, i + 1, next, side, depth);
        } else {
            if can_make(b2, m) {
                let x2 = after_move(b2, m);
                lemma_made_same_position(b2, b1, x2, m);
            }
            lemma_negamax_from_congruent(b1, b2, moves, i + 1, best, side, depth);
        }
    }
}

/// The order in which the alpha-beta search takes the moves from the back
/// of a list: the moves that capture nothing, then the captures.
pub open spec fn search_order(moves: Seq<Move>) -> Seq<Move> {
    moves.filter(|m: Move| !m.removes_piece()) + moves.filter(|m: Move| m.removes_piece())
}

/// The fail-hard alpha-beta negamax value of `b` with `side` to move at
/// `depth` plies in the window `alpha .. beta`: the evaluation from the side
/// to move's point of view at depth 0; otherwise the moves of
/// [`search_order`] are tried from the last to the first (see [`ab_from`]).
pub open spec fn ab_value(b: ChessBoard, depth: nat, alpha: int, beta: int, side: Color) -> int
    decreases depth, 1nat, 0int,
{
    if depth == 0 {
        white_side(clamp_score(material(b.piece_list)) as int, side)
    } else {
        let moves = search_order(legal_moves(b, b.piece_list, side));
        ab_from(b, moves, moves.len() as int, alpha, beta, side, depth)
    }
}

/// Trying the first `idx` moves from the last down: each that can be made
/// is valued as the negated value of the position after it with the
/// window turned round;
/// alpha rises to a higher value, and the search stops once alpha reaches
/// `beta`. The result is the final alpha.
pub open spec fn ab_from(b: ChessBoard, moves: Seq<Move>, idx: int, alpha: int, beta: int, side: Color, depth: nat) -> int
    decreases depth, 0nat, idx,
{
    if depth == 0 || idx <= 0 || idx > moves.len() {
        alpha
    } else if can_make(b, moves[idx - 1]) {
        let score = -ab_value(after_move(b, moves[idx - 1]), (depth - 1) as nat, -beta, -alpha, side.spec_opposite());
        let raised = if score > alpha {
            score
        } else {
            alpha
        };
        if raised >= beta {
            raised
        } else {
            ab_from(b, moves, idx - 1, raised, beta, side, depth)
        }
    } else {
        ab_from(b, moves, idx - 1, alpha, beta, side, depth)
    }
}

/// Boards in the same position have the same alpha-beta values.
pub proof fn lemma_ab_congruent(b1: ChessBoard, b2: ChessBoard, depth: nat, alpha: int, beta: int, side: Color)
    requires
        same_position(b1, b2),
    ensures
        ab_value(b1, depth, alpha, beta, side) == ab_value(b2, depth, alpha, beta, side),
    decreases depth, 1nat, 0int,
{
    if depth > 0 {
        lemma_legal_moves_congruent(b1, b1.piece_list, b2, b2.piece_list, side);
        let moves = search_order(legal_moves(b1, b1.piece_list, side));
        lemma_ab_from_congruent(b1, b2, moves, moves.len() as int, alpha, beta, side, depth);
    } else {
        assert(material(b1.piece_list) == material(b2.piece_list));
    }
}

/// Boards in the same position give the same partial alpha-beta values.
pub proof fn lemma_ab_from_congruent(
    b1: ChessBoard,
    b2: ChessBoard,
    moves: Seq<Move>,
    idx: int,
    alpha: int,
    beta: int,
    side: Color,
    depth: nat,
)
    requires
        same_position(b1, b2),
    ensures
        ab_from(b1, moves, idx, alpha, beta, side, depth) == ab_from(b2, moves, idx, alpha, beta, side, depth),
    decreases depth, 0nat, idx,
{
    if depth > 0 && 0 < idx <= moves.len() {
        let m = moves[idx - 1];
        if can_make(b1, m) {
            let x1 = after_move(b1, m);
            lemma_made_same_position(b1, b2, x1, m);
            let x2 = after_move(b2, m);
            lemma_made_same_position(b2, b1, x2, m);
            lemma_made_unique(b1, x1, x2, m);
            lemma_ab_congruent(x1, x2, (depth - 1) as nat, -beta, -alpha, side.spec_opposite());
            let score = -ab_value(x1, (depth - 1) as nat, -beta, -alpha, side.spec_opposite());
            let raised = if score > alpha {
                score
            } else {
                alpha
            };
            lemma_ab_from_congruent(b1, b2, moves, idx - 1, raised, beta, side, depth);
        } else {
            if can_make(b2, m) {
                let x2 = after_move(b2, m);
                lemma_made_same_position(b2, b1, x2, m);
            }
            lemma_ab_from_congruent(b1, b2, moves, idx - 1, alpha, beta, side, depth);
        }
    }
}

} // verus!
