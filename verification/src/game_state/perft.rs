//! Perft: counting the leaf nodes of the legal move tree, the standard
//! check of a move generator against known counts.

use vstd::prelude::*;

use crate::game_state::board::{lemma_made_same_position, lemma_made_unique, made, same_position, ChessBoard};
use crate::game_state::board::moves::Move;
use crate::game_state::board::piece::Color;
use crate::game_state::board::piece_list::congruence::lemma_legal_moves_congruent;
use crate::game_state::board::piece_list::movegen::{all_fit, legal_moves};
use crate::game_state::board::search::{lemma_fits_same_position, lemma_undoable_same_position, restored};

verus! {

/// Some board is the result of making the move on `b`.
pub open spec fn can_make(b: ChessBoard, mv: Move) -> bool {
    exists|b1: ChessBoard| made(b, b1, mv)
}

/// A board that results from making the move on `b` (see [`made`]).
pub open spec fn after_move(b: ChessBoard, mv: Move) -> ChessBoard {
    choose|b1: ChessBoard| made(b, b1, mv)
}

/// The number of leaf nodes of the tree of legal moves of depth `depth`
/// from `b` with `color` to move: 1 at depth 0, otherwise the sum over the
/// legal moves of the count below each.
pub open spec fn perft_nodes(b: ChessBoard, color: Color, depth: nat) -> nat
    decreases depth, 1nat, 0nat,
{
    if depth == 0 {
        1
    } else {
        let moves = legal_moves(b, b.piece_list, color);
        perft_sum(b, moves, color, (depth - 1) as nat, moves.len())
    }
}

/// The leaf nodes below the first `n` of `moves`, each searched to `depth`
/// further plies with the other side to move.
pub open spec fn perft_sum(b: ChessBoard, moves: Seq<Move>, color: Color, depth: nat, n: nat) -> nat
    decreases depth + 1, 0nat, n,
{
    if n == 0 {
        0
    } else {
        let m = moves[n - 1];
        perft_sum(b, moves, color, depth, (n - 1) as nat) + if can_make(b, m) {
            perft_nodes(after_move(b, m), color.spec_opposite(), depth)
        } else {
            0
        }
    }
}

/// A count as a `u64`, stopping at `u64::MAX`.
pub open spec fn saturated(n: nat) -> u64 {
    if n <= u64::MAX {
        n as u64
    } else {
        u64::MAX
    }
}

/// Boards in the same position have the same perft counts.
pub proof fn lemma_perft_congruent(b1: ChessBoard, b2: ChessBoard, color: Color, depth: nat)
    requires
        same_position(b1, b2),
    ensures
        perft_nodes(b1, color, depth) == perft_nodes(b2, color, depth),
    decreases depth, 1nat, 0nat,
{
    if depth > 0 {
        lemma_legal_moves_congruent(b1, b1.piece_list, b2, b2.piece_list, color);
        let moves = legal_moves(b1, b1.piece_list, color);
        lemma_perft_sum_congruent(b1, b2, moves, color, (depth - 1) as nat, moves.len());
    }
}

/// Boards in the same position have the same partial perft sums.
pub proof fn lemma_perft_sum_congruent(b1: ChessBoard, b2: ChessBoard, moves: Seq<Move>, color: Color, depth: nat, n: nat)
    requires
        same_position(b1, b2),
    ensures
        perft_sum(b1, moves, color, depth, n) == perft_sum(b2, moves, color, depth, n),
    decreases depth + 1, 0nat, n,
{
    if n > 0 {
        lemma_perft_sum_congruent(b1, b2, moves, color, depth, (n - 1) as nat);
        let m = moves[n - 1];
        if can_make(b1, m) {
            let x1 = after_move(b1, m);
            lemma_made_same_position(b1, b2, x1, m);
            let x2 = after_move(b2, m);
            lemma_made_same_position(b2, b1, x2, m);
            lemma_made_unique(b1, x1, x2, m);
            lemma_perft_congruent(x1, x2, color.spec_opposite(), depth);
        } else if can_make(b2, m) {
            let x2 = after_move(b2, m);
            lemma_made_same_position(b2, b1, x2, m);
        }
    }
}

/// Counts the leaf nodes of the legal move tree of depth `depth` (see
/// [`perft_nodes`]), stopping at `u64::MAX`. The board is given back in
/// the position it had.
pub fn count_leaves(board: &mut ChessBoard, color: Color, depth: u64) -> (r: u64)
    requires
        old(board).wf(),
    ensures
        restored(*final(board), *old(board)),
        r == saturated(perft_nodes(*old(board), color, depth as nat)),
    decreases depth,
{
    if depth == 0 {
        return 1;
    }
    let ghost b0 = *board;
    let moves = board.generate_moves(color);
    let ghost ms = moves@;
    let mut total: u64 = 0;
    let mut i: usize = 0;
    while i < moves.len()
        invariant
            board.wf(),
            b0.wf(),
            b0 == *old(board),
            same_position(*board, b0),
            depth >= 1,
            ms == moves@,
            ms == legal_moves(b0, b0.piece_list, color),
            all_fit(ms, b0),
            i <= ms.len(),
            total == saturated(perft_sum(b0, ms, color, (depth - 1) as nat, i as nat)),
        decreases ms.len() - i,
    {
        let mv = moves[i];
        let ghost before = *board;
        proof {
            lemma_fits_same_position(ms, b0, *board);
            assert(ms[i as int].fits(board));
        }
        board.make_move(&mv);
        let ghost after_make = *board;
        let nodes = count_leaves(board, color.opposite(), depth - 1);
        let ghost after_search = *board;
        proof {
            lemma_undoable_same_position(mv, after_make, *board);
        }
        board.unmake_move(&mv);
        proof {
            crate::game_state::board::lemma_make_visit_unmake(before, after_make, after_search, *board, mv);
            lemma_made_same_position(before, b0, after_make, mv);
            assert(can_make(b0, mv));
            let x = after_move(b0, mv);
            lemma_made_unique(b0, x, after_make, mv);
            lemma_perft_congruent(x, after_make, color.spec_opposite(), (depth - 1) as nat);
        }
        total = total.saturating_add(nodes);
        i = i + 1;
    }
    total
}

/// Counts, for each legal move, the leaf nodes of the tree of depth
/// `depth - 1` below it: the move and its count, in the order the legal
/// moves are generated. The board is given back in the position it had.
pub fn count_leaves_per_move(board: &mut ChessBoard, color: Color, depth: u64) -> (r: Vec<(Move, u64)>)
    requires
        old(board).wf(),
        depth >= 1,
    ensures
        restored(*final(board), *old(board)),
        all_fit(legal_moves(*old(board), old(board).piece_list, color), *old(board)),
        r@.len() == legal_moves(*old(board), old(board).piece_list, color).len(),
        forall|i: int|
            0 <= i < r@.len() ==> {
                let m = legal_moves(*old(board), old(board).piece_list, color)[i];
                &&& (#[trigger] r@[i]).0 == m
                &&& can_make(*old(board), m)
                &&& r@[i].1 == saturated(perft_nodes(after_move(*old(board), m), color.spec_opposite(), (depth - 1) as nat))
            },
{
    let ghost b0 = *board;
    let moves = board.generate_moves(color);
    let ghost ms = moves@;
    let mut counts: Vec<(Move, u64)> = Vec::new();
    let mut i: usize = 0;
    while i < moves.len()
        invariant
            board.wf(),
            b0.wf(),
            b0 == *old(board),
            same_position(*board, b0),
            depth >= 1,
            ms == moves@,
            ms == legal_moves(b0, b0.piece_list, color),
            all_fit(ms, b0),
            i <= ms.len(),
            counts@.len() == i,
            forall|k: int|
                0 <= k < i ==> {
                    &&& (#[trigger] counts@[k]).0 == ms[k]
                    &&& can_make(b0, ms[k])
                    &&& counts@[k].1 == saturated(perft_nodes(after_move(b0, ms[k]), color.spec_opposite(), (depth - 1) as nat))
                },
        decreases ms.len() - i,
    {
        let mv = moves[i];
        let ghost before = *board;
        proof {
            lemma_fits_same_position(ms, b0, *board);
            assert(ms[i as int].fits(board));
        }
        board.make_move(&mv);
        let ghost after_make = *board;
        let nodes = count_leaves(board, color.opposite(), depth - 1);
        let ghost after_search = *board;
        proof {
            lemma_undoable_same_position(mv, after_make, *board);
        }
        board.unmake_move(&mv);
        proof {
            crate::game_state::board::lemma_make_visit_unmake(before, after_make, after_search, *board, mv);
            lemma_made_same_position(before, b0, after_make, mv);
            assert(can_make(b0, mv));
            let x = after_move(b0, mv);
            lemma_made_unique(b0, x, after_make, mv);
            lemma_perft_congruent(x, after_make, color.spec_opposite(), (depth - 1) as nat);
        }
        counts.push((mv, nodes));
        i = i + 1;
    }
    counts
}

} // verus!
