//! Alpha-beta pruning does not change the value: in the full window the
//! alpha-beta value of a position is its negamax value, whatever the order
//! the moves are tried in.

use vstd::prelude::*;

use crate::game_state::board::ChessBoard;
use crate::game_state::board::moves::Move;
use crate::game_state::board::piece::Color;
use crate::game_state::board::piece_list::movegen::legal_moves;
use crate::game_state::board::search::values::{ab_from, ab_value, negamax, negamax_from, search_order};
use crate::game_state::perft::{after_move, can_make};

verus! {

broadcast use vstd::seq_lib::group_filter_ensures;

/// The negated negamax value of the position after a move.
pub open spec fn child_value(b: ChessBoard, m: Move, depth: nat, side: Color) -> int {
    -negamax(after_move(b, m), (depth - 1) as nat, side.spec_opposite())
}

/// `x` is the best of `base` and the values of the moves of `ms[lo..hi]`
/// that can be made: no lower than any of them, and one of them.
pub open spec fn is_best(b: ChessBoard, ms: Seq<Move>, lo: int, hi: int, x: int, base: int, side: Color, depth: nat) -> bool {
    &&& x >= base
    &&& forall|i: int| lo <= i < hi && can_make(b, ms[i]) ==> x >= #[trigger] child_value(b, ms[i], depth, side)
    &&& (x == base || exists|i: int| lo <= i < hi && can_make(b, ms[i]) && x == #[trigger] child_value(b, ms[i], depth, side))
}

/// The best of `a` and the values of the first `idx` moves that can be
/// made, taken from the last down.
pub open spec fn top_back(b: ChessBoard, ms: Seq<Move>, idx: int, a: int, side: Color, depth: nat) -> int
    decreases idx,
{
    if idx <= 0 || idx > ms.len() {
        a
    } else if can_make(b, ms[idx - 1]) {
        let v = child_value(b, ms[idx - 1], depth, side);
        top_back(b, ms, idx - 1, if v > a {
            v
        } else {
            a
        }, side, depth)
    } else {
        top_back(b, ms, idx - 1, a, side, depth)
    }
}

/// The partial negamax value is the best over the remaining moves.
proof fn lemma_negamax_from_best(b: ChessBoard, ms: Seq<Move>, i: int, best: int, side: Color, depth: nat)
    requires
        depth > 0,
        0 <= i <= ms.len(),
    ensures
        is_best(b, ms, i, ms.len() as int, negamax_from(b, ms, i, best, side, depth), best, side, depth),
    decreases ms.len() - i,
{
    if i < ms.len() {
        let m = ms[i];
        let x = negamax_from(b, ms, i, best, side, depth);
        let next = if can_make(b, m) {
            let v = child_value(b, m, depth, side);
            if v > best {
                v
            } else {
                best
            }
        } else {
            best
        };
        assert(x == negamax_from(b, ms, i + 1, next, side, depth));
        lemma_negamax_from_best(b, ms, i + 1, next, side, depth);
        if x != best {
            if x == next {
                assert(can_make(b, ms[i]) && x == child_value(b, ms[i], depth, side));
            } else {
                let j = choose|j: int| i + 1 <= j < ms.len() && can_make(b, ms[j]) && x == #[trigger] child_value(b, ms[j], depth, side);
                assert(i <= j < ms.len() && can_make(b, ms[j]) && x == child_value(b, ms[j], depth, side));
            }
        }
    }
}

/// Taking the best from the last move down gives the best over the moves.
proof fn lemma_top_back_best(b: ChessBoard, ms: Seq<Move>, idx: int, a: int, side: Color, depth: nat)
    requires
        0 <= idx <= ms.len(),
    ensures
        is_best(b, ms, 0, idx, top_back(b, ms, idx, a, side, depth), a, side, depth),
    decreases idx,
{
    if idx > 0 {
        let m = ms[idx - 1];
        let x = top_back(b, ms, idx, a, side, depth);
        let next = if can_make(b, m) {
            let v = child_value(b, m, depth, side);
            if v > a {
                v
            } else {
                a
            }
        } else {
            a
        };
        assert(x == top_back(b, ms, idx - 1, next, side, depth));
        lemma_top_back_best(b, ms, idx - 1, next, side, depth);
        if x != a {
            if x == next {
                assert(can_make(b, ms[idx - 1]) && x == child_value(b, ms[idx - 1], depth, side));
            } else {
                let j = choose|j: int| 0 <= j < idx - 1 && can_make(b, ms[j]) && x == #[trigger] child_value(b, ms[j], depth, side);
                assert(0 <= j < idx && can_make(b, ms[j]) && x == child_value(b, ms[j], depth, side));
            }
        }
    }
}

/// Trying moves from the last down with alpha-beta gives the best value
/// over them when it stays under `beta`, and at least `beta` otherwise.
proof fn lemma_ab_from_top(b: ChessBoard, ms: Seq<Move>, idx: int, a: int, beta: int, side: Color, depth: nat)
    requires
        depth > 0,
        0 <= idx <= ms.len(),
        -32767 <= a < beta <= 32767,
    ensures
        top_back(b, ms, idx, a, side, depth) < beta ==> ab_from(b, ms, idx, a, beta, side, depth) == top_back(
            b,
            ms,
            idx,
            a,
            side,
            depth,
        ),
        top_back(b, ms, idx, a, side, depth) >= beta ==> ab_from(b, ms, idx, a, beta, side, depth) >= beta,
        a <= ab_from(b, ms, idx, a, beta, side, depth) <= 32767,
    decreases depth, 0nat, idx,
{
    if idx > 0 {
        let m = ms[idx - 1];
        if can_make(b, m) {
            let x = after_move(b, m);
            let opp = side.spec_opposite();
            let d1 = (depth - 1) as nat;
            lemma_ab_matches_negamax(x, d1, -beta, -a, opp);
            let v = child_value(b, m, depth, side);
            let score = -ab_value(x, d1, -beta, -a, opp);
            let raised = if score > a {
                score
            } else {
                a
            };
            let next = if v > a {
                v
            } else {
                a
            };
            if raised >= beta {
                assert(v >= beta);
                lemma_top_back_best(b, ms, idx - 1, next, side, depth);
            } else {
                assert(raised == next);
                lemma_ab_from_top(b, ms, idx - 1, raised, beta, side, depth);
            }
        } else {
            lemma_ab_from_top(b, ms, idx - 1, a, beta, side, depth);
        }
    }
}

/// Every move of a list is a move of its search order, and the other way
/// round.
proof fn lemma_search_order_same_moves(ms: Seq<Move>)
    ensures
        forall|i: int| 0 <= i < ms.len() ==> #[trigger] search_order(ms).contains(ms[i]),
        forall|j: int| 0 <= j < search_order(ms).len() ==> ms.contains(#[trigger] search_order(ms)[j]),
{
    let quiet = |m: Move| !m.removes_piece();
    let caps = |m: Move| m.removes_piece();
    let q = ms.filter(quiet);
    let c = ms.filter(caps);
    let so = search_order(ms);
    assert(so == q + c);
    assert forall|i: int| 0 <= i < ms.len() implies #[trigger] so.contains(ms[i]) by {
        if ms[i].removes_piece() {
            ms.lemma_filter_contains(caps, i);
            let k = choose|k: int| 0 <= k < c.len() && c[k] == ms[i];
            assert(so[q.len() + k] == c[k]);
        } else {
            ms.lemma_filter_contains(quiet, i);
            let k = choose|k: int| 0 <= k < q.len() && q[k] == ms[i];
            assert(so[k] == q[k]);
        }
    }
    assert forall|j: int| 0 <= j < so.len() implies ms.contains(#[trigger] so[j]) by {
        if j < q.len() {
            assert(so[j] == q[j]);
            assert(q.contains(q[j]));
            ms.lemma_filter_contains_rev(quiet, q[j]);
        } else {
            assert(so[j] == c[j - q.len()]);
            assert(c.contains(c[j - q.len()]));
            ms.lemma_filter_contains_rev(caps, c[j - q.len()]);
        }
    }
}

/// The alpha-beta value against the negamax value `v` in the window
/// `alpha .. beta`: it is `v` when `v` lies strictly inside, at most
/// `alpha` when `v` is at most `alpha`, and at least `beta` when `v` is at
/// least `beta`.
pub proof fn lemma_ab_matches_negamax(b: ChessBoard, depth: nat, alpha: int, beta: int, side: Color)
    requires
        -32767 <= alpha < beta <= 32767,
    ensures
        alpha < negamax(b, depth, side) < beta ==> ab_value(b, depth, alpha, beta, side) == negamax(b, depth, side),
        negamax(b, depth, side) <= alpha ==> ab_value(b, depth, alpha, beta, side) <= alpha,
        negamax(b, depth, side) >= beta ==> ab_value(b, depth, alpha, beta, side) >= beta,
        -32767 <= ab_value(b, depth, alpha, beta, side) <= 32767,
        depth > 0 ==> ab_value(b, depth, alpha, beta, side) >= alpha,
    decreases depth, 1nat, 0nat,
{
    if depth > 0 {
        let legal = legal_moves(b, b.piece_list, side);
        let so = search_order(legal);
        let v = negamax(b, depth, side);
        let a = ab_value(b, depth, alpha, beta, side);
        assert(v == negamax_from(b, legal, 0, -32767, side, depth));
        assert(a == ab_from(b, so, so.len() as int, alpha, beta, side, depth));
        lemma_negamax_from_best(b, legal, 0, -32767, side, depth);
        let t = top_back(b, so, so.len() as int, alpha, side, depth);
        lemma_top_back_best(b, so, so.len() as int, alpha, side, depth);
        lemma_ab_from_top(b, so, so.len() as int, alpha, beta, side, depth);
        lemma_search_order_same_moves(legal);
        if alpha < v {
            let i = choose|i: int| 0 <= i < legal.len() && can_make(b, legal[i]) && v == #[trigger] child_value(b, legal[i], depth, side);
            assert(so.contains(legal[i]));
            let j = choose|j: int| 0 <= j < so.len() && so[j] == legal[i];
            assert(t >= child_value(b, so[j], depth, side));
            if t != alpha {
                let k = choose|k: int| 0 <= k < so.len() && can_make(b, so[k]) && t == #[trigger] child_value(b, so[k], depth, side);
                assert(legal.contains(so[k]));
                let i2 = choose|i2: int| 0 <= i2 < legal.len() && legal[i2] == so[k];
                assert(v >= child_value(b, legal[i2], depth, side));
            }
            assert(t == v);
        } else {
            if t != alpha {
                let k = choose|k: int| 0 <= k < so.len() && can_make(b, so[k]) && t == #[trigger] child_value(b, so[k], depth, side);
                assert(legal.contains(so[k]));
                let i2 = choose|i2: int| 0 <= i2 < legal.len() && legal[i2] == so[k];
                assert(v >= child_value(b, legal[i2], depth, side));
            }
            assert(t == alpha);
        }
    }
}

/// The negamax value lies in `-32767 ..= 32767`.
pub proof fn lemma_negamax_range(b: ChessBoard, depth: nat, side: Color)
    ensures
        -32767 <= negamax(b, depth, side) <= 32767,
    decreases depth,
{
    if depth > 0 {
        let legal = legal_moves(b, b.piece_list, side);
        let v = negamax(b, depth, side);
        lemma_negamax_from_best(b, legal, 0, -32767, side, depth);
        if v != -32767 {
            let i = choose|i: int| 0 <= i < legal.len() && can_make(b, legal[i]) && v == #[trigger] child_value(b, legal[i], depth, side);
            lemma_negamax_range(after_move(b, legal[i]), (depth - 1) as nat, side.spec_opposite());
        }
    }
}

/// Alpha-beta pruning in the full window gives the negamax value: pruning
/// and the order the moves are tried in do not change the result.
pub proof fn lemma_alpha_beta_is_negamax(b: ChessBoard, depth: nat, side: Color)
    ensures
        ab_value(b, depth, -32767, 32767, side) == negamax(b, depth, side),
{
    lemma_negamax_range(b, depth, side);
    lemma_ab_matches_negamax(b, depth, -32767, 32767, side);
}

} // verus!
