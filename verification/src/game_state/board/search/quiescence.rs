//! Quiescence search: beyond the depth limit, only captures are searched,
//! so that a position is not judged in the middle of an exchange.

use vstd::prelude::*;

use crate::game_state::board::{
    lemma_capture_removes_piece, lemma_made_same_position, lemma_made_unique, lemma_piece_count_nonneg, piece_count, same_position,
    ChessBoard,
};
use crate::game_state::board::analysis::{clamp_score, material};
use crate::game_state::board::evaluation::clamp;
use crate::game_state::board::piece_list::congruence::lemma_legal_moves_congruent;
use crate::game_state::board::piece_list::movegen::legal_moves;
use crate::game_state::perft::{after_move, can_make};
use crate::game_state::board::moves::Move;
use crate::game_state::board::piece::Color;
use crate::game_state::board::piece_list::movegen::all_fit;
use crate::game_state::board::search::{lemma_fits_same_position, lemma_undoable_same_position, restored};

verus! {

/// Keeps, in order, the moves that capture a piece.
fn keep_captures(moves: &Vec<Move>) -> (r: Vec<Move>)
    ensures
        r@ == moves@.filter(|m: Move| m.removes_piece()),
{
    let ghost pred = |m: Move| m.removes_piece();
    let mut captures: Vec<Move> = Vec::new();
    let mut i: usize = 0;
    while i < moves.len()
        invariant
            i <= moves@.len(),
            pred == (|m: Move| m.removes_piece()),
            captures@ == moves@.take(i as int).filter(pred),
        decreases moves@.len() - i,
    {
        let mv = moves[i];
        proof {
            reveal(Seq::filter);
            assert(moves@.take(i as int + 1).drop_last() =~= moves@.take(i as int));
        }
        if mv.is_capture() {
            captures.push(mv);
        }
        i = i + 1;
    }
    assert(moves@.take(i as int) =~= moves@);
    captures
}

/// The moves of a list that capture a piece, in order.
pub open spec fn captures_of(moves: Seq<Move>) -> Seq<Move> {
    moves.filter(|m: Move| m.removes_piece())
}

/// The value of a quiescence search of `b` with `side` to move in the
/// window `alpha .. beta`: `beta` when the material evaluation from
/// white's side reaches it; otherwise the captures are tried from the
/// evaluation (or `alpha`, if higher) on (see [`quiesce_from`]).
pub open spec fn quiesce(b: ChessBoard, alpha: int, beta: int, side: Color) -> int
    decreases piece_count(b.board_squares@, 120), 1int, 0int,
{
    let stand = clamp_score(material(b.piece_list)) as int;
    if stand >= beta {
        beta
    } else {
        quiesce_from(
            b,
            captures_of(legal_moves(b, b.piece_list, side)),
            0,
            if stand > alpha {
                stand
            } else {
                alpha
            },
            beta,
            side,
        )
    }
}

/// The value of trying the captures from the `i`-th on, with `alpha`
/// raised so far: each capture that can be made is valued as the negated
/// value of the position after it with the window turned round; `beta` as soon as one
/// reaches it, otherwise `alpha` raised to the highest.
pub open spec fn quiesce_from(b: ChessBoard, captures: Seq<Move>, i: int, alpha: int, beta: int, side: Color) -> int
    decreases piece_count(b.board_squares@, 120), 0int, captures.len() - i,
{
    if i < 0 || i >= captures.len() {
        alpha
    } else {
        let b1 = after_move(b, captures[i]);
        if can_make(b, captures[i]) && 0 <= piece_count(b1.board_squares@, 120) < piece_count(b.board_squares@, 120) {
            let score = -quiesce(b1, -beta, -alpha, side.spec_opposite());
            if score >= beta {
                beta
            } else {
                quiesce_from(
                    b,
                    captures,
                    i + 1,
                    if score > alpha {
                        score
                    } else {
                        alpha
                    },
                    beta,
                    side,
                )
            }
        } else {
            alpha
        }
    }
}

/// Boards in the same position have the same quiescence values.
pub proof fn lemma_quiesce_congruent(b1: ChessBoard, b2: ChessBoard, alpha: int, beta: int, side: Color)
    requires
        same_position(b1, b2),
    ensures
        quiesce(b1, alpha, beta, side) == quiesce(b2, alpha, beta, side),
    decreases piece_count(b1.board_squares@, 120), 1int, 0int,
{
    lemma_legal_moves_congruent(b1, b1.piece_list, b2, b2.piece_list, side);
    assert(material(b1.piece_list) == material(b2.piece_list));
    let stand = clamp_score(material(b1.piece_list)) as int;
    if stand < beta {
        let caps = captures_of(legal_moves(b1, b1.piece_list, side));
        let a = if stand > alpha {
            stand
        } else {
            alpha
        };
        lemma_quiesce_from_congruent(b1, b2, caps, 0, a, beta, side);
    }
}

/// Boards in the same position give the same values of trying captures.
pub proof fn lemma_quiesce_from_congruent(
    b1: ChessBoard,
    b2: ChessBoard,
    captures: Seq<Move>,
    i: int,
    alpha: int,
    beta: int,
    side: Color,
)
    requires
        same_position(b1, b2),
    ensures
        quiesce_from(b1, captures, i, alpha, beta, side) == quiesce_from(b2, captures, i, alpha, beta, side),
    decreases piece_count(b1.board_squares@, 120), 0int, captures.len() - i,
{
    if 0 <= i < captures.len() {
        let m = captures[i];
        let x1 = after_move(b1, m);
        let x2 = after_move(b2, m);
        if can_make(b1, m) {
            lemma_made_same_position(b1, b2, x1, m);
            lemma_made_same_position(b2, b1, x2, m);
            lemma_made_unique(b1, x1, x2, m);
        } else if can_make(b2, m) {
            lemma_made_same_position(b2, b1, x2, m);
        }
        if can_make(b1, m) && 0 <= piece_count(x1.board_squares@, 120) < piece_count(b1.board_squares@, 120) {
            lemma_quiesce_congruent(x1, x2, -beta, -alpha, side.spec_opposite());
            let score = -quiesce(x1, -beta, -alpha, side.spec_opposite());
            if score < beta {
                let a = if score > alpha {
                    score
                } else {
                    alpha
                };
                lemma_quiesce_from_congruent(b1, b2, captures, i + 1, a, beta, side);
            }
        }
    }
}

/// The quiescence value of `b` with `side` to move, searched without a
/// window: the best of standing pat on the material evaluation from
/// white's side and of every capture, each capture valued as the negated
/// quiescence value of the position after it (see
/// [`quiescence_value_from`]).
pub open spec fn quiescence_value(b: ChessBoard, side: Color) -> int
    decreases piece_count(b.board_squares@, 120), 1int, 0int,
{
    quiescence_value_from(
        b,
        captures_of(legal_moves(b, b.piece_list, side)),
        0,
        clamp_score(material(b.piece_list)) as int,
        side,
    )
}

/// The best of `best` and the values of the captures from the `i`-th on,
/// up to the first that cannot be made.
pub open spec fn quiescence_value_from(b: ChessBoard, captures: Seq<Move>, i: int, best: int, side: Color) -> int
    decreases piece_count(b.board_squares@, 120), 0int, captures.len() - i,
{
    if i < 0 || i >= captures.len() {
        best
    } else {
        let b1 = after_move(b, captures[i]);
        if can_make(b, captures[i]) && 0 <= piece_count(b1.board_squares@, 120) < piece_count(b.board_squares@, 120) {
            let v = -quiescence_value(b1, side.spec_opposite());
            quiescence_value_from(b, captures, i + 1, if v > best { v } else { best }, side)
        } else {
            best
        }
    }
}

/// The best so far is never lowered by the captures still to try.
proof fn lemma_value_from_at_least(b: ChessBoard, captures: Seq<Move>, i: int, best: int, side: Color)
    ensures
        quiescence_value_from(b, captures, i, best, side) >= best,
    decreases captures.len() - i,
{
    if 0 <= i < captures.len() {
        let b1 = after_move(b, captures[i]);
        if can_make(b, captures[i]) && 0 <= piece_count(b1.board_squares@, 120) < piece_count(b.board_squares@, 120) {
            let v = -quiescence_value(b1, side.spec_opposite());
            lemma_value_from_at_least(b, captures, i + 1, if v > best { v } else { best }, side);
        }
    }
}

/// The windowed quiescence search returns the quiescence value cut to the
/// window: the value itself when it lies between `alpha` and `beta`,
/// `alpha` when it is lower and `beta` when it is higher. So a capture
/// whose value beats the stand-pat evaluation raises the result, and no
/// capture is valued above the result unless the result is `beta`.
pub proof fn lemma_quiesce_is_clamped_value(b: ChessBoard, alpha: int, beta: int, side: Color)
    requires
        alpha < beta,
    ensures
        quiesce(b, alpha, beta, side) == clamp(quiescence_value(b, side), alpha, beta),
    decreases piece_count(b.board_squares@, 120), 1int, 0int,
{
    let stand = clamp_score(material(b.piece_list)) as int;
    let caps = captures_of(legal_moves(b, b.piece_list, side));
    lemma_value_from_at_least(b, caps, 0, stand, side);
    if stand < beta {
        let a = if stand > alpha {
            stand
        } else {
            alpha
        };
        lemma_quiesce_from_is_clamped(b, caps, 0, a, stand, alpha, beta, side);
    }
}

/// Trying the captures from the `i`-th on, with `a` the best so far raised
/// to `alpha`, gives the value from there cut to the window.
proof fn lemma_quiesce_from_is_clamped(
    b: ChessBoard,
    captures: Seq<Move>,
    i: int,
    a: int,
    best: int,
    alpha: int,
    beta: int,
    side: Color,
)
    requires
        alpha < beta,
        best < beta,
        a == (if best > alpha { best } else { alpha }),
    ensures
        quiesce_from(b, captures, i, a, beta, side) == clamp(quiescence_value_from(b, captures, i, best, side), alpha, beta),
    decreases piece_count(b.board_squares@, 120), 0int, captures.len() - i,
{
    if 0 <= i < captures.len() {
        let b1 = after_move(b, captures[i]);
        if can_make(b, captures[i]) && 0 <= piece_count(b1.board_squares@, 120) < piece_count(b.board_squares@, 120) {
            let opp = side.spec_opposite();
            lemma_quiesce_is_clamped_value(b1, -beta, -a, opp);
            let v = -quiescence_value(b1, opp);
            let best2 = if v > best { v } else { best };
            lemma_value_from_at_least(b, captures, i + 1, best2, side);
            let score = -quiesce(b1, -beta, -a, opp);
            if score < beta {
                let a2 = if score > a { score } else { a };
                lemma_quiesce_from_is_clamped(b, captures, i + 1, a2, best2, alpha, beta, side);
            }
        }
    }
}

/// The quiescence value is at least the stand-pat evaluation, and at least
/// the negated quiescence value of the position after every capture, when
/// each capture can be made and removes a piece (as every legal capture
/// does).
pub proof fn lemma_quiescence_value_bounds(b: ChessBoard, side: Color)
    requires
        forall|k: int| 0 <= k < captures_of(legal_moves(b, b.piece_list, side)).len() ==> {
            let c = #[trigger] captures_of(legal_moves(b, b.piece_list, side))[k];
            can_make(b, c) && 0 <= piece_count(after_move(b, c).board_squares@, 120) < piece_count(
                b.board_squares@,
                120,
            )
        },
    ensures
        quiescence_value(b, side) >= clamp_score(material(b.piece_list)) as int,
        forall|k: int| 0 <= k < captures_of(legal_moves(b, b.piece_list, side)).len() ==>
            quiescence_value(b, side) >= -quiescence_value(
                after_move(b, #[trigger] captures_of(legal_moves(b, b.piece_list, side))[k]),
                side.spec_opposite(),
            ),
{
    let caps = captures_of(legal_moves(b, b.piece_list, side));
    let stand = clamp_score(material(b.piece_list)) as int;
    lemma_value_from_at_least(b, caps, 0, stand, side);
    assert forall|k: int| 0 <= k < caps.len() implies quiescence_value(b, side) >= -quiescence_value(
        after_move(b, #[trigger] caps[k]),
        side.spec_opposite(),
    ) by {
        lemma_value_from_reaches(b, caps, 0, stand, side, k);
    }
}

/// Trying the captures from the `i`-th on, when each can be made, values
/// at least every capture from there.
proof fn lemma_value_from_reaches(b: ChessBoard, captures: Seq<Move>, i: int, best: int, side: Color, k: int)
    requires
        0 <= i <= k < captures.len(),
        forall|j: int| 0 <= j < captures.len() ==> {
            let c = #[trigger] captures[j];
            can_make(b, c) && 0 <= piece_count(after_move(b, c).board_squares@, 120) < piece_count(
                b.board_squares@,
                120,
            )
        },
    ensures
        quiescence_value_from(b, captures, i, best, side) >= -quiescence_value(after_move(b, captures[k]), side.spec_opposite()),
    decreases captures.len() - i,
{
    let c = captures[i];
    let v = -quiescence_value(after_move(b, c), side.spec_opposite());
    let best2 = if v > best { v } else { best };
    if i == k {
        lemma_value_from_at_least(b, captures, i + 1, best2, side);
    } else {
        lemma_value_from_reaches(b, captures, i + 1, best2, side, k);
    }
}

/// Quiescence search with fail-hard alpha-beta bounds: the evaluation from
/// white's side stands pat; captures are searched while they can raise
/// alpha, and `beta` is returned as soon as a score reaches it. The result
/// lies between `alpha` and `beta` when `alpha <= beta`. Every capture
/// removes a piece, so the search ends. The board is given back in the
/// position it had.
pub fn quiescence(chess_board: &mut ChessBoard, alpha: i16, beta: i16, side_to_move: Color) -> (r: i16)
    requires
        old(chess_board).wf(),
        -32767 <= alpha <= 32767,
        -32767 <= beta <= 32767,
    ensures
        restored(*final(chess_board), *old(chess_board)),
        -32767 <= r <= 32767,
        alpha <= beta ==> alpha <= r <= beta,
        r == quiesce(*old(chess_board), alpha as int, beta as int, side_to_move),
        alpha < beta ==> r == clamp(quiescence_value(*old(chess_board), side_to_move), alpha as int, beta as int),
    decreases piece_count(old(chess_board).board_squares@, 120),
{
    proof {
        if alpha < beta {
            lemma_quiesce_is_clamped_value(*old(chess_board), alpha as int, beta as int, side_to_move);
        }
    }
    let mut best = alpha;
    let stand_pat = chess_board.evaluate();
    if stand_pat >= beta {
        return beta;
    }
    if stand_pat > best {
        best = stand_pat;
    }
    let ghost b0 = *chess_board;
    let ghost alpha0 = best;
    let moves = chess_board.generate_moves(side_to_move);
    let captures = keep_captures(&moves);
    proof {
        let pred = |m: Move| m.removes_piece();
        assert forall|k: int| 0 <= k < captures@.len() implies #[trigger] captures@[k].fits(&b0) && captures@[k].removes_piece() by {
            assert(moves@.filter(pred).contains(captures@[k]));
            moves@.lemma_filter_contains_rev(pred, captures@[k]);
            let j = choose|j: int| 0 <= j < moves@.len() && moves@[j] == captures@[k];
            assert(moves@[j].fits(&b0));
        }
        assert(captures@ == captures_of(legal_moves(b0, b0.piece_list, side_to_move)));
        assert(quiesce(b0, alpha as int, beta as int, side_to_move) == quiesce_from(
            b0,
            captures@,
            0,
            best as int,
            beta as int,
            side_to_move,
        ));
    }
    let mut i: usize = 0;
    while i < captures.len()
        invariant
            chess_board.wf(),
            b0.wf(),
            b0 == *old(chess_board),
            same_position(*chess_board, b0),
            forall|k: int| 0 <= k < captures@.len() ==> #[trigger] captures@[k].fits(&b0) && captures@[k].removes_piece(),
            i <= captures@.len(),
            -32767 <= beta <= 32767,
            -32767 <= best <= 32767,
            alpha <= alpha0 <= best,
            alpha <= beta ==> best <= beta,
            captures@ == captures_of(legal_moves(b0, b0.piece_list, side_to_move)),
            alpha < beta ==> quiesce(b0, alpha as int, beta as int, side_to_move) == clamp(
                quiescence_value(b0, side_to_move),
                alpha as int,
                beta as int,
            ),
            quiesce(b0, alpha as int, beta as int, side_to_move) == quiesce_from(
                b0,
                captures@,
                i as int,
                best as int,
                beta as int,
                side_to_move,
            ),
        decreases captures@.len() - i,
    {
        let mv = captures[i];
        let ghost before = *chess_board;
        proof {
            assert(captures@[i as int].fits(&b0));
            assert(all_fit(seq![mv], b0));
            lemma_fits_same_position(seq![mv], b0, *chess_board);
            assert(seq![mv][0] == mv);
        }
        chess_board.make_move(&mv);
        let ghost after_make = *chess_board;
        proof {
            lemma_capture_removes_piece(before, mv);
            lemma_piece_count_nonneg(after_make.board_squares@, 120);
            assert(piece_count(after_make.board_squares@, 120) < piece_count(b0.board_squares@, 120));
        }
        let score = -quiescence(chess_board, -beta, -best, side_to_move.opposite());
        let ghost after_search = *chess_board;
        proof {
            lemma_undoable_same_position(mv, after_make, *chess_board);
        }
        chess_board.unmake_move(&mv);
        proof {
            crate::game_state::board::lemma_make_visit_unmake(before, after_make, after_search, *chess_board, mv);
            lemma_made_same_position(before, b0, after_make, mv);
            assert(can_make(b0, mv));
            let x = after_move(b0, mv);
            lemma_made_unique(b0, x, after_make, mv);
            lemma_quiesce_congruent(x, after_make, -beta as int, -best as int, side_to_move.spec_opposite());
            assert(piece_count(x.board_squares@, 120) == piece_count(after_make.board_squares@, 120));
            assert(mv == captures@[i as int]);
        }
        if score >= beta {
            return beta;
        }
        if score > best {
            best = score;
        }
        i = i + 1;
    }
    best
}

} // verus!
