//! Search: a low-level recursive tree search ([`SearchAlgorithm`]) and the
//! strategies that drive it ([`Search`]): a single fixed-depth search or
//! iterative deepening.

use std::sync::Arc;
use std::sync::atomic::{AtomicBool, Ordering};
use vstd::prelude::*;

use crate::game_state::board::{same_position, ChessBoard};
use crate::game_state::board::moves::Move;
use crate::game_state::board::piece::Color;
use crate::game_state::board::piece_list::movegen::{all_fit, legal_moves};
use crate::game_state::board::position::share;
use crate::game_state::perft::{after_move, can_make};
use crate::game_state::board::transposition_table::TranspositionTableData;

pub mod minimax_alpha_beta;
pub mod pure_minimax;
pub mod pure_negamax;
pub mod quiescence;
pub mod values;
pub mod alpha_beta_law;

pub use minimax_alpha_beta::MinimaxAlphaBeta;
pub use pure_minimax::PureMinimax;
pub use pure_negamax::PureNegamax;





verus! {

/// The board is well formed and back to the position it had.
pub open spec fn restored(after: ChessBoard, before: ChessBoard) -> bool {
    after.wf() && same_position(after, before)
}

/// Reads the stop flag. The flag is set from outside at any time, so
/// nothing is known of the value read.
pub fn stop_requested(stop_flag: &Arc<AtomicBool>) -> bool {
    stop_flag.load(Ordering::Acquire)
}

/// Sets the stop flag, asking a running search to stop.
pub fn request_stop(stop_flag: &Arc<AtomicBool>) {
    stop_flag.store(true, Ordering::Release);
}

/// A move that fits a board fits every board in the same position.
pub proof fn lemma_fits_same_position(moves: Seq<Move>, b0: ChessBoard, b: ChessBoard)
    requires
        all_fit(moves, b0),
        same_position(b, b0),
    ensures
        all_fit(moves, b),
{
    crate::game_state::board::analysis::lemma_fits_congruent(moves, b0, b);
}

/// Makes `mv` on the board, runs nothing but what leaves the board as it
/// finds it, and proves that after unmaking the board is back.
pub proof fn lemma_undoable_same_position(mv: Move, b1: ChessBoard, b: ChessBoard)
    requires
        mv.undoable(&b1),
        same_position(b, b1),
    ensures
        mv.undoable(&b),
{
    assert(b.board_squares@ == b1.board_squares@);
}

/// The score from white's side of a score from the side to move.
pub open spec fn white_side(score: int, side: Color) -> int {
    if side == Color::White {
        score
    } else {
        -score
    }
}

/// What a search read from outside or left behind: a reading of the stop
/// flag, the answer of a transposition table probe, or an entry it stored.
pub enum Reading {
    Stop(bool),
    Probe(Option<TranspositionTableData>),
    Stored(TranspositionTableData),
}

/// Nothing read from outside changed the course of a search: every reading
/// of the stop flag was `false` and every probe found nothing.
pub open spec fn quiet(rs: Seq<Reading>) -> bool {
    forall|i: int|
        0 <= i < rs.len() ==> match #[trigger] rs[i] {
            Reading::Stop(s) => !s,
            Reading::Probe(p) => p is None,
            Reading::Stored(_) => true,
        }
}

/// No reading of the stop flag was `true`.
pub open spec fn no_stop(rs: Seq<Reading>) -> bool {
    forall|i: int| 0 <= i < rs.len() ==> #[trigger] rs[i] != Reading::Stop(true)
}

/// The readings of two stretches of a search are quiet, or free of a stop,
/// when both are.
pub proof fn lemma_quiet_concat(a: Seq<Reading>, b: Seq<Reading>)
    ensures
        quiet(a + b) == (quiet(a) && quiet(b)),
        no_stop(a + b) == (no_stop(a) && no_stop(b)),
{
    let c = a + b;
    assert forall|i: int| 0 <= i < a.len() implies #[trigger] c[i] == a[i] by {}
    assert forall|i: int| 0 <= i < b.len() implies #[trigger] c[a.len() + i] == b[i] by {}
    if quiet(a) && quiet(b) {
        assert forall|i: int| 0 <= i < c.len() implies match #[trigger] c[i] {
            Reading::Stop(s) => !s,
            Reading::Probe(p) => p is None,
            Reading::Stored(_) => true,
        } by {
            if i < a.len() {
                assert(c[i] == a[i]);
            } else {
                assert(c[i] == b[i - a.len()]);
            }
        }
    }
    if quiet(c) {
        assert forall|i: int| 0 <= i < a.len() implies match #[trigger] a[i] {
            Reading::Stop(s) => !s,
            Reading::Probe(p) => p is None,
            Reading::Stored(_) => true,
        } by {
            assert(c[i] == a[i]);
        }
        assert forall|i: int| 0 <= i < b.len() implies match #[trigger] b[i] {
            Reading::Stop(s) => !s,
            Reading::Probe(p) => p is None,
            Reading::Stored(_) => true,
        } by {
            assert(c[a.len() + i] == b[i]);
        }
    }
    if no_stop(a) && no_stop(b) {
        assert forall|i: int| 0 <= i < c.len() implies #[trigger] c[i] != Reading::Stop(true) by {
            if i < a.len() {
                assert(c[i] == a[i]);
            } else {
                assert(c[i] == b[i - a.len()]);
            }
        }
    }
    if no_stop(c) {
        assert forall|i: int| 0 <= i < a.len() implies #[trigger] a[i] != Reading::Stop(true) by {
            assert(c[i] == a[i]);
        }
        assert forall|i: int| 0 <= i < b.len() implies #[trigger] b[i] != Reading::Stop(true) by {
            assert(c[a.len() + i] == b[i]);
        }
    }
}

/// The best move of the root search over the moves from the `i`-th on,
/// given the best so far: each move that can be made is valued as the
/// negated search value of the position after it; a move replaces the best
/// only with a strictly higher value, so the first of equal moves stays.
pub open spec fn root_best(
    value_of: spec_fn(ChessBoard, nat, Color) -> int,
    b: ChessBoard,
    moves: Seq<Move>,
    i: int,
    best: Option<(int, Move)>,
    side: Color,
    depth: nat,
) -> Option<(int, Move)>
    decreases moves.len() - i,
{
    if i < 0 || i >= moves.len() {
        best
    } else if can_make(b, moves[i]) {
        let value = -value_of(after_move(b, moves[i]), (depth - 1) as nat, side.spec_opposite());
        let next = match best {
            Some((s, m)) => if value > s {
                Some((value, moves[i]))
            } else {
                Some((s, m))
            },
            None => Some((value, moves[i])),
        };
        root_best(value_of, b, moves, i + 1, next, side, depth)
    } else {
        best
    }
}

/// What the root search returns when nothing interrupts it, with the
/// children valued by `value_of`: the best score over the legal moves from
/// white's side with the first move that reaches it, or `(0, None)` when
/// there is no legal move.
pub open spec fn root_result(value_of: spec_fn(ChessBoard, nat, Color) -> int, b: ChessBoard, depth: nat, side: Color) -> (
    int,
    Option<Move>,
) {
    match root_best(value_of, b, legal_moves(b, b.piece_list, side), 0, None, side, depth) {
        Some((s, m)) => (white_side(s, side), Some(m)),
        None => (0, None),
    }
}

/// The root search gives the same result on boards in the same position,
/// when the children's values depend on the position only.
pub proof fn lemma_root_best_congruent(
    value_of: spec_fn(ChessBoard, nat, Color) -> int,
    b1: ChessBoard,
    b2: ChessBoard,
    moves: Seq<Move>,
    i: int,
    best: Option<(int, Move)>,
    side: Color,
    depth: nat,
)
    requires
        same_position(b1, b2),
        forall|x1: ChessBoard, x2: ChessBoard, d: nat, c: Color|
            same_position(x1, x2) ==> #[trigger] value_of(x1, d, c) == #[trigger] value_of(x2, d, c),
    ensures
        root_best(value_of, b1, moves, i, best, side, depth) == root_best(value_of, b2, moves, i, best, side, depth),
    decreases moves.len() - i,
{
    if 0 <= i < moves.len() {
        let m = moves[i];
        if can_make(b1, m) {
            let x1 = after_move(b1, m);
            crate::game_state::board::lemma_made_same_position(b1, b2, x1, m);
            let x2 = after_move(b2, m);
            crate::game_state::board::lemma_made_same_position(b2, b1, x2, m);
            crate::game_state::board::lemma_made_unique(b1, x1, x2, m);
            assert(value_of(x1, (depth - 1) as nat, side.spec_opposite()) == value_of(x2, (depth - 1) as nat, side.spec_opposite()));
            let value = -value_of(x1, (depth - 1) as nat, side.spec_opposite());
            let next = match best {
                Some((s, mm)) => if value > s {
                    Some((value, m))
                } else {
                    Some((s, mm))
                },
                None => Some((value, m)),
            };
            lemma_root_best_congruent(value_of, b1, b2, moves, i + 1, next, side, depth);
        } else if can_make(b2, m) {
            let x2 = after_move(b2, m);
            crate::game_state::board::lemma_made_same_position(b2, b1, x2, m);
        }
    }
}

/// Low-level recursive tree search, returning scores from the side to
/// move's point of view.
pub trait SearchAlgorithm: Sized {
    /// The score the tree search gives for `b` with `side` to move at
    /// `depth` plies when neither the stop flag nor a stored result cuts it
    /// short.
    spec fn search_value(&self, b: ChessBoard, depth: nat, side: Color) -> int;

    /// The search value depends on the position only.
    proof fn lemma_search_value_congruent(&self, b1: ChessBoard, b2: ChessBoard, depth: nat, side: Color)
        requires
            same_position(b1, b2),
        ensures
            self.search_value(b1, depth, side) == self.search_value(b2, depth, side),
    ;

    /// Searches the game tree to `depth` plies and returns a score from the
    /// side to move's point of view, with what it read from outside (the
    /// stop flag, table probes) and stored; when nothing read changed its
    /// course, the score is the search value. The board is given back in
    /// the position it had.
    fn tree_search(&self, board: &mut ChessBoard, depth: u8, side_to_move: Color, stop_flag: Arc<AtomicBool>) -> (r: (
        i16,
        Ghost<Seq<Reading>>,
    ))
        requires
            old(board).wf(),
            old(board).transposition_table.spec_size() > 0,
        ensures
            restored(*final(board), *old(board)),
            -32767 <= r.0 <= 32767,
            quiet(r.1@) ==> r.0 == self.search_value(*old(board), depth as nat, side_to_move),
    ;

    /// Searches every legal move at the root: makes it, searches the rest
    /// of the tree, unmakes it, and keeps the first move with the highest
    /// score. Returns the best score from white's side and the best move,
    /// with what the search read from outside and stored. When the stop
    /// flag is seen, returns the best found so far, or `(0, None)` before
    /// any move was searched; when nothing read changed the course of the
    /// search, the result is [`root_result`], with a move whenever there is
    /// a legal move.
    fn search(&self, board: &mut ChessBoard, depth: u8, side_to_move: Color, stop_flag: Arc<AtomicBool>) -> (r: (
        (i16, Option<Move>),
        Ghost<Seq<Reading>>,
    ))
        requires
            old(board).wf(),
            old(board).transposition_table.spec_size() > 0,
            depth >= 1,
        ensures
            restored(*final(board), *old(board)),
            -32767 <= r.0.0 <= 32767,
            r.0.1 matches Some(m) ==> legal_moves(*old(board), old(board).piece_list, side_to_move).contains(m),
            r.0.1 is None ==> r.0.0 == 0,
            legal_moves(*old(board), old(board).piece_list, side_to_move).len() == 0 ==> r.0 == (0i16, None::<Move>),
            quiet(r.1@) ==> r.0.0 == root_result(
                |b: ChessBoard, d: nat, c: Color| self.search_value(b, d, c),
                *old(board),
                depth as nat,
                side_to_move,
            ).0,
            quiet(r.1@) ==> r.0.1 == root_result(
                |b: ChessBoard, d: nat, c: Color| self.search_value(b, d, c),
                *old(board),
                depth as nat,
                side_to_move,
            ).1,
            no_stop(r.1@) && legal_moves(*old(board), old(board).piece_list, side_to_move).len() > 0 ==> r.0.1 is Some,
    {
        let ghost b0 = *board;
        let ghost ms = legal_moves(b0, b0.piece_list, side_to_move);
        let moves = board.generate_moves(side_to_move);
        let mut best_move: Option<Move> = None;
        let mut best_score: Option<i16> = None;
        let ghost mut seen: Seq<Reading> = Seq::empty();
        let ghost value_of = |b: ChessBoard, d: nat, c: Color| self.search_value(b, d, c);
        let mut i: usize = 0;
        while i < moves.len()
            invariant
                board.wf(),
                b0.wf(),
                b0 == *old(board),
                same_position(*board, b0),
                board.transposition_table.spec_size() > 0,
                depth >= 1,
                moves@ == ms,
                ms == legal_moves(b0, b0.piece_list, side_to_move),
                all_fit(moves@, b0),
                i <= moves@.len(),
                best_score is Some <==> best_move is Some,
                best_score matches Some(s) ==> -32767 <= s <= 32767,
                best_move matches Some(m) ==> moves@.contains(m),
                i == 0 ==> best_move is None,
                i > 0 ==> best_move is Some,
                value_of == (|b: ChessBoard, d: nat, c: Color| self.search_value(b, d, c)),
                quiet(seen) ==> root_best(value_of, b0, ms, 0, None, side_to_move, depth as nat) == root_best(
                    value_of,
                    b0,
                    ms,
                    i as int,
                    match (best_score, best_move) {
                        (Some(s), Some(m)) => Some((s as int, m)),
                        _ => None,
                    },
                    side_to_move,
                    depth as nat,
                ),
            decreases moves@.len() - i,
        {
            let stop = stop_requested(&stop_flag);
            proof {
                lemma_quiet_concat(seen, seq![Reading::Stop(stop)]);
                seen = seen + seq![Reading::Stop(stop)];
                assert(seen[seen.len() - 1] == Reading::Stop(stop));
            }
            if stop {
                if let Some(score) = best_score {
                    let white_score = if side_to_move == Color::White {
                        score
                    } else {
                        -score
                    };
                    return ((white_score, best_move), Ghost(seen));
                }
                return ((0, None), Ghost(seen));
            }
            let mv = moves[i];
            let ghost before = *board;
            proof {
                lemma_fits_same_position(moves@, b0, *board);
                assert(moves@[i as int].fits(board));
            }
            board.make_move(&mv);
            let ghost after_make = *board;
            let (child, child_seen) = self.tree_search(board, depth - 1, side_to_move.opposite(), share(&stop_flag));
            let score = -child;
            let ghost after_search = *board;
            proof {
                lemma_undoable_same_position(mv, after_make, *board);
            }
            board.unmake_move(&mv);
            proof {
                crate::game_state::board::lemma_make_visit_unmake(before, after_make, after_search, *board, mv);
                crate::game_state::board::lemma_made_same_position(before, b0, after_make, mv);
                assert(can_make(b0, mv));
                let x = after_move(b0, mv);
                crate::game_state::board::lemma_made_unique(b0, x, after_make, mv);
                self.lemma_search_value_congruent(x, after_make, (depth - 1) as nat, side_to_move.spec_opposite());
                assert(mv == ms[i as int]);
                lemma_quiet_concat(seen, child_seen@);
                seen = seen + child_seen@;
            }
            if best_score.is_none() || score > best_score.unwrap() {
                best_score = Some(score);
                best_move = Some(mv);
                assert(moves@[i as int] == mv);
            }
            i = i + 1;
        }
        let best_score = best_score.unwrap_or(0);
        let white_score = if side_to_move == Color::White {
            best_score
        } else {
            -best_score
        };
        ((white_score, best_move), Ghost(seen))
    }
}

/// A high-level strategy that drives a [`SearchAlgorithm`].
pub trait Search {
    /// Whether the strategy can run as configured.
    spec fn runnable(&self) -> bool;

    /// Searches and returns a score and the best move found, with what the
    /// search read from outside and stored. The board is given back in the
    /// position it had.
    fn search(&self, board: &mut ChessBoard, side_to_move: Color, stop_flag: Arc<AtomicBool>) -> (r: (
        (i16, Option<Move>),
        Ghost<Seq<Reading>>,
    ))
        requires
            self.runnable(),
            old(board).wf(),
            old(board).transposition_table.spec_size() > 0,
        ensures
            restored(*final(board), *old(board)),
            r.0.1 matches Some(m) ==> legal_moves(*old(board), old(board).piece_list, side_to_move).contains(m),
    ;
}

/// Single search at a fixed depth.
pub struct DepthFirst<A: SearchAlgorithm> {
    max_depth: u8,
    algorithm: A,
}

impl<A: SearchAlgorithm> DepthFirst<A> {
    /// Creates a fixed-depth search strategy.
    pub fn new(algorithm: A, max_depth: u8) -> (r: Self)
        ensures
            r.depth() == max_depth,
    {
        DepthFirst { max_depth, algorithm }
    }

    /// The fixed search depth.
    pub closed spec fn depth(&self) -> u8 {
        self.max_depth
    }

    /// The tree search that drives the strategy.
    pub closed spec fn algorithm_of(&self) -> A {
        self.algorithm
    }
}

impl<A: SearchAlgorithm> Search for DepthFirst<A> {
    /// A fixed-depth search needs a depth of at least one ply.
    closed spec fn runnable(&self) -> bool {
        self.max_depth >= 1
    }

    /// Runs the algorithm's root search at the fixed depth (see
    /// [`SearchAlgorithm::search`] and [`root_result`]).
    fn search(&self, board: &mut ChessBoard, side_to_move: Color, stop_flag: Arc<AtomicBool>) -> (r: (
        (i16, Option<Move>),
        Ghost<Seq<Reading>>,
    ))
        ensures
            -32767 <= r.0.0 <= 32767,
            r.0.1 is None ==> r.0.0 == 0,
            legal_moves(*old(board), old(board).piece_list, side_to_move).len() == 0 ==> r.0 == (0i16, None::<Move>),
            quiet(r.1@) ==> r.0.0 == root_result(
                |b: ChessBoard, d: nat, c: Color| self.algorithm_of().search_value(b, d, c),
                *old(board),
                self.depth() as nat,
                side_to_move,
            ).0,
            quiet(r.1@) ==> r.0.1 == root_result(
                |b: ChessBoard, d: nat, c: Color| self.algorithm_of().search_value(b, d, c),
                *old(board),
                self.depth() as nat,
                side_to_move,
            ).1,
            no_stop(r.1@) && legal_moves(*old(board), old(board).piece_list, side_to_move).len() > 0 ==> r.0.1 is Some,
    {
        self.algorithm.search(board, self.max_depth, side_to_move, stop_flag)
    }
}

/// Iterative deepening: searches at depth 1, 2, ... up to a maximum depth.
pub struct IterativeDeepening<A: SearchAlgorithm> {
    max_depth: u8,
    algorithm: A,
}

impl<A: SearchAlgorithm> IterativeDeepening<A> {
    /// Creates an iterative deepening strategy.
    pub fn new(algorithm: A, max_depth: u8) -> (r: Self)
        ensures
            r.depth() == max_depth,
    {
        IterativeDeepening { max_depth, algorithm }
    }

    /// The maximum search depth.
    pub closed spec fn depth(&self) -> u8 {
        self.max_depth
    }

    /// The tree search that drives the strategy.
    pub closed spec fn algorithm_of(&self) -> A {
        self.algorithm
    }
}

impl<A: SearchAlgorithm> Search for IterativeDeepening<A> {
    /// Iterative deepening can always run.
    closed spec fn runnable(&self) -> bool {
        true
    }

    /// Searches at each depth from 1 up to the maximum until the stop flag
    /// is seen. The score is the last iteration's (or the worst score for
    /// the side to move when none ran); the move is the last one found.
    /// When nothing read changed the course of the search, this is the root
    /// search at the maximum depth (see [`root_result`]).
    fn search(&self, board: &mut ChessBoard, side_to_move: Color, stop_flag: Arc<AtomicBool>) -> (r: (
        (i16, Option<Move>),
        Ghost<Seq<Reading>>,
    ))
        ensures
            self.depth() == 0 ==> r.0 == (if side_to_move == Color::White {
                i16::MIN
            } else {
                i16::MAX
            }, None::<Move>),
            r.0.0 == (if side_to_move == Color::White {
                i16::MIN
            } else {
                i16::MAX
            }) || -32767 <= r.0.0 <= 32767,
            r.0.1 is Some ==> -32767 <= r.0.0 <= 32767,
            r.0.1 is None ==> r.0.0 == 0 || r.0.0 == (if side_to_move == Color::White {
                i16::MIN
            } else {
                i16::MAX
            }),
            legal_moves(*old(board), old(board).piece_list, side_to_move).len() == 0 ==> r.0.1 is None,
            no_stop(r.1@) && self.depth() >= 1 && legal_moves(*old(board), old(board).piece_list, side_to_move).len() > 0
                ==> r.0.1 is Some,
            quiet(r.1@) && self.depth() >= 1 ==> r.0.0 == root_result(
                |b: ChessBoard, d: nat, c: Color| self.algorithm_of().search_value(b, d, c),
                *old(board),
                self.depth() as nat,
                side_to_move,
            ).0,
            quiet(r.1@) && self.depth() >= 1 ==> r.0.1 == root_result(
                |b: ChessBoard, d: nat, c: Color| self.algorithm_of().search_value(b, d, c),
                *old(board),
                self.depth() as nat,
                side_to_move,
            ).1,
    {
        let ghost b0 = *board;
        let ghost initial: i16 = if side_to_move == Color::White {
            i16::MIN
        } else {
            i16::MAX
        };
        let ghost value_of = |b: ChessBoard, d: nat, c: Color| self.algorithm.search_value(b, d, c);
        let ghost mut seen: Seq<Reading> = Seq::empty();
        let mut best_move: Option<Move> = None;
        let mut best_score: i16 = if side_to_move == Color::White {
            i16::MIN
        } else {
            i16::MAX
        };
        if self.max_depth == 0 {
            return ((best_score, best_move), Ghost(seen));
        }
        proof {
            assert forall|x1: ChessBoard, x2: ChessBoard, d: nat, c: Color|
                same_position(x1, x2) implies #[trigger] value_of(x1, d, c) == #[trigger] value_of(x2, d, c) by {
                self.algorithm.lemma_search_value_congruent(x1, x2, d, c);
            }
        }
        let ghost mut last: nat = 0;
        let mut depth: u8 = 1;
        loop
            invariant_except_break
                1 <= depth <= self.max_depth,
                quiet(seen) ==> last + 1 == depth,
            invariant
                board.wf(),
                b0 == *old(board),
                same_position(*board, b0),
                board.transposition_table.spec_size() > 0,
                best_move matches Some(m) ==> legal_moves(b0, b0.piece_list, side_to_move).contains(m),
                best_score == initial || -32767 <= best_score <= 32767,
                best_move is Some ==> -32767 <= best_score <= 32767,
                best_move is None ==> best_score == 0 || best_score == initial,
                legal_moves(b0, b0.piece_list, side_to_move).len() == 0 ==> best_move is None,
                initial == (if side_to_move == Color::White {
                    i16::MIN
                } else {
                    i16::MAX
                }),
                self.max_depth >= 1,
                value_of == (|b: ChessBoard, d: nat, c: Color| self.algorithm.search_value(b, d, c)),
                forall|x1: ChessBoard, x2: ChessBoard, d: nat, c: Color|
                    same_position(x1, x2) ==> #[trigger] value_of(x1, d, c) == #[trigger] value_of(x2, d, c),
                quiet(seen) && last >= 1 ==> best_score as int == root_result(value_of, b0, last, side_to_move).0
                    && best_move == root_result(value_of, b0, last, side_to_move).1,
                no_stop(seen) && last >= 1 && legal_moves(b0, b0.piece_list, side_to_move).len() > 0 ==> best_move is Some,
            ensures
                quiet(seen) ==> last == self.max_depth,
                no_stop(seen) ==> last >= 1,
            decreases 256 - depth,
        {
            let stop = stop_requested(&stop_flag);
            proof {
                lemma_quiet_concat(seen, seq![Reading::Stop(stop)]);
                seen = seen + seq![Reading::Stop(stop)];
                assert(seen[seen.len() - 1] == Reading::Stop(stop));
            }
            if stop {
                break;
            }
            let ghost before = *board;
            let ((score, mv), iteration_seen) = self.algorithm.search(board, depth, side_to_move, share(&stop_flag));
            proof {
                crate::game_state::board::piece_list::congruence::lemma_legal_moves_congruent(
                    before,
                    before.piece_list,
                    b0,
                    b0.piece_list,
                    side_to_move,
                );
                lemma_root_best_congruent(
                    value_of,
                    before,
                    b0,
                    legal_moves(before, before.piece_list, side_to_move),
                    0,
                    None,
                    side_to_move,
                    depth as nat,
                );
                lemma_quiet_concat(seen, iteration_seen@);
                seen = seen + iteration_seen@;
                last = depth as nat;
            }
            best_score = score;
            best_move = match mv {
                Some(m) => Some(m),
                None => best_move,
            };
            if depth == self.max_depth {
                break;
            }
            depth = depth + 1;
        }
        ((best_score, best_move), Ghost(seen))
    }
}

impl ChessBoard {
    /// Searches a copy of the board for the best move of `side_to_move`
    /// with alpha-beta minimax at depth 5, with what the search read from
    /// outside and stored. When nothing read changed the course of the
    /// search, the move is the root search's best (see [`root_result`]),
    /// and there is one whenever there is a legal move.
    pub fn search(&mut self, side_to_move: Color, stop_flag: Arc<AtomicBool>) -> (r: (Option<Move>, Ghost<Seq<Reading>>))
        requires
            old(self).wf(),
            old(self).transposition_table.spec_size() > 0,
        ensures
            *final(self) == *old(self),
            r.0 matches Some(m) ==> legal_moves(*old(self), old(self).piece_list, side_to_move).contains(m),
            legal_moves(*old(self), old(self).piece_list, side_to_move).len() == 0 ==> r.0 is None,
            quiet(r.1@) ==> r.0 == root_result(
                |b: ChessBoard, d: nat, c: Color| MinimaxAlphaBeta.search_value(b, d, c),
                *old(self),
                5,
                side_to_move,
            ).1,
            no_stop(r.1@) && legal_moves(*old(self), old(self).piece_list, side_to_move).len() > 0 ==> r.0 is Some,
    {
        let ghost b0 = *self;
        let mut board_copy = self.clone();
        proof {
            crate::game_state::board::position::lemma_copy_wf(board_copy, b0);
        }
        let ghost copy0 = board_copy;
        let ((_, best_move), seen) = MinimaxAlphaBeta.search(&mut board_copy, 5, side_to_move, stop_flag);
        proof {
            crate::game_state::board::piece_list::congruence::lemma_legal_moves_congruent(
                copy0,
                copy0.piece_list,
                b0,
                b0.piece_list,
                side_to_move,
            );
            let value_of = |b: ChessBoard, d: nat, c: Color| MinimaxAlphaBeta.search_value(b, d, c);
            assert forall|x1: ChessBoard, x2: ChessBoard, d: nat, c: Color|
                same_position(x1, x2) implies #[trigger] value_of(x1, d, c) == #[trigger] value_of(x2, d, c) by {
                MinimaxAlphaBeta.lemma_search_value_congruent(x1, x2, d, c);
            }
            lemma_root_best_congruent(
                value_of,
                copy0,
                b0,
                legal_moves(copy0, copy0.piece_list, side_to_move),
                0,
                None,
                side_to_move,
                5,
            );
        }
        (best_move, seen)
    }
}

} // verus!
