//! Composable evaluation: heuristic components, each scoring a position
//! from white's side, interpolated between midgame and endgame values by
//! the game phase, and summed by a composite evaluator.

use vstd::prelude::*;

use crate::game_state::board::ChessBoard;
use crate::game_state::board::moves::Move;
use crate::game_state::board::piece::Piece;
use crate::game_state::board::piece_list::PieceList;

pub mod material;
pub mod piece_square;

verus! {

/// Maximum phase value (all pieces present).
pub const TOTAL_PHASE: i16 = 256;

/// The game phase, between 0 (pure endgame) and [`TOTAL_PHASE`] (pure
/// midgame).
#[derive(Clone, Copy, Debug)]
pub struct GamePhase {
    pub phase: i16,
}

/// `v` limited to `lo ..= hi`.
pub open spec fn clamp(v: int, lo: int, hi: int) -> int {
    if v < lo {
        lo
    } else if v > hi {
        hi
    } else {
        v
    }
}

/// Integer division rounding towards zero, as Rust's `/` does.
pub open spec fn div_toward_zero(a: int, b: int) -> int {
    if a >= 0 {
        a / b
    } else {
        -((-a) / b)
    }
}

/// The tapered score of a midgame and an endgame value at a phase:
/// `(mg * phase + eg * (256 - phase)) / 256`, rounded towards zero.
pub open spec fn tapered(mg: int, eg: int, phase: int) -> int {
    div_toward_zero(mg * phase + eg * (256 - phase), 256)
}

impl GamePhase {
    /// Creates a game phase, clamped to `0 ..= 256`.
    pub fn new(phase: i16) -> (r: Self)
        ensures
            r.phase == clamp(phase as int, 0, 256),
    {
        let clamped = if phase < 0 {
            0
        } else if phase > TOTAL_PHASE {
            TOTAL_PHASE
        } else {
            phase
        };
        Self { phase: clamped }
    }

    /// The phase value.
    pub fn value(&self) -> (r: i16)
        ensures
            r == self.phase,
    {
        self.phase
    }
}

/// A midgame and an endgame score, interpolated by the game phase.
#[derive(Clone, Copy, Debug)]
pub struct TaperedScore {
    pub mg: i16,
    pub eg: i16,
}

impl TaperedScore {
    /// Creates a tapered score pair.
    pub fn new(mg: i16, eg: i16) -> (r: Self)
        ensures
            r.mg == mg,
            r.eg == eg,
    {
        Self { mg, eg }
    }

    /// Interpolates between midgame and endgame at a phase (see
    /// [`tapered`]); the result is cut to 16 bits, which changes nothing for
    /// a phase in `0 ..= 256`.
    pub fn interpolate(&self, phase: &GamePhase) -> (r: i16)
        ensures
            r == tapered(self.mg as int, self.eg as int, phase.phase as int) as i16,
            0 <= phase.phase <= 256 ==> r == tapered(self.mg as int, self.eg as int, phase.phase as int),
    {
        let p = phase.value() as i64;
        let mg = self.mg as i64;
        let eg = self.eg as i64;
        let total = TOTAL_PHASE as i64;
        assert(-32768 * 32768 <= mg * p <= 32768 * 32768) by (nonlinear_arith)
            requires
                -32768 <= mg <= 32767,
                -32768 <= p <= 32767,
        ;
        assert(-32768 * 33024 <= eg * (total - p) <= 32768 * 33024) by (nonlinear_arith)
            requires
                -32768 <= eg <= 32767,
                -32768 <= p <= 32767,
                total == 256,
        ;
        let sum = mg * p + eg * (total - p);
        let q = if sum >= 0 {
            sum / total
        } else {
            -((-sum) / total)
        };
        proof {
            if 0 <= p <= 256 {
                assert(-32768 * 256 <= mg * p + eg * (total - p) <= 32767 * 256) by (nonlinear_arith)
                    requires
                        -32768 <= mg <= 32767,
                        -32768 <= eg <= 32767,
                        0 <= p <= 256,
                        total == 256,
                ;
            }
        }
        #[verifier::truncate]
        (q as i16)
    }
}

/// A full evaluation of a board from white's side, in centipawns.
pub trait Evaluator {
    /// The evaluation of a board from white's side.
    spec fn evaluation(&self, board: ChessBoard) -> i16;

    /// Evaluates the board from white's side.
    fn evaluate(&self, board: &ChessBoard) -> (r: i16)
        requires
            board.wf(),
        ensures
            r == self.evaluation(*board),
    ;

    /// The evaluation after a move has been made, given the one before it;
    /// by default a full evaluation.
    fn evaluate_incremental(&self, board: &ChessBoard, mv: &Move, prev_score: i16) -> (r: i16)
        requires
            board.wf(),
        default_ensures
            r == self.evaluation(*board),
    {
        self.evaluate(board)
    }
}

/// One heuristic component of an evaluation.
pub trait HeuristicComponent {
    /// The component's score of a board from white's side at a game phase.
    spec fn score_of(&self, board: ChessBoard, phase: int) -> i16;

    /// The component's score from white's side at a game phase.
    fn score(&self, board: &ChessBoard, phase: &GamePhase) -> (r: i16)
        requires
            board.wf(),
            0 <= phase.phase <= 256,
        ensures
            r == self.score_of(*board, phase.phase as int),
    ;

    /// The change of the score after a move, or `None` when the component
    /// does not update incrementally.
    fn delta(&self, board: &ChessBoard, mv: &Move) -> (r: Option<i16>)
        default_ensures
            r is None,
    {
        None
    }
}

/// The game phase of a set of piece lists: 40 per queen, 20 per rook, 12
/// per bishop or knight, of both sides.
pub open spec fn phase_of(pl: PieceList) -> int {
    40 * (pl.count(Piece::WhiteQueen) + pl.count(Piece::BlackQueen)) + 20 * (pl.count(Piece::WhiteRook)
        + pl.count(Piece::BlackRook)) + 12 * (pl.count(Piece::WhiteBishop) + pl.count(Piece::BlackBishop)
        + pl.count(Piece::WhiteKnight) + pl.count(Piece::BlackKnight))
}

/// The sum of a list of scores, saturated to `-32767 ..= 32767` after each
/// addition.
pub open spec fn saturated_sum(start: int, scores: Seq<i16>) -> int
    decreases scores.len(),
{
    if scores.len() == 0 {
        start
    } else {
        clamp(saturated_sum(start, scores.drop_last()) + scores.last(), -32767, 32767)
    }
}

/// Adds up component scores, saturating to `-32767 ..= 32767` after each
/// addition.
pub fn sum_scores(start: i16, scores: &Vec<i16>) -> (r: i16)
    requires
        -32767 <= start,
    ensures
        r == saturated_sum(start as int, scores@),
{
    let mut total: i16 = start;
    let mut i: usize = 0;
    while i < scores.len()
        invariant
            i <= scores@.len(),
            -32767 <= start,
            total == saturated_sum(start as int, scores@.take(i as int)),
            -32767 <= total,
        decreases scores@.len() - i,
    {
        assert(scores@.take(i as int + 1).drop_last() =~= scores@.take(i as int));
        let sum = total as i32 + scores[i] as i32;
        total = if sum > 32767 {
            32767
        } else if sum < -32767 {
            -32767
        } else {
            sum as i16
        };
        i = i + 1;
    }
    assert(scores@.take(i as int) =~= scores@);
    total
}

/// Sums the scores of several heuristic components at a shared game phase.
pub struct CompositeEvaluator {
    components: Vec<Box<dyn HeuristicComponent>>,
}

impl CompositeEvaluator {
    /// Creates a composite evaluator from heuristic components.
    pub fn new(components: Vec<Box<dyn HeuristicComponent>>) -> (r: Self)
        ensures
            r.num_components() == components@.len(),
    {
        Self { components }
    }

    /// The number of components.
    pub closed spec fn num_components(&self) -> nat {
        self.components@.len()
    }

    /// Computes the game phase of a board (see [`phase_of`]), clamped to
    /// `0 ..= 256`.
    pub fn compute_phase(&self, board: &ChessBoard) -> (r: GamePhase)
        requires
            board.piece_list.wf(),
        ensures
            r.phase == clamp(phase_of(board.piece_list), 0, 256),
    {
        let piece_list = &board.piece_list;
        let mut phase: i64 = 0;
        phase += piece_list.count_pieces(Piece::WhiteQueen) * 40;
        phase += piece_list.count_pieces(Piece::BlackQueen) * 40;
        phase += piece_list.count_pieces(Piece::WhiteRook) * 20;
        phase += piece_list.count_pieces(Piece::BlackRook) * 20;
        phase += piece_list.count_pieces(Piece::WhiteBishop) * 12;
        phase += piece_list.count_pieces(Piece::BlackBishop) * 12;
        phase += piece_list.count_pieces(Piece::WhiteKnight) * 12;
        phase += piece_list.count_pieces(Piece::BlackKnight) * 12;
        GamePhase::new(phase as i16)
    }

    /// The scores of every component at a phase, in order.
    fn component_scores(&self, board: &ChessBoard, phase: &GamePhase) -> (r: Vec<i16>)
        requires
            board.wf(),
            0 <= phase.phase <= 256,
        ensures
            r@ == self.scores_at(*board, phase.phase as int),
    {
        let mut scores: Vec<i16> = Vec::new();
        let mut i: usize = 0;
        while i < self.components.len()
            invariant
                board.wf(),
                0 <= phase.phase <= 256,
                i <= self.components@.len(),
                scores@ == self.scores_at(*board, phase.phase as int).take(i as int),
            decreases self.components@.len() - i,
        {
            scores.push(self.components[i].score(board, phase));
            i = i + 1;
            assert(scores@ =~= self.scores_at(*board, phase.phase as int).take(i as int));
        }
        assert(scores@ =~= self.scores_at(*board, phase.phase as int));
        scores
    }

    /// The scores of every component of a board at a phase, in order.
    pub closed spec fn scores_at(&self, board: ChessBoard, phase: int) -> Seq<i16> {
        Seq::new(self.components@.len(), |i: int| self.components@[i].score_of(board, phase))
    }
}

impl Default for CompositeEvaluator {
    /// The standard evaluator: material, then piece-square tables.
    fn default() -> (r: Self)
        ensures
            r.num_components() == 2,
    {
        let material: Box<dyn HeuristicComponent> = Box::new(material::MaterialHeuristic);
        let piece_square: Box<dyn HeuristicComponent> = Box::new(piece_square::PieceSquareHeuristic);
        let components: Vec<Box<dyn HeuristicComponent>> = vec![material, piece_square];
        Self { components }
    }
}

impl Evaluator for CompositeEvaluator {
    /// The components' scores at the board's game phase, summed with
    /// saturation to `-32767 ..= 32767`.
    open spec fn evaluation(&self, board: ChessBoard) -> i16 {
        saturated_sum(0, self.scores_at(board, clamp(phase_of(board.piece_list), 0, 256))) as i16
    }

    /// Sums the components' scores at the board's game phase, saturating to
    /// `-32767 ..= 32767`.
    fn evaluate(&self, board: &ChessBoard) -> (r: i16) {
        let phase = self.compute_phase(board);
        let scores = self.component_scores(board, &phase);
        sum_scores(0, &scores)
    }

    /// Adds the components' deltas to the previous score; as soon as one
    /// component has no delta, evaluates the board in full instead.
    fn evaluate_incremental(&self, board: &ChessBoard, mv: &Move, prev_score: i16) -> (r: i16)
        ensures
            -32767 <= r <= 32767,
            self.num_components() == 0 ==> r == clamp(prev_score as int, -32767, 32767),
    {
        let mut total: i16 = if prev_score < -32767 {
            -32767
        } else {
            prev_score
        };
        let mut i: usize = 0;
        while i < self.components.len()
            invariant
                board.wf(),
                i <= self.components@.len(),
                -32767 <= total <= 32767,
                self.components@.len() == 0 ==> total == clamp(prev_score as int, -32767, 32767),
            decreases self.components@.len() - i,
        {
            if let Some(delta) = self.components[i].delta(board, mv) {
                let sum = total as i32 + delta as i32;
                total = if sum > 32767 {
                    32767
                } else if sum < -32767 {
                    -32767
                } else {
                    sum as i16
                };
            } else {
                total = self.evaluate(board);
                break;
            }
            i = i + 1;
        }
        total
    }
}

} // verus!
