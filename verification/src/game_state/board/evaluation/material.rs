//! Material evaluation: piece values with a tapered bishop pair bonus.

use vstd::prelude::*;

use crate::game_state::board::ChessBoard;
use crate::game_state::board::evaluation::{clamp, tapered, GamePhase, HeuristicComponent, TaperedScore};
use crate::game_state::board::piece::Piece;
use crate::game_state::board::piece_list::PieceList;

verus! {

/// Pawn value in the midgame.
pub const PAWN_MG: i16 = 100;
/// Pawn value in the endgame.
pub const PAWN_EG: i16 = 100;
/// Knight value in the midgame.
pub const KNIGHT_MG: i16 = 300;
/// Knight value in the endgame.
pub const KNIGHT_EG: i16 = 300;
/// Bishop value in the midgame.
pub const BISHOP_MG: i16 = 300;
/// Bishop value in the endgame.
pub const BISHOP_EG: i16 = 300;
/// Rook value in the midgame.
pub const ROOK_MG: i16 = 500;
/// Rook value in the endgame.
pub const ROOK_EG: i16 = 500;
/// Queen value in the midgame.
pub const QUEEN_MG: i16 = 900;
/// Queen value in the endgame.
pub const QUEEN_EG: i16 = 900;
/// King value in the midgame.
pub const KING_MG: i16 = 20000;
/// King value in the endgame.
pub const KING_EG: i16 = 20000;
/// Bishop pair bonus in the midgame.
pub const BISHOP_PAIR_MG: i16 = 30;
/// Bishop pair bonus in the endgame.
pub const BISHOP_PAIR_EG: i16 = 50;

/// Weighs material counts by piece values: pawn, knight, bishop, rook,
/// queen, king, white minus black.
pub open spec fn weighed_material(pl: PieceList, pawn: int, knight: int, bishop: int, rook: int, queen: int, king: int) -> int {
    pawn * (pl.count(Piece::WhitePawn) - pl.count(Piece::BlackPawn)) + knight * (pl.count(Piece::WhiteKnight)
        - pl.count(Piece::BlackKnight)) + bishop * (pl.count(Piece::WhiteBishop) - pl.count(Piece::BlackBishop))
        + rook * (pl.count(Piece::WhiteRook) - pl.count(Piece::BlackRook)) + queen * (pl.count(Piece::WhiteQueen)
        - pl.count(Piece::BlackQueen)) + king * (pl.count(Piece::WhiteKing) - pl.count(Piece::BlackKing))
}

/// The bishop pair bonus, white minus black: `bonus` to a side with two or
/// more bishops.
pub open spec fn bishop_pair(pl: PieceList, bonus: int) -> int {
    (if pl.count(Piece::WhiteBishop) >= 2 { bonus } else { 0 }) - (if pl.count(Piece::BlackBishop) >= 2 { bonus } else { 0 })
}

/// The material score at a phase: midgame and endgame material with the
/// bishop pair bonus, each saturated to `-32767 ..= 32767`, tapered.
pub open spec fn material_heuristic(pl: PieceList, phase: int) -> int {
    let mg = weighed_material(pl, 100, 300, 300, 500, 900, 20000) + bishop_pair(pl, 30);
    let eg = weighed_material(pl, 100, 300, 300, 500, 900, 20000) + bishop_pair(pl, 50);
    tapered(clamp(mg, -32767, 32767), clamp(eg, -32767, 32767), phase)
}

/// The piece of the same kind and the other colour.
pub open spec fn other_colour(p: Piece) -> Piece {
    Piece::make(p.kind(), p.color().spec_opposite())
}

/// The second piece list holds the first one's pieces with their colours
/// swapped: as many pieces of each kind and colour as the first holds of
/// that kind and the other colour.
pub open spec fn colours_swapped(pl1: PieceList, pl2: PieceList) -> bool {
    forall|p: Piece| p.is_piece() ==> #[trigger] pl2.count(p) == pl1.count(other_colour(p))
}

/// Rounding towards zero treats a value and its negation alike.
proof fn lemma_tapered_negated(mg: int, eg: int, phase: int)
    ensures
        tapered(-mg, -eg, phase) == -tapered(mg, eg, phase),
{
    assert((-mg) * phase + (-eg) * (256 - phase) == -(mg * phase + eg * (256 - phase))) by (nonlinear_arith);
}

/// The material score is colour-blind: swapping the colours of all pieces
/// negates it, at every phase. A white bishop pair counts for white exactly
/// as a black one counts against it, and so does each piece.
pub proof fn lemma_material_colour_symmetry(pl1: PieceList, pl2: PieceList, phase: int)
    requires
        colours_swapped(pl1, pl2),
    ensures
        material_heuristic(pl2, phase) == -material_heuristic(pl1, phase),
{
    assert(pl2.count(Piece::WhitePawn) == pl1.count(Piece::BlackPawn));
    assert(pl2.count(Piece::BlackPawn) == pl1.count(Piece::WhitePawn));
    assert(pl2.count(Piece::WhiteKnight) == pl1.count(Piece::BlackKnight));
    assert(pl2.count(Piece::BlackKnight) == pl1.count(Piece::WhiteKnight));
    assert(pl2.count(Piece::WhiteBishop) == pl1.count(Piece::BlackBishop));
    assert(pl2.count(Piece::BlackBishop) == pl1.count(Piece::WhiteBishop));
    assert(pl2.count(Piece::WhiteRook) == pl1.count(Piece::BlackRook));
    assert(pl2.count(Piece::BlackRook) == pl1.count(Piece::WhiteRook));
    assert(pl2.count(Piece::WhiteQueen) == pl1.count(Piece::BlackQueen));
    assert(pl2.count(Piece::BlackQueen) == pl1.count(Piece::WhiteQueen));
    assert(pl2.count(Piece::WhiteKing) == pl1.count(Piece::BlackKing));
    assert(pl2.count(Piece::BlackKing) == pl1.count(Piece::WhiteKing));
    let w1 = weighed_material(pl1, 100, 300, 300, 500, 900, 20000);
    let w2 = weighed_material(pl2, 100, 300, 300, 500, 900, 20000);
    assert(w2 == -w1);
    assert(bishop_pair(pl2, 30) == -bishop_pair(pl1, 30));
    assert(bishop_pair(pl2, 50) == -bishop_pair(pl1, 50));
    let mg1 = clamp(w1 + bishop_pair(pl1, 30), -32767, 32767);
    let eg1 = clamp(w1 + bishop_pair(pl1, 50), -32767, 32767);
    assert(clamp(w2 + bishop_pair(pl2, 30), -32767, 32767) == -mg1);
    assert(clamp(w2 + bishop_pair(pl2, 50), -32767, 32767) == -eg1);
    lemma_tapered_negated(mg1, eg1, phase);
}

/// Heuristic component that scores material balance with a bishop pair
/// bonus.
pub struct MaterialHeuristic;

/// Saturates a score to `-32767 ..= 32767`.
fn saturate_score(v: i64) -> (r: i16)
    ensures
        r == clamp(v as int, -32767, 32767),
{
    if v > 32767 {
        32767
    } else if v < -32767 {
        -32767
    } else {
        v as i16
    }
}

impl HeuristicComponent for MaterialHeuristic {
    /// The material score (see [`material_heuristic`]).
    open spec fn score_of(&self, board: ChessBoard, phase: int) -> i16 {
        material_heuristic(board.piece_list, phase) as i16
    }

    /// The material score (see [`material_heuristic`]).
    fn score(&self, board: &ChessBoard, phase: &GamePhase) -> (r: i16)
        ensures
            r == material_heuristic(board.piece_list, phase.phase as int),
    {
        let piece_list = &board.piece_list;
        let w_pawn = piece_list.count_pieces(Piece::WhitePawn);
        let b_pawn = piece_list.count_pieces(Piece::BlackPawn);
        let w_knight = piece_list.count_pieces(Piece::WhiteKnight);
        let b_knight = piece_list.count_pieces(Piece::BlackKnight);
        let w_bishop = piece_list.count_pieces(Piece::WhiteBishop);
        let b_bishop = piece_list.count_pieces(Piece::BlackBishop);
        let w_rook = piece_list.count_pieces(Piece::WhiteRook);
        let b_rook = piece_list.count_pieces(Piece::BlackRook);
        let w_queen = piece_list.count_pieces(Piece::WhiteQueen);
        let b_queen = piece_list.count_pieces(Piece::BlackQueen);
        let w_king = piece_list.count_pieces(Piece::WhiteKing);
        let b_king = piece_list.count_pieces(Piece::BlackKing);
        let material_mg: i64 = PAWN_MG as i64 * (w_pawn - b_pawn) + KNIGHT_MG as i64 * (w_knight - b_knight)
            + BISHOP_MG as i64 * (w_bishop - b_bishop) + ROOK_MG as i64 * (w_rook - b_rook) + QUEEN_MG as i64 * (
        w_queen - b_queen) + KING_MG as i64 * (w_king - b_king);
        let material_eg: i64 = PAWN_EG as i64 * (w_pawn - b_pawn) + KNIGHT_EG as i64 * (w_knight - b_knight)
            + BISHOP_EG as i64 * (w_bishop - b_bishop) + ROOK_EG as i64 * (w_rook - b_rook) + QUEEN_EG as i64 * (
        w_queen - b_queen) + KING_EG as i64 * (w_king - b_king);
        let w_bishop_pair: i64 = if w_bishop >= 2 { BISHOP_PAIR_MG as i64 } else { 0 };
        let b_bishop_pair: i64 = if b_bishop >= 2 { BISHOP_PAIR_MG as i64 } else { 0 };
        let pair_mg = w_bishop_pair - b_bishop_pair;
        let w_bishop_pair_eg: i64 = if w_bishop >= 2 { BISHOP_PAIR_EG as i64 } else { 0 };
        let b_bishop_pair_eg: i64 = if b_bishop >= 2 { BISHOP_PAIR_EG as i64 } else { 0 };
        let pair_eg = w_bishop_pair_eg - b_bishop_pair_eg;
        let tapered = TaperedScore::new(saturate_score(material_mg + pair_mg), saturate_score(material_eg + pair_eg));
        tapered.interpolate(phase)
    }

    /// Material has no incremental update.
    fn delta(&self, _board: &ChessBoard, _mv: &crate::game_state::board::moves::Move) -> (r: Option<i16>)
        ensures
            r is None,
    {
        None
    }
}

} // verus!
