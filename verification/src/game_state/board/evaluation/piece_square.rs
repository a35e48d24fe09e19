//! Piece-square tables (PeSTO values) with tapered evaluation: midgame and
//! endgame tables are stored apart and interpolated by the game phase.
//!
//! The tables are laid out from black's side: index 0 = a8, index 63 = h1.
//! A white piece's index is its square with the rank mirrored.

use vstd::prelude::*;

use crate::game_state::board::{is_inner, standard_of, ChessBoard};
use crate::game_state::board::evaluation::{clamp, tapered, GamePhase, HeuristicComponent, TaperedScore};
use crate::game_state::board::piece::{Color, Piece, PieceType};
use crate::game_state::board::piece_list::{sorted_inner, PieceList};
use crate::game_state::board::piece_list::attacks::lemma_sorted_len;

verus! {

/// Pawn midgame table (index 0 = a8).
pub const PAWN_MG: [i16; 64] = [
    0, 0, 0, 0, 0, 0, 0, 0,
    98, 134, 61, 95, 68, 126, 34, -11,
    -6, 7, 26, 31, 65, 56, 25, -20,
    -14, 13, 6, 21, 23, 12, 17, -23,
    -27, -2, -5, 12, 17, 6, 10, -25,
    -26, -4, -4, -10, 3, 3, 33, -12,
    -35, -1, -20, -23, -15, 24, 38, -22,
    0, 0, 0, 0, 0, 0, 0, 0,
];

/// Pawn endgame table (index 0 = a8).
pub const PAWN_EG: [i16; 64] = [
    0, 0, 0, 0, 0, 0, 0, 0,
    178, 173, 158, 134, 147, 132, 165, 187,
    94, 100, 85, 67, 56, 53, 82, 84,
    32, 24, 13, 5, -2, 4, 17, 17,
    13, 9, -3, -7, -7, -8, 3, -1,
    4, 7, -6, 1, 0, -5, -1, -8,
    13, 8, 8, 10, 13, 0, 2, -7,
    0, 0, 0, 0, 0, 0, 0, 0,
];

/// Knight midgame table (index 0 = a8).
pub const KNIGHT_MG: [i16; 64] = [
    -167, -89, -34, -49, 61, -97, -15, -107,
    -73, -41, 72, 36, 23, 62, 7, -17,
    -47, 60, 37, 65, 84, 129, 73, 44,
    -9, 17, 19, 53, 37, 69, 18, 22,
    -13, 4, 16, 13, 28, 19, 21, -8,
    -23, -9, 12, 10, 19, 17, 25, -16,
    -29, -53, -12, -3, -1, 18, -14, -19,
    -105, -21, -58, -33, -17, -28, -19, -23,
];

/// Knight endgame table (index 0 = a8).
pub const KNIGHT_EG: [i16; 64] = [
    -58, -38, -13, -28, -31, -27, -63, -99,
    -25, -8, -25, -2, -9, -25, -24, -52,
    -24, -20, 10, 9, -1, -9, -19, -41,
    -17, 3, 22, 22, 22, 11, 8, -18,
    -18, -6, 16, 25, 16, 17, 4, -18,
    -23, -3, -1, 15, 10, -3, -20, -22,
    -42, -20, -10, -5, -2, -20, -23, -44,
    -29, -51, -23, -15, -22, -18, -50, -64,
];

/// Bishop midgame table (index 0 = a8).
pub const BISHOP_MG: [i16; 64] = [
    -29, 4, -82, -37, -25, -42, 7, -8,
    -26, 16, -18, -13, 30, 59, 18, -47,
    -16, 37, 43, 40, 35, 50, 37, -2,
    -4, 5, 19, 50, 37, 37, 7, -2,
    -6, 13, 13, 26, 34, 12, 10, 4,
    0, 15, 15, 15, 14, 27, 18, 10,
    4, 15, 16, 0, 7, 21, 33, 1,
    -33, -3, -14, -21, -13, -12, -39, -21,
];

/// Bishop endgame table (index 0 = a8).
pub const BISHOP_EG: [i16; 64] = [
    -14, -21, -11, -8, -7, -9, -17, -24,
    -8, -4, 7, -12, -3, -13, -4, -14,
    2, -8, 0, -1, -2, 6, 0, 4,
    -3, 9, 12, 9, 14, 10, 3, 2,
    -6, 3, 13, 19, 7, 10, -3, -9,
    -12, -3, 8, 10, 13, 3, -7, -15,
    -14, -18, -7, -1, 4, -9, -15, -27,
    -23, -9, -23, -5, -9, -16, -5, -17,
];

/// Rook midgame table (index 0 = a8).
pub const ROOK_MG: [i16; 64] = [
    32, 42, 32, 51, 63, 9, 31, 43,
    27, 32, 58, 62, 80, 67, 26, 44,
    -5, 19, 26, 36, 17, 45, 61, 16,
    -24, -11, 7, 26, 24, 35, -8, -20,
    -36, -26, -12, -1, 9, -7, 6, -23,
    -45, -25, -16, -17, 3, 0, -5, -33,
    -44, -16, -20, -9, -1, 11, -6, -71,
    -19, -13, 1, 17, 16, 7, -37, -26,
];

/// Rook endgame table (index 0 = a8).
pub const ROOK_EG: [i16; 64] = [
    13, 10, 18, 15, 12, 12, 8, 5,
    11, 13, 13, 11, -3, 3, 8, 3,
    7, 7, 7, 5, 4, -3, -5, -3,
    4, 3, 13, 1, 2, 1, -1, 2,
    3, 5, 8, 4, -5, -6, -8, -11,
    -4, 0, -5, -1, -7, -12, -8, -16,
    -6, -6, 0, 2, -9, -9, -11, -3,
    -9, 2, 3, -1, -5, -13, 4, -20,
];

/// Queen midgame table (index 0 = a8).
pub const QUEEN_MG: [i16; 64] = [
    -28, 0, 29, 12, 59, 44, 43, 45,
    -24, -39, -5, 1, -16, 57, 28, 54,
    -13, -17, 7, 8, 29, 56, 47, 57,
    -27, -27, -16, -16, -1, 17, -2, 1,
    -9, -26, -9, -10, -2, -4, 3, -3,
    -14, 2, -11, -2, -5, 2, 14, 5,
    -35, -8, 11, 2, 8, 15, -3, 1,
    -1, -18, -9, 10, -15, -25, -31, -50,
];

/// Queen endgame table (index 0 = a8).
pub const QUEEN_EG: [i16; 64] = [
    -9, 22, 22, 27, 27, 19, 10, 20,
    -17, 20, 32, 41, 58, 25, 30, 0,
    -20, 6, 9, 49, 47, 35, 19, 9,
    3, 22, 24, 45, 57, 40, 57, 36,
    -18, 28, 19, 47, 31, 34, 39, 23,
    -16, -27, 15, 6, 9, 17, 10, 5,
    -22, -23, -30, -16, -16, -23, -36, -32,
    -33, -28, -22, -43, -5, -32, -20, -41,
];

/// King midgame table (index 0 = a8).
pub const KING_MG: [i16; 64] = [
    -65, 23, 16, -15, -56, -34, 2, 13,
    29, -1, -20, -7, -8, -4, -38, -29,
    -9, 24, 2, -16, -20, 6, 22, -22,
    -17, -20, -12, -27, -30, -25, -14, -36,
    -49, -1, -27, -39, -46, -44, -33, -51,
    -14, -14, -22, -46, -44, -30, -15, -27,
    1, 7, -8, -64, -43, -16, 9, 8,
    -15, 36, 12, -54, 8, -28, 24, 14,
];

/// King endgame table (index 0 = a8).
pub const KING_EG: [i16; 64] = [
    -74, -35, -18, -18, -11, 15, 4, -17,
    -12, 17, 14, 17, 17, 38, 23, 11,
    10, 17, 23, 15, 20, 45, 44, 13,
    -8, 22, 24, 27, 26, 33, 26, 3,
    -18, -4, 21, 24, 27, 23, 9, -11,
    -19, -3, 11, 21, 23, 16, 7, -9,
    -27, -11, 4, 13, 14, 4, -5, -17,
    -53, -34, -21, -11, -28, -14, -24, -43,
];

/// The table index of a standard square (0 = a1 .. 63 = h8): the rank
/// mirrored for white, the square itself for black.
pub open spec fn pst_index(sq: int, is_white: bool) -> int {
    if is_white {
        (7 - sq / 8) * 8 + sq % 8
    } else {
        sq
    }
}

/// Looks up a table value for a piece on a standard square (0 = a1 .. 63 =
/// h8); white pieces use the square with its rank mirrored (`sq ^ 56`).
pub fn pst_lookup(pst: &[i16; 64], sq: i16, is_white: bool) -> (r: i16)
    requires
        0 <= sq < 64,
    ensures
        r == pst@[pst_index(sq as int, is_white)],
{
    let idx = if is_white {
        assert(sq ^ 56 == (7 - sq / 8) * 8 + sq % 8) by (bit_vector)
            requires
                0 <= sq < 64,
        ;
        sq ^ 56
    } else {
        sq
    };
    pst[idx as usize]
}

/// Maps an on-board mailbox square to its standard square (0-63).
pub fn to_standard(board: &ChessBoard, internal_sq: i16) -> (r: i16)
    requires
        board.board_width == 10,
        is_inner(internal_sq as int),
    ensures
        r == standard_of(internal_sq as int),
        0 <= r < 64,
{
    board.map_to_standard_chess_board(internal_sq) as i16
}

/// The midgame and endgame tables of a piece's type.
pub open spec fn pst_tables(piece: Piece) -> ([i16; 64], [i16; 64]) {
    match piece.kind() {
        PieceType::Pawn => (PAWN_MG, PAWN_EG),
        PieceType::Knight => (KNIGHT_MG, KNIGHT_EG),
        PieceType::Bishop => (BISHOP_MG, BISHOP_EG),
        PieceType::Rook => (ROOK_MG, ROOK_EG),
        PieceType::Queen => (QUEEN_MG, QUEEN_EG),
        PieceType::King => (KING_MG, KING_EG),
    }
}

/// The midgame and endgame table values of a piece on a standard square
/// (zero for a non-piece).
pub open spec fn pst_pair(piece: Piece, sq: int) -> (i16, i16) {
    if piece.is_piece() {
        let (mg, eg) = pst_tables(piece);
        let idx = pst_index(sq, piece.color() == Color::White);
        (mg@[idx], eg@[idx])
    } else {
        (0, 0)
    }
}

/// The midgame and endgame table values of a piece on a standard square.
pub fn pst_value(piece: Piece, sq: i16) -> (r: (i16, i16))
    requires
        0 <= sq < 64,
    ensures
        r == pst_pair(piece, sq as int),
{
    let is_white = piece.is_white();
    match piece {
        Piece::WhitePawn | Piece::BlackPawn => (pst_lookup(&PAWN_MG, sq, is_white), pst_lookup(&PAWN_EG, sq, is_white)),
        Piece::WhiteKnight | Piece::BlackKnight => (pst_lookup(&KNIGHT_MG, sq, is_white), pst_lookup(&KNIGHT_EG, sq, is_white)),
        Piece::WhiteBishop | Piece::BlackBishop => (pst_lookup(&BISHOP_MG, sq, is_white), pst_lookup(&BISHOP_EG, sq, is_white)),
        Piece::WhiteRook | Piece::BlackRook => (pst_lookup(&ROOK_MG, sq, is_white), pst_lookup(&ROOK_EG, sq, is_white)),
        Piece::WhiteQueen | Piece::BlackQueen => (pst_lookup(&QUEEN_MG, sq, is_white), pst_lookup(&QUEEN_EG, sq, is_white)),
        Piece::WhiteKing | Piece::BlackKing => (pst_lookup(&KING_MG, sq, is_white), pst_lookup(&KING_EG, sq, is_white)),
        _ => (0, 0),
    }
}

/// One piece's contribution: its tapered table value, positive for white
/// and negative for black.
pub open spec fn pst_term(piece: Piece, s: i16, phase: int) -> int {
    let (mg, eg) = pst_pair(piece, standard_of(s as int));
    (if piece.color() == Color::White { 1int } else { -1int }) * tapered(mg as int, eg as int, phase)
}

/// The contributions of a piece on each square of a list.
pub open spec fn list_pst(piece: Piece, l: Seq<i16>, phase: int) -> int
    decreases l.len(),
{
    if l.len() == 0 {
        0
    } else {
        list_pst(piece, l.drop_last(), phase) + pst_term(piece, l.last(), phase)
    }
}

/// The pieces in the order their lists are summed.
pub open spec fn pst_order() -> Seq<Piece> {
    seq![
        Piece::WhitePawn,
        Piece::WhiteKnight,
        Piece::WhiteBishop,
        Piece::WhiteRook,
        Piece::WhiteQueen,
        Piece::WhiteKing,
        Piece::BlackPawn,
        Piece::BlackKnight,
        Piece::BlackBishop,
        Piece::BlackRook,
        Piece::BlackQueen,
        Piece::BlackKing,
    ]
}

/// The contributions of the pieces of the first `k` lists of
/// [`pst_order`].
pub open spec fn pst_upto(pl: PieceList, phase: int, k: int) -> int
    decreases k,
{
    if k <= 0 {
        0
    } else {
        pst_upto(pl, phase, k - 1) + list_pst(pst_order()[k - 1], pl.list(pst_order()[k - 1]), phase)
    }
}

/// Heuristic component that scores piece placement with the PeSTO tables.
pub struct PieceSquareHeuristic;

impl HeuristicComponent for PieceSquareHeuristic {
    /// The sum over every piece of its tapered table value, saturated to
    /// `-32767 ..= 32767`.
    open spec fn score_of(&self, board: ChessBoard, phase: int) -> i16 {
        clamp(pst_upto(board.piece_list, phase, 12), -32767, 32767) as i16
    }

    /// The sum over every piece of its tapered table value (white positive,
    /// black negative), saturated to `-32767 ..= 32767`.
    fn score(&self, board: &ChessBoard, phase: &GamePhase) -> (r: i16)
        ensures
            r == clamp(pst_upto(board.piece_list, phase.phase as int, 12), -32767, 32767),
    {
        let pieces: [Piece; 12] = [
            Piece::WhitePawn,
            Piece::WhiteKnight,
            Piece::WhiteBishop,
            Piece::WhiteRook,
            Piece::WhiteQueen,
            Piece::WhiteKing,
            Piece::BlackPawn,
            Piece::BlackKnight,
            Piece::BlackBishop,
            Piece::BlackRook,
            Piece::BlackQueen,
            Piece::BlackKing,
        ];
        assert(pieces@ =~= pst_order());
        let ghost ph = phase.phase as int;
        let mut total: i64 = 0;
        let mut k: usize = 0;
        while k < 12
            invariant
                board.wf(),
                0 <= ph <= 256,
                ph == phase.phase,
                pieces@ == pst_order(),
                k <= 12,
                total == pst_upto(board.piece_list, ph, k as int),
                -32768 * 78 * k <= total <= 32768 * 78 * k,
            decreases 12 - k,
        {
            let piece = pieces[k];
            let list = board.piece_list.get_list(piece).unwrap();
            proof {
                assert(sorted_inner(board.piece_list.list(piece)));
                lemma_sorted_len(board.piece_list.list(piece));
            }
            let ghost before = total;
            let mut i: usize = 0;
            while i < list.len()
                invariant
                    board.wf(),
                    0 <= ph <= 256,
                    ph == phase.phase,
                    piece.is_piece(),
                    list@ == board.piece_list.list(piece),
                    sorted_inner(list@),
                    list@.len() <= 78,
                    i <= list@.len(),
                    total == before + list_pst(piece, list@.take(i as int), ph),
                    k < 12,
                    -32768 * 78 * k <= before <= 32768 * 78 * k,
                    before - 32768 * i <= total <= before + 32768 * i,
                decreases list@.len() - i,
            {
                let sq = list[i];
                assert(is_inner(sq as int));
                let std_sq = to_standard(board, sq);
                let (mg, eg) = pst_value(piece, std_sq);
                let value = TaperedScore::new(mg, eg).interpolate(phase);
                let signed: i64 = if piece.is_white() {
                    value as i64
                } else {
                    -(value as i64)
                };
                assert(list@.take(i as int + 1).drop_last() =~= list@.take(i as int));
                total = total + signed;
                i = i + 1;
            }
            assert(list@.take(i as int) =~= list@);
            assert(-32768 * 78 * (k + 1) <= total <= 32768 * 78 * (k + 1)) by (nonlinear_arith)
                requires
                    -32768 * 78 * k <= before <= 32768 * 78 * k,
                    before - 32768 * i <= total <= before + 32768 * i,
                    i <= 78,
            ;
            k = k + 1;
        }
        if total > 32767 {
            32767
        } else if total < -32767 {
            -32767
        } else {
            total as i16
        }
    }

    /// Piece-square values have no incremental update.
    fn delta(&self, _board: &ChessBoard, _mv: &crate::game_state::board::moves::Move) -> (r: Option<i16>)
        ensures
            r is None,
    {
        None
    }
}

} // verus!
