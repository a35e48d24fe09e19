//! Questions about a position: its legal moves, check and checkmate, its
//! material evaluation, and moves in UCI notation.

use vstd::prelude::*;
use crate::game_state::board::piece_list::uniqueness::{keys_distinct, lemma_generated_moves_distinct};

use crate::game_state::board::ChessBoard;
use crate::game_state::board::moves::{parsed_uci, Move};
use crate::game_state::board::piece::{Color, Piece};
use crate::game_state::board::piece_list::PieceList;
use crate::game_state::board::piece_list::attacks::checking_pieces;
use crate::game_state::board::piece_list::congruence::{lemma_legal_moves_congruent, same_view};
use crate::game_state::board::piece_list::movegen::{all_fit, legal_moves};
use crate::game_state::board::position::{copied, lemma_copy_wf};

verus! {

/// Whether a move fits a board depends only on its squares, en passant
/// target and castling rights.
pub proof fn lemma_fits_congruent(moves: Seq<Move>, b1: ChessBoard, b2: ChessBoard)
    requires
        b1.board_squares@ == b2.board_squares@,
        b1.en_passant_target == b2.en_passant_target,
        b1.castling_rights == b2.castling_rights,
        all_fit(moves, b1),
    ensures
        all_fit(moves, b2),
{
    assert forall|i: int| 0 <= i < moves.len() implies #[trigger] moves[i].fits(&b2) by {
        assert(moves[i].fits(&b1));
    }
}

/// The material balance from white's side: king 20000, queen 900, rook
/// 500, bishop and knight 300, pawn 100.
pub open spec fn material(pl: PieceList) -> int {
    20000 * (pl.count(Piece::WhiteKing) - pl.count(Piece::BlackKing)) + 900 * (pl.count(Piece::WhiteQueen)
        - pl.count(Piece::BlackQueen)) + 500 * (pl.count(Piece::WhiteRook) - pl.count(Piece::BlackRook))
        + 300 * (pl.count(Piece::WhiteBishop) - pl.count(Piece::BlackBishop) + pl.count(Piece::WhiteKnight)
        - pl.count(Piece::BlackKnight)) + 100 * (pl.count(Piece::WhitePawn) - pl.count(Piece::BlackPawn))
}

/// A score saturated to -32767 ..= 32767, so that it can always be negated.
pub open spec fn clamp_score(v: int) -> i16 {
    if v > 32767 {
        32767i16
    } else if v < -32767 {
        -32767i16
    } else {
        v as i16
    }
}

/// Saturates a score to -32767 ..= 32767.
pub fn saturate(v: i64) -> (r: i16)
    ensures
        r == clamp_score(v as int),
{
    if v > 32767 {
        32767
    } else if v < -32767 {
        -32767
    } else {
        v as i16
    }
}

impl ChessBoard {
    /// The material score of a set of piece lists (see [`material`]),
    /// saturated to -32767 ..= 32767.
    pub fn material_score(&self, piece_list: &PieceList) -> (r: i16)
        requires
            piece_list.wf(),
        ensures
            r == clamp_score(material(*piece_list)),
    {
        let w_king = piece_list.count_pieces(Piece::WhiteKing);
        let b_king = piece_list.count_pieces(Piece::BlackKing);
        let w_queen = piece_list.count_pieces(Piece::WhiteQueen);
        let b_queen = piece_list.count_pieces(Piece::BlackQueen);
        let w_rook = piece_list.count_pieces(Piece::WhiteRook);
        let b_rook = piece_list.count_pieces(Piece::BlackRook);
        let w_bishop = piece_list.count_pieces(Piece::WhiteBishop);
        let b_bishop = piece_list.count_pieces(Piece::BlackBishop);
        let w_knight = piece_list.count_pieces(Piece::WhiteKnight);
        let b_knight = piece_list.count_pieces(Piece::BlackKnight);
        let w_pawn = piece_list.count_pieces(Piece::WhitePawn);
        let b_pawn = piece_list.count_pieces(Piece::BlackPawn);
        let score: i64 = 20000 * (w_king - b_king) + 900 * (w_queen - b_queen) + 500 * (w_rook
            - b_rook) + 300 * (w_bishop - b_bishop + w_knight - b_knight) + 100 * (w_pawn - b_pawn);
        saturate(score)
    }

    /// Evaluates the position by material, from white's side (see
    /// [`ChessBoard::material_score`]).
    pub fn evaluate(&self) -> (r: i16)
        requires
            self.piece_list.wf(),
        ensures
            r == clamp_score(material(self.piece_list)),
    {
        self.material_score(&self.piece_list)
    }

    /// Generates the legal moves of `color` on a copy of the board (see
    /// [`legal_moves`]); no two of them share origin, target and promotion.
    pub fn generate_moves(&mut self, color: Color) -> (moves: Vec<Move>)
        requires
            old(self).wf(),
        ensures
            *final(self) == *old(self),
            moves@ == legal_moves(*old(self), old(self).piece_list, color),
            all_fit(moves@, *old(self)),
            keys_distinct(moves@),
    {
        let ghost b = *self;
        let mut board_copy = self.clone();
        proof {
            lemma_copy_wf(board_copy, b);
        }
        let moves = self.piece_list.generate_legal_moves(&mut board_copy, color);
        proof {
            lemma_legal_moves_congruent(board_copy, b.piece_list, b, b.piece_list, color);
            lemma_fits_congruent(moves@, board_copy, b);
            lemma_generated_moves_distinct(b, color);
        }
        moves
    }

    /// Checks if the king of `color` is in check.
    pub fn is_in_check(&self, color: Color) -> (r: bool)
        requires
            self.wf(),
        ensures
            r == (checking_pieces(self.board_squares@, self.piece_list, color).len() > 0),
    {
        self.piece_list.is_king_in_check(self, color).len() > 0
    }

    /// Checks if `color` is checkmated: no legal move and in check.
    pub fn is_checkmate(&mut self, color: Color) -> (r: bool)
        requires
            old(self).wf(),
        ensures
            *final(self) == *old(self),
            r == (legal_moves(*old(self), old(self).piece_list, color).len() == 0 && checking_pieces(
                old(self).board_squares@,
                old(self).piece_list,
                color,
            ).len() > 0),
    {
        let moves = self.generate_moves(color);
        moves.len() == 0 && self.is_in_check(color)
    }

    /// Parses a move in UCI notation (e.g. "e2e4") on this board.
    pub fn from_uci(&self, uci_notation: &str) -> (r: Option<Move>)
        requires
            self.wf(),
        ensures
            r == parsed_uci(*self, uci_notation@),
    {
        Move::parse_algebraic_move(self, uci_notation)
    }

    /// Converts a move to UCI notation.
    pub fn move_to_uci(&self, mv: &Move) -> (r: String)
        requires
            self.board_width == 10,
            crate::game_state::board::is_inner(mv.from as int),
            crate::game_state::board::is_inner(mv.to as int),
            mv.promotion matches Some(p) ==> p.is_piece(),
        ensures
            r@ == mv.uci(),
    {
        mv.to_uci(self)
    }
}

} // verus!
