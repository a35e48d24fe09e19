//! Every castling move the rules allow is generated.
use vstd::prelude::*;
use crate::game_state::board::{castle_kingside_ok, castle_queenside_ok, ChessBoard};
use crate::game_state::board::moves::Move;
use crate::game_state::board::piece::{Color, Piece, PieceType};
use crate::game_state::board::piece_list::attacks::{attackers_upto, checking_pieces, king_square, square_attacked};
use crate::game_state::board::piece_list::completeness::{lemma_attackers_attack, lemma_contains_concat};
use crate::game_state::board::piece_list::movegen::{
    castle_move, castling_moves, king_moves, king_of, legal_moves, piece_moves, pseudo_legal_moves,
};
use crate::game_state::board::piece_list::pins::pins;

verus! {

/// A castling move of `color` that the rules allow: the right is still
/// held, the king stands on its home square and the rook on its corner, the
/// squares between them are empty, and no enemy attacks the king's square or
/// the squares it passes and lands on. The king moves two squares towards
/// the rook, and the rook jumps over it.
pub open spec fn follows_castling_rules(b: ChessBoard, color: Color, m: Move) -> bool {
    let e: int = if color == Color::White { 25 } else { 95 };
    let king = king_of(color);
    ||| castle_kingside_ok(b, color, e, e + 3) && m == castle_move(b, e, e + 2, king, e + 3, e + 1)
    ||| castle_queenside_ok(b, color, e, e - 4) && m == castle_move(b, e, e - 2, king, e - 4, e - 1)
}

/// A king whose square no enemy attacks is not in check.
proof fn lemma_unattacked_king_not_in_check(b: ChessBoard, color: Color, e: int)
    requires
        b.wf(),
        b.piece_list.list(king_of(color)).len() == 1,
        b.at(e) == king_of(color),
        0 <= e < 120,
        !square_attacked(b.board_squares@, b.piece_list, e, color.spec_opposite()),
    ensures
        checking_pieces(b.board_squares@, b.piece_list, color).len() == 0,
{
    let pl = b.piece_list;
    let sq = b.board_squares@;
    let k = king_of(color);
    assert(k == Piece::make(PieceType::King, color));
    assert(k.is_piece());
    assert(pl.list(sq[e]).contains(e as i16));
    let i = choose|i: int| 0 <= i < pl.list(k).len() && pl.list(k)[i] == e as i16;
    assert(king_square(pl, color) == Some(e as i16));
    let opp = color.spec_opposite();
    let a = attackers_upto(sq, pl, e, opp, 6);
    if a.len() > 0 {
        lemma_attackers_attack(sq, pl, e, opp, 6);
        let (p, x) = a[0];
        let j = choose|j: int| 0 <= j < pl.list(p).len() && pl.list(p)[j] == x;
        assert(p.is_piece() && p.color() == opp && 0 <= j < pl.list(p).len());
        assert(square_attacked(sq, pl, e, opp));
    }
}

/// Every castling move that the rules allow is among the generated moves,
/// on a board with one king of the side to move.
pub proof fn lemma_castling_complete(b: ChessBoard, color: Color, m: Move)
    requires
        b.wf(),
        b.piece_list.list(king_of(color)).len() == 1,
        follows_castling_rules(b, color, m),
    ensures
        legal_moves(b, b.piece_list, color).contains(m),
{
    let pl = b.piece_list;
    let e: int = if color == Color::White { 25 } else { 95 };
    lemma_unattacked_king_not_in_check(b, color, e);
    let king = king_of(color);
    let km = king_moves(b, pl, pl.list(king), king, color);
    let cm = castling_moves(b, color);
    let pm = piece_moves(b, pl, color);
    assert(cm.contains(m)) by {
        if castle_kingside_ok(b, color, e, e + 3) && m == castle_move(b, e, e + 2, king, e + 3, e + 1) {
            assert(cm[0] == m);
        } else {
            assert(cm[cm.len() - 1] == m);
        }
    }
    assert(pseudo_legal_moves(b, pl, color) =~= km + cm + pm);
    lemma_contains_concat(km, cm, m);
    lemma_contains_concat(km + cm, pm, m);
}

} // verus!
