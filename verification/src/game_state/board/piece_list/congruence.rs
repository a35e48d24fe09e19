//! Move generation depends on a board only through its squares, en passant
//! target, castling rights and piece lists: two boards that agree on these
//! (and piece lists with the same contents) give the same moves.

use vstd::prelude::*;

use crate::game_state::board::{castle_kingside_ok, castle_queenside_ok, ChessBoard};
use crate::game_state::board::moves::Move;
use crate::game_state::board::piece::{Color, Piece};
use crate::game_state::board::piece_list::PieceList;
use crate::game_state::board::piece_list::attacks::{attacker_order, attackers_upto, checking_pieces, kind_attackers, king_square, piece_attacks, ray_square, square_attacked};
use crate::game_state::board::piece_list::movegen::{pawn_capture_allowed, pawn_capture_moves, allowed_rays, bishop_of, bishop_rays, castling_moves, king_moves, king_of, king_offsets, king_steps, knight_moves, knight_of, knight_offsets, legal_moves, moves_over_rays, pawn_dir, pawn_move, pawn_moves, pawn_moves_for, pawn_moves_to, pawn_of, piece_moves, plain_move, promotion_choices, pseudo_legal_moves, queen_of, queen_rays, ray_stop, rook_of, rook_rays, slide_moves, slider_moves, step_moves};
use crate::game_state::board::piece_list::pins::pins;

verus! {

/// Two boards agree on squares, en passant target, castling rights and
/// the contents of their piece lists.
pub open spec fn same_view(b1: ChessBoard, b2: ChessBoard) -> bool {
    &&& b1.board_squares@ == b2.board_squares@
    &&& b1.en_passant_target == b2.en_passant_target
    &&& b1.castling_rights == b2.castling_rights
    &&& b1.piece_list.same_lists(&b2.piece_list)
}

/// Attacks, checks, king squares and pins depend on piece lists only
/// through their contents.
pub proof fn lemma_lists_congruent(pl1: PieceList, pl2: PieceList)
    requires
        pl1.same_lists(&pl2),
    ensures
        forall|sq: Seq<Piece>, to: int, color: Color|
            #[trigger] square_attacked(sq, pl1, to, color) == square_attacked(sq, pl2, to, color),
        forall|sq: Seq<Piece>, color: Color|
            #[trigger] checking_pieces(sq, pl1, color) == checking_pieces(sq, pl2, color),
        forall|color: Color| #[trigger] king_square(pl1, color) == king_square(pl2, color),
        forall|sq: Seq<Piece>, color: Color| #[trigger] pins(sq, pl1, color) == pins(sq, pl2, color),
{
    assert forall|sq: Seq<Piece>, to: int, color: Color|
        #[trigger] square_attacked(sq, pl1, to, color) == square_attacked(sq, pl2, to, color) by {
        if square_attacked(sq, pl1, to, color) {
            let (p, i) = choose|p: Piece, i: int|
                #![trigger pl1.list(p)[i]]
                p.is_piece() && p.color() == color && 0 <= i < pl1.list(p).len() && piece_attacks(sq, p.kind(), pl1.list(p)[i] as int, to, color);
            assert(pl1.list(p) == pl2.list(p));
            assert(pl2.list(p)[i] == pl1.list(p)[i]);
        }
        if square_attacked(sq, pl2, to, color) {
            let (p, i) = choose|p: Piece, i: int|
                #![trigger pl2.list(p)[i]]
                p.is_piece() && p.color() == color && 0 <= i < pl2.list(p).len() && piece_attacks(sq, p.kind(), pl2.list(p)[i] as int, to, color);
            assert(pl1.list(p) == pl2.list(p));
            assert(pl1.list(p)[i] == pl2.list(p)[i]);
        }
    }
    assert forall|color: Color| #[trigger] king_square(pl1, color) == king_square(pl2, color) by {
        assert(pl1.list(Piece::make(crate::game_state::board::piece::PieceType::King, color))
            == pl2.list(Piece::make(crate::game_state::board::piece::PieceType::King, color)));
    }
    assert forall|sq: Seq<Piece>, color: Color| #[trigger] checking_pieces(sq, pl1, color) == checking_pieces(sq, pl2, color) by {
        assert(king_square(pl1, color) == king_square(pl2, color));
        if let Some(k) = king_square(pl1, color) {
            lemma_attackers_congruent(sq, pl1, pl2, k as int, color.spec_opposite(), 6);
        }
    }
    assert forall|sq: Seq<Piece>, color: Color| #[trigger] pins(sq, pl1, color) == pins(sq, pl2, color) by {
        assert(king_square(pl1, color) == king_square(pl2, color));
    }
}

/// The attackers of one kind depend on the piece lists only through their
/// contents.
proof fn lemma_kind_attackers_congruent(sq: Seq<Piece>, pl1: PieceList, pl2: PieceList, to: int, p: Piece, color: Color, n: int)
    requires
        pl1.list(p) == pl2.list(p),
    ensures
        kind_attackers(sq, pl1, to, p, color, n) == kind_attackers(sq, pl2, to, p, color, n),
    decreases n,
{
    if n > 0 {
        lemma_kind_attackers_congruent(sq, pl1, pl2, to, p, color, n - 1);
    }
}

/// The attackers of a square depend on the piece lists only through their
/// contents.
proof fn lemma_attackers_congruent(sq: Seq<Piece>, pl1: PieceList, pl2: PieceList, to: int, color: Color, k: int)
    requires
        pl1.same_lists(&pl2),
    ensures
        attackers_upto(sq, pl1, to, color, k) == attackers_upto(sq, pl2, to, color, k),
    decreases k,
{
    if k > 0 {
        lemma_attackers_congruent(sq, pl1, pl2, to, color, k - 1);
        let p = attacker_order(color)[k - 1];
        assert(pl1.list(p) == pl2.list(p));
        lemma_kind_attackers_congruent(sq, pl1, pl2, to, p, color, pl1.list(p).len() as int);
    }
}

/// Slider moves along a ray agree on boards with the same view.
proof fn lemma_slide_congruent(b1: ChessBoard, b2: ChessBoard, s: int, d: int, piece: Piece, color: Color)
    requires
        same_view(b1, b2),
    ensures
        slide_moves(b1, s, d, piece, color) == slide_moves(b2, s, d, piece, color),
{
    let n = ray_stop(b1.board_squares@, s, d);
    assert(Seq::new((n - 1) as nat, |i: int| plain_move(b1, s, ray_square(s, d, i + 1), piece))
        =~= Seq::new((n - 1) as nat, |i: int| plain_move(b2, s, ray_square(s, d, i + 1), piece)));
}

/// Slider moves along several rays agree on boards with the same view.
proof fn lemma_rays_congruent(b1: ChessBoard, b2: ChessBoard, s: int, rays: Seq<i16>, piece: Piece, color: Color)
    requires
        same_view(b1, b2),
    ensures
        moves_over_rays(b1, s, rays, piece, color) == moves_over_rays(b2, s, rays, piece, color),
    decreases rays.len(),
{
    if rays.len() > 0 {
        lemma_rays_congruent(b1, b2, s, rays.drop_last(), piece, color);
        lemma_slide_congruent(b1, b2, s, rays.last() as int, piece, color);
    }
}

/// The moves of a set of sliders agree on boards with the same view.
proof fn lemma_sliders_congruent(
    b1: ChessBoard,
    b2: ChessBoard,
    squares: Seq<i16>,
    pins: Map<i16, i16>,
    rays: Seq<i16>,
    piece: Piece,
    color: Color,
)
    requires
        same_view(b1, b2),
    ensures
        slider_moves(b1, squares, pins, rays, piece, color) == slider_moves(b2, squares, pins, rays, piece, color),
    decreases squares.len(),
{
    if squares.len() > 0 {
        lemma_sliders_congruent(b1, b2, squares.drop_last(), pins, rays, piece, color);
        lemma_rays_congruent(b1, b2, squares.last() as int, allowed_rays(rays, pins, squares.last()), piece, color);
    }
}

/// Steps by offsets agree on boards with the same view.
proof fn lemma_steps_congruent(b1: ChessBoard, b2: ChessBoard, s: int, offsets: Seq<int>, piece: Piece, color: Color)
    requires
        same_view(b1, b2),
    ensures
        step_moves(b1, s, offsets, piece, color) == step_moves(b2, s, offsets, piece, color),
    decreases offsets.len(),
{
    if offsets.len() > 0 {
        lemma_steps_congruent(b1, b2, s, offsets.drop_last(), piece, color);
    }
}

/// Knight moves agree on boards with the same view.
proof fn lemma_knights_congruent(b1: ChessBoard, b2: ChessBoard, squares: Seq<i16>, pins: Map<i16, i16>, piece: Piece, color: Color)
    requires
        same_view(b1, b2),
    ensures
        knight_moves(b1, squares, pins, piece, color) == knight_moves(b2, squares, pins, piece, color),
    decreases squares.len(),
{
    if squares.len() > 0 {
        lemma_knights_congruent(b1, b2, squares.drop_last(), pins, piece, color);
        lemma_steps_congruent(b1, b2, squares.last() as int, knight_offsets(), piece, color);
    }
}

/// King steps agree on boards with the same view and lists with the same
/// contents.
proof fn lemma_king_steps_congruent(
    b1: ChessBoard,
    pl1: PieceList,
    b2: ChessBoard,
    pl2: PieceList,
    s: int,
    offsets: Seq<int>,
    piece: Piece,
    color: Color,
)
    requires
        same_view(b1, b2),
        pl1.same_lists(&pl2),
    ensures
        king_steps(b1, pl1, s, offsets, piece, color) == king_steps(b2, pl2, s, offsets, piece, color),
    decreases offsets.len(),
{
    lemma_lists_congruent(pl1, pl2);
    if offsets.len() > 0 {
        lemma_king_steps_congruent(b1, pl1, b2, pl2, s, offsets.drop_last(), piece, color);
        let t = s + offsets.last();
        assert(square_attacked(b1.board_squares@.update(s, Piece::EmptySquare), pl1, t, color.spec_opposite())
            == square_attacked(b2.board_squares@.update(s, Piece::EmptySquare), pl2, t, color.spec_opposite()));
    }
}

/// King moves agree on boards with the same view and lists with the same
/// contents.
proof fn lemma_kings_congruent(
    b1: ChessBoard,
    pl1: PieceList,
    b2: ChessBoard,
    pl2: PieceList,
    squares: Seq<i16>,
    piece: Piece,
    color: Color,
)
    requires
        same_view(b1, b2),
        pl1.same_lists(&pl2),
    ensures
        king_moves(b1, pl1, squares, piece, color) == king_moves(b2, pl2, squares, piece, color),
    decreases squares.len(),
{
    if squares.len() > 0 {
        lemma_kings_congruent(b1, pl1, b2, pl2, squares.drop_last(), piece, color);
        lemma_king_steps_congruent(b1, pl1, b2, pl2, squares.last() as int, king_offsets(), piece, color);
    }
}

/// A pawn's moves to a square agree on boards with the same view.
proof fn lemma_pawn_to_congruent(b1: ChessBoard, b2: ChessBoard, from: int, to: int, piece: Piece, color: Color)
    requires
        same_view(b1, b2),
    ensures
        pawn_moves_to(b1, from, to, piece, color) == pawn_moves_to(b2, from, to, piece, color),
{
    assert(Seq::new(4, |i: int| pawn_move(b1, from, to, piece, Some(promotion_choices(color)[i]), false, None))
        =~= Seq::new(4, |i: int| pawn_move(b2, from, to, piece, Some(promotion_choices(color)[i]), false, None)));
}

/// A pawn's captures agree on boards with the same view and lists with the
/// same contents.
proof fn lemma_pawn_capture_congruent(
    b1: ChessBoard,
    pl1: PieceList,
    b2: ChessBoard,
    pl2: PieceList,
    s: int,
    to: int,
    beside: int,
    piece: Piece,
    color: Color,
    allowed: bool,
)
    requires
        same_view(b1, b2),
        pl1.same_lists(&pl2),
    ensures
        pawn_capture_moves(b1, pl1, s, to, beside, piece, color, allowed) == pawn_capture_moves(b2, pl2, s, to, beside, piece, color, allowed),
{
    lemma_lists_congruent(pl1, pl2);
    lemma_pawn_to_congruent(b1, b2, s, to, piece, color);
    let sq1 = b1.board_squares@.update(s, Piece::EmptySquare).update(beside, Piece::EmptySquare);
    assert(checking_pieces(sq1, pl1, color) == checking_pieces(sq1, pl2, color));
}

/// The moves of one pawn agree on boards with the same view and lists with
/// the same contents.
proof fn lemma_pawn_for_congruent(
    b1: ChessBoard,
    pl1: PieceList,
    b2: ChessBoard,
    pl2: PieceList,
    pins: Map<i16, i16>,
    s: int,
    piece: Piece,
    color: Color,
)
    requires
        same_view(b1, b2),
        pl1.same_lists(&pl2),
    ensures
        pawn_moves_for(b1, pl1, pins, s, piece, color) == pawn_moves_for(b2, pl2, pins, s, piece, color),
{
    let f = s + pawn_dir(color);
    let pinned = pins.contains_key(s as i16);
    let pin = pins[s as i16] as int;
    let right = pawn_capture_allowed(pinned, pin, pawn_dir(color) + 1);
    let left = pawn_capture_allowed(pinned, pin, pawn_dir(color) - 1);
    lemma_pawn_to_congruent(b1, b2, s, f, piece, color);
    lemma_pawn_capture_congruent(b1, pl1, b2, pl2, s, f + 1, s + 1, piece, color, right);
    lemma_pawn_capture_congruent(b1, pl1, b2, pl2, s, f - 1, s - 1, piece, color, left);
}

/// Pawn moves agree on boards with the same view and lists with the same
/// contents.
proof fn lemma_pawns_congruent(
    b1: ChessBoard,
    pl1: PieceList,
    b2: ChessBoard,
    pl2: PieceList,
    squares: Seq<i16>,
    pins: Map<i16, i16>,
    piece: Piece,
    color: Color,
)
    requires
        same_view(b1, b2),
        pl1.same_lists(&pl2),
    ensures
        pawn_moves(b1, pl1, squares, pins, piece, color) == pawn_moves(b2, pl2, squares, pins, piece, color),
    decreases squares.len(),
{
    if squares.len() > 0 {
        lemma_pawns_congruent(b1, pl1, b2, pl2, squares.drop_last(), pins, piece, color);
        lemma_pawn_for_congruent(b1, pl1, b2, pl2, pins, squares.last() as int, piece, color);
    }
}

/// The legal moves agree on boards with the same view and lists with the
/// same contents.
pub proof fn lemma_legal_moves_congruent(b1: ChessBoard, pl1: PieceList, b2: ChessBoard, pl2: PieceList, color: Color)
    requires
        same_view(b1, b2),
        pl1.same_lists(&pl2),
    ensures
        legal_moves(b1, pl1, color) == legal_moves(b2, pl2, color),
        pseudo_legal_moves(b1, pl1, color) == pseudo_legal_moves(b2, pl2, color),
{
    lemma_lists_congruent(pl1, pl2);
    lemma_lists_congruent(b1.piece_list, b2.piece_list);
    let sq = b1.board_squares@;
    let pm = pins(sq, pl1, color);
    assert(pm == pins(b2.board_squares@, pl2, color));
    lemma_kings_congruent(b1, pl1, b2, pl2, pl1.list(king_of(color)), king_of(color), color);
    assert(pl1.list(king_of(color)) == pl2.list(king_of(color)));
    assert(pl1.list(queen_of(color)) == pl2.list(queen_of(color)));
    assert(pl1.list(rook_of(color)) == pl2.list(rook_of(color)));
    assert(pl1.list(bishop_of(color)) == pl2.list(bishop_of(color)));
    assert(pl1.list(knight_of(color)) == pl2.list(knight_of(color)));
    assert(pl1.list(pawn_of(color)) == pl2.list(pawn_of(color)));
    lemma_sliders_congruent(b1, b2, pl1.list(queen_of(color)), pm, queen_rays(), queen_of(color), color);
    lemma_sliders_congruent(b1, b2, pl1.list(rook_of(color)), pm, rook_rays(), rook_of(color), color);
    lemma_sliders_congruent(b1, b2, pl1.list(bishop_of(color)), pm, bishop_rays(), bishop_of(color), color);
    lemma_knights_congruent(b1, b2, pl1.list(knight_of(color)), pm, knight_of(color), color);
    lemma_pawns_congruent(b1, pl1, b2, pl2, pl1.list(pawn_of(color)), pm, pawn_of(color), color);
    let e: int = if color == Color::White { 25 } else { 95 };
    assert(castle_kingside_ok(b1, color, e, e + 3) == castle_kingside_ok(b2, color, e, e + 3));
    assert(castle_queenside_ok(b1, color, e, e - 4) == castle_queenside_ok(b2, color, e, e - 4));
    assert(castling_moves(b1, color) == castling_moves(b2, color));
    assert(piece_moves(b1, pl1, color) == piece_moves(b2, pl2, color));
    assert(checking_pieces(sq, pl1, color) == checking_pieces(b2.board_squares@, pl2, color));
}

} // verus!
