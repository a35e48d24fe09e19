//! Reading back the UCI text of a move: a move whose details are those the
//! board gives to its origin, target and promotion reads back as itself.

use vstd::prelude::*;

use crate::game_state::board::{inner_of, is_inner, standard_of, ChessBoard};
use crate::game_state::board::incremental_hash::lemma_standard_inner;
use crate::game_state::board::moves::{
    castling_for, double_push_target, en_passant_for, move_on_board, notation_value, parsed_uci, promotion_for_letter,
    promotion_suffix, square_name, Move,
};
use crate::game_state::board::piece::{Color, Piece, PieceType};
use crate::game_state::board::piece_list::{sorted_inner, PieceList};
use crate::game_state::board::piece_list::attacks::checking_pieces;
use crate::game_state::board::piece_list::movegen::{
    allowed_rays, bishop_of, bishop_rays, castle_move, castling_moves, evasion_moves, king_moves, king_of, king_offsets,
    king_steps, knight_moves, knight_of, knight_offsets, legal_moves, moves_over_rays, pawn_moves, pawn_of, piece_moves,
    plain_move, pseudo_legal_moves, queen_of, queen_rays, rook_of, rook_rays, slide_moves, slider_moves, step_moves,
};
use crate::game_state::board::piece_list::pawn_legality::lemma_pawn_details;
use crate::game_state::board::piece_list::pins::pins;
use crate::game_state::board::piece_list::safety::lemma_in_concat;

verus! {

/// The move carries the details the board gives to its origin and target:
/// castling, en passant, the target a double push leaves, and the board's
/// en passant target and castling rights before it.
pub open spec fn details_from_board(b: ChessBoard, m: Move) -> bool {
    &&& m.castling == castling_for(m.piece, m.from as int, m.to as int)
    &&& m.en_passant == en_passant_for(b, m.piece, m.from as int, m.to as int, m.captured_piece)
    &&& m.en_passant_square == double_push_target(m.piece, m.from as int, m.to as int)
    &&& m.previous_en_passant == b.en_passant_target
    &&& m.previous_castling_rights == Some(b.castling_rights)
}

/// A standard square reads back from its name.
proof fn lemma_name_reads_back(k: int)
    requires
        0 <= k < 64,
    ensures
        notation_value(square_name(k)) == Some(k),
{
    let file = k % 8;
    let rank = k / 8;
    assert(0 <= file < 8 && 0 <= rank < 8);
    assert(k == rank * 8 + file);
    let s = square_name(k);
    assert(s[0] as int == 97 + file);
    assert(s[1] as int == 49 + rank);
}

/// A promotion piece of the moving piece's color reads back from its
/// letter.
proof fn lemma_promotion_reads_back(p: Piece, moving: Piece)
    requires
        p.is_piece(),
        moving.is_piece(),
        p.color() == moving.color(),
        p.kind() != PieceType::King,
        p.kind() != PieceType::Pawn,
    ensures
        promotion_suffix(Some(p)).len() == 1,
        promotion_for_letter(promotion_suffix(Some(p))[0], moving) == Some(p),
{
}

/// A move that fits the board and carries the details the board gives it
/// reads back as itself from its UCI text.
pub proof fn lemma_uci_reads_back(b: ChessBoard, m: Move)
    requires
        b.wf(),
        m.fits(&b),
        details_from_board(b, m),
    ensures
        parsed_uci(b, m.uci()) == Some(m),
{
    let from = m.from as int;
    let to = m.to as int;
    lemma_standard_inner(from);
    lemma_standard_inner(to);
    let sf = standard_of(from);
    let st = standard_of(to);
    lemma_name_reads_back(sf);
    lemma_name_reads_back(st);
    let s = m.uci();
    let nf = square_name(sf);
    let nt = square_name(st);
    let suffix = promotion_suffix(m.promotion);
    assert(s == nf + nt + suffix);
    assert(s.subrange(0, 2) =~= nf);
    assert(s.subrange(2, 4) =~= nt);
    assert(inner_of(sf) == from);
    assert(inner_of(st) == to);
    assert(b.at(from) == m.piece);
    assert(m.piece.is_piece());
    match m.promotion {
        Some(p) => {
            lemma_promotion_reads_back(p, m.piece);
            assert(s.len() == 5);
            assert(s[4] == suffix[0]);
        },
        None => {
            assert(s.len() == 4);
        },
    }
    assert(m.captured_piece == b.at(to));
    assert(move_on_board(b, from, to, m.promotion) == m);
}

/// A move made by [`plain_move`]: no castling, en passant or promotion, and
/// the board's en passant target and castling rights before it.
pub open spec fn plain_details(b: ChessBoard, m: Move) -> bool {
    &&& m.castling is None
    &&& !m.en_passant
    &&& m.en_passant_square is None
    &&& m.promotion is None
    &&& m.previous_en_passant == b.en_passant_target
    &&& m.previous_castling_rights == Some(b.castling_rights)
}

/// The moves of a slider along one ray are plain moves of the piece.
proof fn lemma_slide_plain(b: ChessBoard, s: int, d: int, piece: Piece, color: Color)
    ensures
        forall|i: int| 0 <= i < slide_moves(b, s, d, piece, color).len() ==> {
            let m = #[trigger] slide_moves(b, s, d, piece, color)[i];
            plain_details(b, m) && m.piece == piece
        },
{
}

/// The moves of a slider along several rays are plain moves of the piece.
proof fn lemma_rays_plain(b: ChessBoard, s: int, rays: Seq<i16>, piece: Piece, color: Color)
    ensures
        forall|i: int| 0 <= i < moves_over_rays(b, s, rays, piece, color).len() ==> {
            let m = #[trigger] moves_over_rays(b, s, rays, piece, color)[i];
            plain_details(b, m) && m.piece == piece
        },
    decreases rays.len(),
{
    if rays.len() > 0 {
        lemma_rays_plain(b, s, rays.drop_last(), piece, color);
        lemma_slide_plain(b, s, rays.last() as int, piece, color);
        let prev = moves_over_rays(b, s, rays.drop_last(), piece, color);
        let last = slide_moves(b, s, rays.last() as int, piece, color);
        let all = moves_over_rays(b, s, rays, piece, color);
        assert(all == prev + last);
        assert forall|i: int| 0 <= i < all.len() implies {
            let m = #[trigger] all[i];
            plain_details(b, m) && m.piece == piece
        } by {
            if i < prev.len() {
                assert(all[i] == prev[i]);
            } else {
                assert(all[i] == last[i - prev.len()]);
            }
        }
    }
}

/// The moves of the sliders on several squares are plain moves of the
/// piece.
proof fn lemma_sliders_plain(b: ChessBoard, squares: Seq<i16>, pins: Map<i16, i16>, rays: Seq<i16>, piece: Piece, color: Color)
    ensures
        forall|i: int| 0 <= i < slider_moves(b, squares, pins, rays, piece, color).len() ==> {
            let m = #[trigger] slider_moves(b, squares, pins, rays, piece, color)[i];
            plain_details(b, m) && m.piece == piece
        },
    decreases squares.len(),
{
    if squares.len() > 0 {
        lemma_sliders_plain(b, squares.drop_last(), pins, rays, piece, color);
        let ar = allowed_rays(rays, pins, squares.last());
        lemma_rays_plain(b, squares.last() as int, ar, piece, color);
        let prev = slider_moves(b, squares.drop_last(), pins, rays, piece, color);
        let last = moves_over_rays(b, squares.last() as int, ar, piece, color);
        let all = slider_moves(b, squares, pins, rays, piece, color);
        assert(all == prev + last);
        assert forall|i: int| 0 <= i < all.len() implies {
            let m = #[trigger] all[i];
            plain_details(b, m) && m.piece == piece
        } by {
            if i < prev.len() {
                assert(all[i] == prev[i]);
            } else {
                assert(all[i] == last[i - prev.len()]);
            }
        }
    }
}

/// The steps of a piece are plain moves of the piece.
proof fn lemma_steps_plain(b: ChessBoard, s: int, offsets: Seq<int>, piece: Piece, color: Color)
    ensures
        forall|i: int| 0 <= i < step_moves(b, s, offsets, piece, color).len() ==> {
            let m = #[trigger] step_moves(b, s, offsets, piece, color)[i];
            plain_details(b, m) && m.piece == piece
        },
    decreases offsets.len(),
{
    if offsets.len() > 0 {
        lemma_steps_plain(b, s, offsets.drop_last(), piece, color);
        let prev = step_moves(b, s, offsets.drop_last(), piece, color);
        let all = step_moves(b, s, offsets, piece, color);
        assert forall|i: int| 0 <= i < all.len() implies {
            let m = #[trigger] all[i];
            plain_details(b, m) && m.piece == piece
        } by {
            if i < prev.len() {
                assert(all[i] == prev[i]);
            }
        }
    }
}

/// The moves of the knights are plain moves of the knight.
proof fn lemma_knights_plain(b: ChessBoard, squares: Seq<i16>, pins: Map<i16, i16>, piece: Piece, color: Color)
    ensures
        forall|i: int| 0 <= i < knight_moves(b, squares, pins, piece, color).len() ==> {
            let m = #[trigger] knight_moves(b, squares, pins, piece, color)[i];
            plain_details(b, m) && m.piece == piece
        },
    decreases squares.len(),
{
    if squares.len() > 0 {
        lemma_knights_plain(b, squares.drop_last(), pins, piece, color);
        let prev = knight_moves(b, squares.drop_last(), pins, piece, color);
        let all = knight_moves(b, squares, pins, piece, color);
        if !pins.contains_key(squares.last()) {
            let last = step_moves(b, squares.last() as int, knight_offsets(), piece, color);
            lemma_steps_plain(b, squares.last() as int, knight_offsets(), piece, color);
            assert(all == prev + last);
            assert forall|i: int| 0 <= i < all.len() implies {
                let m = #[trigger] all[i];
                plain_details(b, m) && m.piece == piece
            } by {
                if i < prev.len() {
                    assert(all[i] == prev[i]);
                } else {
                    assert(all[i] == last[i - prev.len()]);
                }
            }
        }
    }
}

/// The steps of a king on an on-board square are plain moves of the king
/// by one of its offsets.
proof fn lemma_king_steps_plain(b: ChessBoard, pl: PieceList, s: int, offsets: Seq<int>, piece: Piece, color: Color)
    requires
        is_inner(s),
        forall|k: int| 0 <= k < offsets.len() ==> -11 <= #[trigger] offsets[k] <= 11,
    ensures
        forall|i: int| 0 <= i < king_steps(b, pl, s, offsets, piece, color).len() ==> {
            let m = #[trigger] king_steps(b, pl, s, offsets, piece, color)[i];
            &&& plain_details(b, m)
            &&& m.piece == piece
            &&& m.from as int == s
            &&& exists|k: int| 0 <= k < offsets.len() && m.to as int == s + offsets[k]
        },
    decreases offsets.len(),
{
    if offsets.len() > 0 {
        lemma_king_steps_plain(b, pl, s, offsets.drop_last(), piece, color);
        let prev = king_steps(b, pl, s, offsets.drop_last(), piece, color);
        let all = king_steps(b, pl, s, offsets, piece, color);
        assert forall|i: int| 0 <= i < all.len() implies {
            let m = #[trigger] all[i];
            &&& plain_details(b, m)
            &&& m.piece == piece
            &&& m.from as int == s
            &&& exists|k: int| 0 <= k < offsets.len() && m.to as int == s + offsets[k]
        } by {
            if i < prev.len() {
                assert(all[i] == prev[i]);
                let k = choose|k: int| 0 <= k < offsets.drop_last().len() && prev[i].to as int == s + offsets.drop_last()[k];
                assert(offsets[k] == offsets.drop_last()[k]);
            } else {
                let k = offsets.len() - 1;
                assert(-11 <= offsets[k] <= 11);
                assert(all[i].to as int == s + offsets[k]);
            }
        }
    }
}

/// The moves of the king are plain moves by one of its offsets.
proof fn lemma_kings_plain(b: ChessBoard, pl: PieceList, squares: Seq<i16>, piece: Piece, color: Color)
    requires
        forall|k: int| 0 <= k < squares.len() ==> is_inner(#[trigger] squares[k] as int),
    ensures
        forall|i: int| 0 <= i < king_moves(b, pl, squares, piece, color).len() ==> {
            let m = #[trigger] king_moves(b, pl, squares, piece, color)[i];
            &&& plain_details(b, m)
            &&& m.piece == piece
            &&& exists|k: int| 0 <= k < king_offsets().len() && m.to as int == m.from as int + king_offsets()[k]
        },
    decreases squares.len(),
{
    if squares.len() > 0 {
        lemma_kings_plain(b, pl, squares.drop_last(), piece, color);
        let s = squares.last() as int;
        assert(is_inner(squares[squares.len() - 1] as int));
        lemma_king_steps_plain(b, pl, s, king_offsets(), piece, color);
        let prev = king_moves(b, pl, squares.drop_last(), piece, color);
        let last = king_steps(b, pl, s, king_offsets(), piece, color);
        let all = king_moves(b, pl, squares, piece, color);
        assert(all == prev + last);
        assert forall|i: int| 0 <= i < all.len() implies {
            let m = #[trigger] all[i];
            &&& plain_details(b, m)
            &&& m.piece == piece
            &&& exists|k: int| 0 <= k < king_offsets().len() && m.to as int == m.from as int + king_offsets()[k]
        } by {
            if i < prev.len() {
                assert(all[i] == prev[i]);
            } else {
                assert(all[i] == last[i - prev.len()]);
            }
        }
    }
}

/// A plain move of a piece other than a pawn carries the details the board
/// gives it, provided a king moves one step.
proof fn lemma_plain_details(b: ChessBoard, m: Move)
    requires
        plain_details(b, m),
        m.piece.is_piece(),
        m.piece.kind() != PieceType::Pawn,
        m.piece.kind() == PieceType::King ==> m.to as int - m.from as int != 2 && m.from as int - m.to as int != 2,
    ensures
        details_from_board(b, m),
{
}

/// The moves of the pieces other than the king carry the details the board
/// gives them.
proof fn lemma_piece_moves_details(b: ChessBoard, color: Color, m: Move)
    requires
        b.wf(),
        piece_moves(b, b.piece_list, color).contains(m),
    ensures
        details_from_board(b, m),
{
    let pl = b.piece_list;
    let pins = pins(b.board_squares@, pl, color);
    let sq = slider_moves(b, pl.list(queen_of(color)), pins, queen_rays(), queen_of(color), color);
    let sr = slider_moves(b, pl.list(rook_of(color)), pins, rook_rays(), rook_of(color), color);
    let sb = slider_moves(b, pl.list(bishop_of(color)), pins, bishop_rays(), bishop_of(color), color);
    let kn = knight_moves(b, pl.list(knight_of(color)), pins, knight_of(color), color);
    let pw = pawn_moves(b, pl, pl.list(pawn_of(color)), pins, pawn_of(color), color);
    assert(piece_moves(b, pl, color) == sq + sr + sb + kn + pw);
    lemma_in_concat(sq + sr + sb + kn, pw, m);
    if pw.contains(m) {
        lemma_pawn_details(b, color, m);
    } else {
        lemma_sliders_plain(b, pl.list(queen_of(color)), pins, queen_rays(), queen_of(color), color);
        lemma_sliders_plain(b, pl.list(rook_of(color)), pins, rook_rays(), rook_of(color), color);
        lemma_sliders_plain(b, pl.list(bishop_of(color)), pins, bishop_rays(), bishop_of(color), color);
        lemma_knights_plain(b, pl.list(knight_of(color)), pins, knight_of(color), color);
        lemma_in_concat(sq + sr + sb, kn, m);
        if (sq + sr + sb).contains(m) {
            lemma_in_concat(sq + sr, sb, m);
            if (sq + sr).contains(m) {
                lemma_in_concat(sq, sr, m);
            }
        }
        if sq.contains(m) {
            let k = choose|k: int| 0 <= k < sq.len() && sq[k] == m;
        } else if sr.contains(m) {
            let k = choose|k: int| 0 <= k < sr.len() && sr[k] == m;
        } else if sb.contains(m) {
            let k = choose|k: int| 0 <= k < sb.len() && sb[k] == m;
        } else {
            let k = choose|k: int| 0 <= k < kn.len() && kn[k] == m;
        }
        lemma_plain_details(b, m);
    }
}

/// The king moves carry the details the board gives them.
proof fn lemma_king_moves_details(b: ChessBoard, color: Color, m: Move)
    requires
        b.wf(),
        king_moves(b, b.piece_list, b.piece_list.list(king_of(color)), king_of(color), color).contains(m),
    ensures
        details_from_board(b, m),
{
    let pl = b.piece_list;
    let king = king_of(color);
    assert(sorted_inner(pl.list(king)));
    lemma_kings_plain(b, pl, pl.list(king), king, color);
    let km = king_moves(b, pl, pl.list(king), king, color);
    let i = choose|i: int| 0 <= i < km.len() && km[i] == m;
    let k = choose|k: int| 0 <= k < king_offsets().len() && m.to as int == m.from as int + king_offsets()[k];
    lemma_plain_details(b, m);
}

/// The castling moves carry the details the board gives them.
proof fn lemma_castling_details(b: ChessBoard, color: Color, m: Move)
    requires
        castling_moves(b, color).contains(m),
    ensures
        details_from_board(b, m),
{
    let cm = castling_moves(b, color);
    let i = choose|i: int| 0 <= i < cm.len() && cm[i] == m;
    let king = king_of(color);
    assert(king.is_piece() && king.kind() == PieceType::King && king.color() == color);
}

/// Every legal move carries the details the board gives it.
pub proof fn lemma_legal_move_details(b: ChessBoard, color: Color, m: Move)
    requires
        b.wf(),
        legal_moves(b, b.piece_list, color).contains(m),
    ensures
        details_from_board(b, m),
{
    let pl = b.piece_list;
    let king = king_of(color);
    let checks = checking_pieces(b.board_squares@, pl, color);
    let km = king_moves(b, pl, pl.list(king), king, color);
    let pm = piece_moves(b, pl, color);
    if checks.len() == 0 {
        let cm = castling_moves(b, color);
        assert(pseudo_legal_moves(b, pl, color) =~= (km + cm) + pm);
        lemma_in_concat(km + cm, pm, m);
        if pm.contains(m) {
            lemma_piece_moves_details(b, color, m);
        } else {
            lemma_in_concat(km, cm, m);
            if km.contains(m) {
                lemma_king_moves_details(b, color, m);
            } else {
                lemma_castling_details(b, color, m);
            }
        }
    } else if checks.len() == 1 {
        let ev = evasion_moves(b, pl, checks[0], color);
        let k16 = crate::game_state::board::piece_list::attacks::king_square(pl, color);
        if k16 is Some {
            let blocking = crate::game_state::board::piece_list::movegen::blocking_line(checks[0], k16->0);
            let pred = |mv: Move| blocking.contains(mv.to);
            assert(ev == pm.filter(pred) + km);
            lemma_in_concat(pm.filter(pred), km, m);
            if km.contains(m) {
                lemma_king_moves_details(b, color, m);
            } else {
                pm.lemma_filter_contains_rev(pred, m);
                lemma_piece_moves_details(b, color, m);
            }
        }
    } else {
        lemma_king_moves_details(b, color, m);
    }
}

/// Every legal move reads back as itself from its UCI text: the board's
/// reading of a generated move's text is that move. (The generated moves
/// fit the board; see `ChessBoard::generate_moves`.)
pub proof fn lemma_generated_move_reads_back(b: ChessBoard, color: Color, m: Move)
    requires
        b.wf(),
        legal_moves(b, b.piece_list, color).contains(m),
        m.fits(&b),
    ensures
        parsed_uci(b, m.uci()) == Some(m),
{
    lemma_legal_move_details(b, color, m);
    lemma_uci_reads_back(b, m);
}

} // verus!
