//! The safety of generated moves: a king move never ends on an attacked
//! square, and any other move leaves the mover's king unattacked, when the
//! side to move is not in check or is in check by one piece only, provided
//! a pinned pawn keeps to its pin line.

use vstd::prelude::*;

use crate::game_state::board::{abs_diff, diagonal_direction, is_inner, made, rank_or_file_direction, squares_between, ChessBoard};
use crate::game_state::board::moves::Move;
use crate::game_state::board::piece::{Color, Piece, PieceType};
use crate::game_state::board::piece_list::{sorted_inner, PieceList};
use crate::game_state::board::piece_list::attacks::{
    attacker_order, attackers_upto, bishop_attacks, checking_pieces, lemma_attackers_upto_complete, king_square, line_steps, piece_attacks, ray_square, rook_attacks, square_attacked,
};
use crate::game_state::board::piece_list::legality::{
    is_dir, keeps_to_pin, lemma_attack_not_discovered, lemma_attacked_has_attacker, lemma_attacker_before,
    lemma_evasion_non_king, lemma_piece_move_shape, lemma_piece_moves_listed, lemma_quiet_non_king,
};
use crate::game_state::board::piece_list::movegen::{
    blocking_line, king_moves, king_of, knight_of, legal_moves, pawn_of, piece_moves,
};
use crate::game_state::board::piece_list::pawn_legality::{
    lemma_en_passant_safe, lemma_pawn_keeps_to_pin, lemma_pawn_source,
};
use crate::game_state::board::piece_list::pins::pins;
use crate::game_state::board::piece_list::rays::along;
use crate::game_state::board::piece_list::safety::{lemma_king_move_safe, lemma_kings_move, lemma_not_in, lemma_row_column};

verus! {

/// The only enemy piece that attacks the king's square `k` is the one that
/// [`checking_pieces`] names first.
pub open spec fn only_checking_piece(sq: Seq<Piece>, pl: PieceList, color: Color, k: int) -> bool {
    forall|p: Piece, i: int|
        #![trigger pl.list(p)[i]]
        p.is_piece() && p.color() == color.spec_opposite() && 0 <= i < pl.list(p).len() && piece_attacks(
            sq,
            p.kind(),
            pl.list(p)[i] as int,
            k,
            color.spec_opposite(),
        ) ==> checking_pieces(sq, pl, color)[0] == (p, pl.list(p)[i])
}

/// In check by one piece, that piece is the only enemy piece that attacks
/// the king: every attacker is listed.
pub proof fn lemma_single_check_only(sq: Seq<Piece>, pl: PieceList, color: Color, k16: i16)
    requires
        pl.wf(),
        king_square(pl, color) == Some(k16),
        checking_pieces(sq, pl, color).len() == 1,
    ensures
        only_checking_piece(sq, pl, color, k16 as int),
{
    let k = k16 as int;
    let opp = color.spec_opposite();
    lemma_attackers_upto_complete(sq, pl, k, opp, 6);
    assert forall|p: Piece, i: int|
        #![trigger pl.list(p)[i]]
        p.is_piece() && p.color() == opp && 0 <= i < pl.list(p).len() && piece_attacks(
            sq,
            p.kind(),
            pl.list(p)[i] as int,
            k,
            opp,
        ) implies checking_pieces(sq, pl, color)[0] == (p, pl.list(p)[i]) by {
        let order = attacker_order(opp);
        let j: int = match p.kind() {
            PieceType::Queen => 0,
            PieceType::Rook => 1,
            PieceType::Bishop => 2,
            PieceType::Knight => 3,
            PieceType::Pawn => 4,
            PieceType::King => 5,
        };
        assert(order[j] == p);
        assert(pl.list(order[j])[i] == pl.list(p)[i]);
        let checks = attackers_upto(sq, pl, k, opp, 6);
        assert(checks.contains((order[j], pl.list(order[j])[i])));
        let w = choose|w: int| 0 <= w < checks.len() && checks[w] == (p, pl.list(p)[i]);
        assert(w == 0);
    }
}

/// A square between a slider on `a` and the square `k` it attacks lies on
/// the slider's ray, so filling it stops the attack.
#[verifier::rlimit(30)]
proof fn lemma_between_blocks(sq1: Seq<Piece>, kind: PieceType, a: int, k: int, t: int, color: Color)
    requires
        sq1.len() == 120,
        is_inner(a),
        is_inner(k),
        0 <= t < 120,
        squares_between(a, k).contains(t as i16),
        sq1[t] != Piece::EmptySquare,
    ensures
        !piece_attacks(sq1, kind, a, k, color),
{
    let between = squares_between(a, k);
    let idx = choose|idx: int| 0 <= idx < between.len() && between[idx] == t as i16;
    let rank_diff = k / 10 - a / 10;
    let file_diff = k % 10 - a % 10;
    let rs: int = if rank_diff > 0 {
        1
    } else if rank_diff < 0 {
        -1
    } else {
        0
    };
    let fs: int = if file_diff > 0 {
        1
    } else if file_diff < 0 {
        -1
    } else {
        0
    };
    let j = idx + 1;
    lemma_row_column(a);
    lemma_row_column(k);
    let v = (a / 10 + j * rs) * 10 + (a % 10 + j * fs);
    assert(between[idx] == v as i16);
    assert(-1000 <= v <= 1000) by (nonlinear_arith)
        requires
            v == (a / 10 + j * rs) * 10 + (a % 10 + j * fs),
            2 <= a / 10 <= 9,
            0 <= a % 10 < 10,
            0 <= j <= 10,
            -1 <= rs <= 1,
            -1 <= fs <= 1,
    ;
    assert(v == t);
    let d = 10 * rs + fs;
    assert(v == a + j * d) by (nonlinear_arith)
        requires
            v == (a / 10 + j * rs) * 10 + (a % 10 + j * fs),
            a == 10 * (a / 10) + a % 10,
            d == 10 * rs + fs,
    ;
    assert(ray_square(a, d, j) == t);
    if diagonal_direction(a, k) != 0 {
        assert(diagonal_direction(a, k) == d);
        assert(1 <= j < abs_diff(a / 10, k / 10));
        assert(!bishop_attacks(sq1, a, k));
        assert(rank_or_file_direction(a, k) == 0);
    } else {
        assert(rank_or_file_direction(a, k) == d);
        assert(1 <= j < line_steps(a, k));
        assert(!rook_attacks(sq1, a, k));
    }
}

/// A move onto the checking piece's square or a square between it and the
/// king, that neither lands on the checking piece's square nor leaves the
/// square it lands on empty, stops the check.
#[verifier::rlimit(30)]
proof fn lemma_block_meets_check(sq1: Seq<Piece>, p: Piece, x: int, k: int, t: int, color: Color)
    requires
        sq1.len() == 120,
        is_inner(x),
        is_inner(k),
        0 <= t < 120,
        t != x,
        sq1[t] != Piece::EmptySquare,
        blocking_line((p, x as i16), k as i16).contains(t as i16),
    ensures
        !piece_attacks(sq1, p.kind(), x, k, color),
{
    let blocking = blocking_line((p, x as i16), k as i16);
    let i = choose|i: int| 0 <= i < blocking.len() && blocking[i] == t as i16;
    if p.kind() == PieceType::Queen || p.kind() == PieceType::Rook || p.kind() == PieceType::Bishop {
        let between = squares_between(x, k);
        assert(blocking == seq![x as i16] + between);
        assert(i != 0);
        assert(between[i - 1] == t as i16);
        lemma_between_blocks(sq1, p.kind(), x, k, t, color);
    }
}

/// An enemy attack on the king after a generated move of a piece other
/// than the king, no en passant capture, comes from an enemy piece that
/// attacked the king before the move, and the move did not land on it.
#[verifier::rlimit(30)]
proof fn lemma_move_attacker(b: ChessBoard, b1: ChessBoard, m: Move, color: Color, k16: i16) -> (r: (Piece, int))
    requires
        b.wf(),
        king_square(b.piece_list, color) == Some(k16),
        piece_moves(b, b.piece_list, color).contains(m),
        m.piece == pawn_of(color) ==> !m.en_passant,
        made(b, b1, m),
        square_attacked(b1.board_squares@, b1.piece_list, k16 as int, color.spec_opposite()),
    ensures
        is_inner(k16 as int),
        0 <= (m.to as int) < 120,
        b1.board_squares@[m.to as int] != Piece::EmptySquare,
        r.0.is_piece(),
        r.0.color() == color.spec_opposite(),
        b.piece_list.list(r.0).contains(r.1 as i16),
        is_inner(r.1),
        r.1 != m.to as int,
        piece_attacks(b.board_squares@, r.0.kind(), r.1, k16 as int, color.spec_opposite()),
        piece_attacks(b1.board_squares@, r.0.kind(), r.1, k16 as int, color.spec_opposite()),
{
    let k = k16 as int;
    let pl = b.piece_list;
    let sq0 = b.board_squares@;
    let sq1 = b1.board_squares@;
    let king = king_of(color);
    assert(pl.list(king).len() > 0);
    assert(sorted_inner(pl.list(king)));
    assert(pl.list(king)[0] == k16);
    assert(is_inner(k));
    assert(sq0[k] == king);
    lemma_piece_moves_listed(b, color, m);
    if m.piece == pawn_of(color) {
        let s = lemma_pawn_source(b, color, m);
        let t = m.to as int;
        let fp = m.final_piece();
        assert(0 <= t < 120);
        assert(sq1 == sq0.update(t, fp).update(s, Piece::EmptySquare));
        assert(k != s);
        assert(k != t);
        lemma_pawn_keeps_to_pin(b, color, m, s);
        let (p, x) = lemma_attacker_before(sq0, pl, sq1, b1.piece_list, s, t, fp, k, color);
        lemma_attack_not_discovered(b, sq1, fp, color, k, s, t, p, x);
        (p, x)
    } else {
        let (s, t) = lemma_piece_move_shape(b, color, m);
        assert(sq1 == sq0.update(t, m.piece).update(s, Piece::EmptySquare));
        assert(k != s);
        assert(k != t);
        let pins = pins(sq0, pl, color);
        assert(keeps_to_pin(sq0, pins, s, t)) by {
            if pins.contains_key(s as i16) && m.piece != knight_of(color) {
                let (dir, jm) = choose|dir: int, jm: int|
                    #![trigger ray_square(s, dir, jm)]
                    is_dir(dir) && jm >= 1 && t == ray_square(s, dir, jm) && (pins.contains_key(s as i16) ==> along(
                        dir as i16,
                        pins[s as i16],
                    )) && (forall|ii: int| 1 <= ii < jm ==> #[trigger] sq0[ray_square(s, dir, ii)] == Piece::EmptySquare);
                assert(dir == pins[s as i16] as int || dir == -(pins[s as i16] as int));
            }
        }
        let (p, x) = lemma_attacker_before(sq0, pl, sq1, b1.piece_list, s, t, m.piece, k, color);
        lemma_attack_not_discovered(b, sq1, m.piece, color, k, s, t, p, x);
        (p, x)
    }
}

/// A move that the move generator produces is safe for the mover's king:
/// a king move ends on a square no enemy piece attacks; any other move
/// leaves the square the king stands on unattacked.
#[verifier::rlimit(30)]
pub proof fn lemma_generated_move_safe(b: ChessBoard, b1: ChessBoard, m: Move, color: Color)
    requires
        b.wf(),
        legal_moves(b, b.piece_list, color).contains(m),
        made(b, b1, m),
    ensures
        m.piece == king_of(color) ==> !square_attacked(b1.board_squares@, b1.piece_list, m.to as int, color.spec_opposite()),
        m.piece != king_of(color) ==> (king_square(b.piece_list, color) matches Some(k) ==> !square_attacked(
            b1.board_squares@,
            b1.piece_list,
            k as int,
            color.spec_opposite(),
        )),
{
    let pl = b.piece_list;
    let sq0 = b.board_squares@;
    let sq1 = b1.board_squares@;
    let opp = color.spec_opposite();
    let king = king_of(color);
    let checks = checking_pieces(sq0, pl, color);
    if m.piece == king {
        lemma_king_move_safe(b, b1, m, color);
    } else {
        if checks.len() >= 2 {
            lemma_kings_move(b, pl, pl.list(king), king, color);
            lemma_not_in(king_moves(b, pl, pl.list(king), king, color), king, m);
        }
        if checks.len() == 0 {
            lemma_quiet_non_king(b, color, m);
        } else {
            lemma_evasion_non_king(b, color, m);
        }
        if let Some(k16) = king_square(pl, color) {
            let k = k16 as int;
            if checks.len() == 1 {
                lemma_single_check_only(sq0, pl, color, k16);
            }
            if square_attacked(sq1, b1.piece_list, k, opp) {
                lemma_piece_moves_listed(b, color, m);
                if m.piece == pawn_of(color) && m.en_passant {
                    let s = lemma_pawn_source(b, color, m);
                    lemma_en_passant_safe(b, b1, m, color, s);
                } else {
                    let (p, x) = lemma_move_attacker(b, b1, m, color, k16);
                    let j = choose|j: int| 0 <= j < pl.list(p).len() && pl.list(p)[j] == x as i16;
                    assert(pl.list(p)[j] as int == x);
                    assert(piece_attacks(sq0, p.kind(), pl.list(p)[j] as int, k, opp));
                    if checks.len() == 0 {
                        lemma_attacked_has_attacker(sq0, pl, k, opp);
                    } else {
                        assert(checks[0] == (p, x as i16));
                        let t = m.to as int;
                        assert(t as i16 == m.to);
                        lemma_block_meets_check(sq1, p, x, k, t, opp);
                    }
                }
            }
        }
    }
}

} // verus!
