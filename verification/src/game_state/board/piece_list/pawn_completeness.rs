//! Completeness of the pawn moves: a push, a double push or a capture (en
//! passant aside) that follows the pawn's rules and leaves the king
//! unattacked is generated.

use vstd::prelude::*;

use crate::game_state::board::{is_inner, made, ChessBoard};
use crate::game_state::board::moves::Move;
use crate::game_state::board::piece::{Color, Piece};
use crate::game_state::board::piece_list::{sorted_inner, PieceList};
use crate::game_state::board::piece_list::attacks::{checking_pieces, king_square, ray_square, square_attacked};
use crate::game_state::board::piece_list::completeness::{
    lemma_attackers_attack, lemma_contains_concat, lemma_double_check_exposes, lemma_pin_exposes, lemma_pinned_shape,
    lemma_unaddressed_check,
};
use crate::game_state::board::piece_list::legality::is_dir;
use crate::game_state::board::piece_list::movegen::{
    bishop_of, bishop_rays, blocking_line, castling_moves, double_push_row, evasion_moves, is_enemy, king_moves, king_of,
    knight_moves, knight_of, legal_moves, pawn_capture_allowed, pawn_capture_moves, pawn_dir, pawn_move, pawn_moves, pawn_moves_for, pawn_moves_to,
    pawn_of, piece_moves, promotion_choices, promotion_row, pseudo_legal_moves, queen_of, queen_rays, rook_of, rook_rays,
    slider_moves,
};
use crate::game_state::board::piece_list::pins::pins;

verus! {

/// A pawn move of `color` that follows the pawn's rules, en passant aside:
/// a push onto an empty square, a double push from the pawn's starting row
/// over an empty square, or a capture of an enemy one file aside; onto the
/// last row the pawn promotes to a queen, rook, bishop or knight, elsewhere
/// it does not.
pub open spec fn follows_pawn_rules(b: ChessBoard, color: Color, m: Move) -> bool {
    let s = m.from as int;
    let t = m.to as int;
    let dir = pawn_dir(color);
    let pawn = pawn_of(color);
    &&& is_inner(s)
    &&& b.at(s) == pawn
    &&& if t / 10 == promotion_row(color) {
        exists|i: int| 0 <= i < 4 && m.promotion == Some(#[trigger] promotion_choices(color)[i])
    } else {
        m.promotion is None
    }
    &&& {
        ||| t == s + dir && b.at(t) == Piece::EmptySquare && m == pawn_move(b, s, t, pawn, m.promotion, false, None)
        ||| s / 10 == double_push_row(color) && t == s + 2 * dir && b.at(s + dir) == Piece::EmptySquare && b.at(t)
            == Piece::EmptySquare && m == pawn_move(b, s, t, pawn, None, false, Some((s + dir) as i16))
        ||| (t == s + dir + 1 || t == s + dir - 1) && is_enemy(b.at(t), color) && m == pawn_move(
            b,
            s,
            t,
            pawn,
            m.promotion,
            false,
            None,
        )
    }
}

/// A pawn step `c` of `color` that keeps the pawn on the line it is
/// pinned along, `pin` being the direction from the king to the pinning
/// piece: a push or double push along a file pin, or a capture of the
/// pinning piece along a diagonal pin.
pub open spec fn pawn_keeps_pin(pin: int, c: int, color: Color) -> bool {
    let dir = pawn_dir(color);
    if c == dir || c == 2 * dir {
        pin == 10 || pin == -10
    } else {
        pin == c
    }
}

/// A pawn move onto one square with the promotion the rules ask for is
/// among the pawn's moves onto that square.
proof fn lemma_pawn_to_contains(b: ChessBoard, s: int, to: int, color: Color, m: Move)
    requires
        m == pawn_move(b, s, to, pawn_of(color), m.promotion, false, None),
        to / 10 == promotion_row(color) ==> exists|i: int| 0 <= i < 4 && m.promotion == Some(#[trigger] promotion_choices(color)[i]),
        to / 10 != promotion_row(color) ==> m.promotion is None,
    ensures
        pawn_moves_to(b, s, to, pawn_of(color), color).contains(m),
{
    let ms = pawn_moves_to(b, s, to, pawn_of(color), color);
    if to / 10 == promotion_row(color) {
        let i = choose|i: int| 0 <= i < 4 && m.promotion == Some(#[trigger] promotion_choices(color)[i]);
        assert(ms[i] == m);
    } else {
        assert(ms[0] == m);
    }
}

/// A move of a pawn that follows the pawn's rules, along its pin line when
/// it is pinned, is among the pawn's moves.
#[verifier::rlimit(30)]
proof fn lemma_pawn_for_contains(b: ChessBoard, pl: PieceList, pins: Map<i16, i16>, s: int, color: Color, m: Move)
    requires
        m.from as int == s,
        follows_pawn_rules(b, color, m),
        pins.contains_key(s as i16) ==> pawn_keeps_pin(pins[s as i16] as int, m.to as int - s, color),
    ensures
        pawn_moves_for(b, pl, pins, s, pawn_of(color), color).contains(m),
{
    let pawn = pawn_of(color);
    let t = m.to as int;
    let f = s + pawn_dir(color);
    let t2 = s + 2 * pawn_dir(color);
    let pinned = pins.contains_key(s as i16);
    let pin = pins[s as i16] as int;
    let forward = !(pinned && (pin == 11 || pin == -9 || pin == 9 || pin == -11));
    let right = pawn_capture_allowed(pinned, pin, pawn_dir(color) + 1);
    let left = pawn_capture_allowed(pinned, pin, pawn_dir(color) - 1);
    assert(!(pinned && (pin == 1 || pin == -1)));
    let single = if forward && b.at(f) == Piece::EmptySquare {
        pawn_moves_to(b, s, f, pawn, color)
    } else {
        Seq::empty()
    };
    let double = if forward && s / 10 == double_push_row(color) && b.at(f) == Piece::EmptySquare && b.at(t2)
        == Piece::EmptySquare {
        seq![pawn_move(b, s, t2, pawn, None, false, Some(f as i16))]
    } else {
        Seq::empty()
    };
    let cr = pawn_capture_moves(b, pl, s, f + 1, s + 1, pawn, color, right);
    let cl = pawn_capture_moves(b, pl, s, f - 1, s - 1, pawn, color, left);
    assert(pawn_moves_for(b, pl, pins, s, pawn, color) == single + cr + cl + double);
    if t == f && b.at(t) == Piece::EmptySquare && m == pawn_move(b, s, t, pawn, m.promotion, false, None) {
        lemma_pawn_to_contains(b, s, f, color, m);
        lemma_contains_concat(single, cr, m);
        lemma_contains_concat(single + cr, cl, m);
        lemma_contains_concat(single + cr + cl, double, m);
    } else if t == t2 && s / 10 == double_push_row(color) && b.at(f) == Piece::EmptySquare && b.at(t) == Piece::EmptySquare
        && m == pawn_move(b, s, t, pawn, None, false, Some(f as i16)) {
        assert(double[0] == m);
        lemma_contains_concat(single + cr + cl, double, m);
    } else if t == f + 1 {
        lemma_pawn_to_contains(b, s, f + 1, color, m);
        lemma_contains_concat(single, cr, m);
        lemma_contains_concat(single + cr, cl, m);
        lemma_contains_concat(single + cr + cl, double, m);
    } else {
        lemma_pawn_to_contains(b, s, f - 1, color, m);
        lemma_contains_concat(single + cr, cl, m);
        lemma_contains_concat(single + cr + cl, double, m);
    }
}

/// The moves of a listed pawn are among the pawn moves.
proof fn lemma_pawn_moves_contains(b: ChessBoard, pl: PieceList, squares: Seq<i16>, pins: Map<i16, i16>, pawn: Piece, color: Color, idx: int, m: Move)
    requires
        0 <= idx < squares.len(),
        pawn_moves_for(b, pl, pins, squares[idx] as int, pawn, color).contains(m),
    ensures
        pawn_moves(b, pl, squares, pins, pawn, color).contains(m),
    decreases squares.len(),
{
    let prev = pawn_moves(b, pl, squares.drop_last(), pins, pawn, color);
    let last = pawn_moves_for(b, pl, pins, squares.last() as int, pawn, color);
    if idx == squares.len() - 1 {
        lemma_contains_concat(prev, last, m);
    } else {
        assert(squares.drop_last()[idx] == squares[idx]);
        lemma_pawn_moves_contains(b, pl, squares.drop_last(), pins, pawn, color, idx, m);
        lemma_contains_concat(prev, last, m);
    }
}

/// A move of a pawn that follows the pawn's rules, along its pin line when
/// it is pinned, is among the moves of the pieces other than the king.
proof fn lemma_pawn_piece_moves(b: ChessBoard, color: Color, m: Move)
    requires
        b.wf(),
        follows_pawn_rules(b, color, m),
        pins(b.board_squares@, b.piece_list, color).contains_key(m.from) ==> pawn_keeps_pin(
            pins(b.board_squares@, b.piece_list, color)[m.from] as int,
            m.to as int - m.from as int,
            color,
        ),
    ensures
        piece_moves(b, b.piece_list, color).contains(m),
{
    let pl = b.piece_list;
    let sq0 = b.board_squares@;
    let pins = pins(sq0, pl, color);
    let s = m.from as int;
    let pawn = pawn_of(color);
    assert(m.from as int as i16 == m.from);
    lemma_pawn_for_contains(b, pl, pins, s, color, m);
    assert(pl.list(pawn).contains(s as i16));
    let idx = choose|idx: int| 0 <= idx < pl.list(pawn).len() && pl.list(pawn)[idx] == s as i16;
    lemma_pawn_moves_contains(b, pl, pl.list(pawn), pins, pawn, color, idx, m);
    let sq = slider_moves(b, pl.list(queen_of(color)), pins, queen_rays(), queen_of(color), color);
    let sr = slider_moves(b, pl.list(rook_of(color)), pins, rook_rays(), rook_of(color), color);
    let sb = slider_moves(b, pl.list(bishop_of(color)), pins, bishop_rays(), bishop_of(color), color);
    let kn = knight_moves(b, pl.list(knight_of(color)), pins, knight_of(color), color);
    let pw = pawn_moves(b, pl, pl.list(pawn), pins, pawn, color);
    assert(piece_moves(b, pl, color) == sq + sr + sb + kn + pw);
    lemma_contains_concat(sq + sr + sb + kn, pw, m);
}

/// A pawn step that is a multiple of seven steps or fewer along a ray
/// direction: a push or double push only along a file, a capture only
/// one step along the direction of the capture itself, forwards or back.
proof fn lemma_pawn_step_on_ray(c: int, w: int, u: int, dir: int)
    requires
        dir == 10 || dir == -10,
        c == dir || c == 2 * dir || c == dir + 1 || c == dir - 1,
        is_dir(w),
        -7 <= u <= 7,
        c == u * w,
    ensures
        c == dir || c == 2 * dir ==> w == 10 || w == -10,
        c == dir + 1 || c == dir - 1 ==> (u == 1 && w == c) || (u == -1 && w == -c),
{
    assert((c == dir || c == 2 * dir ==> w == 10 || w == -10) && (c == dir + 1 || c == dir - 1 ==> (u == 1 && w == c) || (u
        == -1 && w == -c))) by (nonlinear_arith)
        requires
            dir == 10 || dir == -10,
            c == dir || c == 2 * dir || c == dir + 1 || c == dir - 1,
            w == 1 || w == -1 || w == 10 || w == -10 || w == 11 || w == -11 || w == 9 || w == -9,
            -7 <= u <= 7,
            c == u * w,
    ;
}

/// A pinned pawn's move that follows the pawn's rules and leaves the king
/// unattacked keeps to the pin line: a push along a file pin, or a capture
/// of the pinning piece.
#[verifier::rlimit(30)]
proof fn lemma_pinned_pawn_keeps_pin(b: ChessBoard, b1: ChessBoard, m: Move, color: Color)
    requires
        b.wf(),
        follows_pawn_rules(b, color, m),
        pins(b.board_squares@, b.piece_list, color).contains_key(m.from),
        made(b, b1, m),
        king_square(b.piece_list, color) matches Some(k) ==> !square_attacked(
            b1.board_squares@,
            b1.piece_list,
            k as int,
            color.spec_opposite(),
        ),
    ensures
        pawn_keeps_pin(pins(b.board_squares@, b.piece_list, color)[m.from] as int, m.to as int - m.from as int, color),
{
    let sq0 = b.board_squares@;
    let s = m.from as int;
    let t = m.to as int;
    let dir = pawn_dir(color);
    assert(s as i16 == m.from);
    let (k, w, k1, k2) = lemma_pinned_shape(b, color, s);
    assert(0 <= t < 120);
    assert(t != s);
    if forall|jj: int| 1 <= jj <= k2 ==> t != #[trigger] ray_square(k, w, jj) {
        let sq1 = b1.board_squares@;
        assert(sq1 == sq0.update(t, m.final_piece()).update(s, Piece::EmptySquare));
        lemma_pin_exposes(b, sq1, b1.piece_list, color, k, w, k1, k2, t, m.final_piece());
    } else {
        let jj = choose|jj: int| 1 <= jj <= k2 && t == #[trigger] ray_square(k, w, jj);
        let u = jj - k1;
        let c = t - s;
        assert(c == u * w) by (nonlinear_arith)
            requires
                t == k + jj * w,
                s == k + k1 * w,
                u == jj - k1,
                c == t - s,
        ;
        lemma_pawn_step_on_ray(c, w, u, dir);
        if (c == dir + 1 || c == dir - 1) && u == -1 {
            assert(sq0[ray_square(k, w, jj)] == Piece::EmptySquare);
        }
    }
}

/// Every push, double push or capture (en passant aside) of a pawn that
/// follows the pawn's rules and leaves the king unattacked is among the
/// generated moves.
#[verifier::rlimit(80)]
pub proof fn lemma_pawn_move_complete(b: ChessBoard, b1: ChessBoard, m: Move, color: Color)
    requires
        b.wf(),
        follows_pawn_rules(b, color, m),
        made(b, b1, m),
        king_square(b.piece_list, color) matches Some(k) ==> !square_attacked(
            b1.board_squares@,
            b1.piece_list,
            k as int,
            color.spec_opposite(),
        ),
    ensures
        legal_moves(b, b.piece_list, color).contains(m),
{
    let pl = b.piece_list;
    let sq0 = b.board_squares@;
    let opp = color.spec_opposite();
    let king = king_of(color);
    let km = king_moves(b, pl, pl.list(king), king, color);
    let pm = piece_moves(b, pl, color);
    if pins(sq0, pl, color).contains_key(m.from) {
        lemma_pinned_pawn_keeps_pin(b, b1, m, color);
    }
    lemma_pawn_piece_moves(b, color, m);
    let checks = checking_pieces(sq0, pl, color);
    let s = m.from as int;
    let t = m.to as int;
    assert(0 <= t < 120);
    assert(b1.board_squares@ == sq0.update(t, m.final_piece()).update(s, Piece::EmptySquare));
    if checks.len() >= 2 {
        lemma_double_check_exposes(b, b1.board_squares@, b1.piece_list, color, s, t, m.final_piece());
    } else if checks.len() == 0 {
        let cm = castling_moves(b, color);
        assert(pseudo_legal_moves(b, pl, color) =~= (km + cm) + pm);
        lemma_contains_concat(km + cm, pm, m);
    } else {
        let k16 = king_square(pl, color)->0;
        let k = k16 as int;
        assert(pl.list(king).len() > 0);
        assert(sorted_inner(pl.list(king)));
        assert(is_inner(k));
        lemma_attackers_attack(sq0, pl, k, opp, 6);
        let (p, a16) = checks[0];
        let a = a16 as int;
        let ia = choose|ia: int| 0 <= ia < pl.list(p).len() && pl.list(p)[ia] == a16;
        assert(sorted_inner(pl.list(p)));
        assert(is_inner(a));
        assert(sq0[a] == p);
        let blocking = blocking_line(checks[0], k16);
        assert(blocking[0] == a16);
        if !blocking.contains(m.to) {
            assert(t as i16 == m.to);
            assert(0 <= t < 120);
            assert(t != a);
            let sq1 = b1.board_squares@;
            assert(sq1 == sq0.update(t, m.final_piece()).update(s, Piece::EmptySquare));
            lemma_unaddressed_check(b, sq1, b1.piece_list, color, k, p, a, s, t, m.final_piece());
        }
        let pred = |mv: Move| blocking.contains(mv.to);
        let idx = choose|idx: int| 0 <= idx < pm.len() && pm[idx] == m;
        pm.lemma_filter_contains(pred, idx);
        let filtered = pm.filter(pred);
        assert(evasion_moves(b, pl, checks[0], color) == filtered + km);
        lemma_contains_concat(filtered, km, m);
    }
}

} // verus!
