//! King safety of king steps: after a king step that the move generator
//! produces, no enemy piece attacks the square the king stands on.

use vstd::prelude::*;

use crate::game_state::board::{abs_diff, castle_kingside_ok, castle_queenside_ok, diagonal_direction, is_inner, lists_match_squares, made, rank_or_file_direction, ChessBoard};
use crate::game_state::board::moves::Move;
use crate::game_state::board::piece::{Color, Piece, PieceType};
use crate::game_state::board::piece_list::{sorted_inner, PieceList};
use crate::game_state::board::piece_list::attacks::{checking_pieces, king_square, line_steps, piece_attacks, ray_square, square_attacked};
use crate::game_state::board::piece_list::movegen::{
    bishop_of, bishop_rays, castling_moves, evasion_moves, king_moves, king_of, king_offsets, king_step_ok, king_steps, knight_moves,
    knight_of, legal_moves, moves_over_rays, pawn_capture_moves, pawn_moves, pawn_moves_for, pawn_moves_to, pawn_of, piece_moves,
    plain_move, pseudo_legal_moves, castle_move, queen_of, queen_rays, rook_of, rook_rays, slide_moves, slider_moves, step_moves,
    en_passant_moves,
};

verus! {

/// The squares strictly between `x` and `x + n * d` along direction `d`
/// lie on the board's array and differ from the far end.
pub proof fn lemma_ray_between(x: int, t: int, d: int, n: int, k: int)
    requires
        0 <= x < 120,
        0 <= t < 120,
        d != 0,
        x + n * d == t,
        1 <= k < n,
    ensures
        0 <= ray_square(x, d, k) < 120,
        ray_square(x, d, k) != t,
{
    assert(x + k * d != x + n * d && (x <= x + k * d <= x + n * d || x + n * d <= x + k * d <= x)) by (nonlinear_arith)
        requires
            d != 0,
            1 <= k < n,
    ;
}

/// A square is ten times its row plus its column.
pub proof fn lemma_row_column(x: int)
    requires
        0 <= x,
    ensures
        x == 10 * (x / 10) + x % 10,
        0 <= x % 10 < 10,
{
    vstd::arithmetic::div_mod::lemma_fundamental_div_mod(x, 10);
}

/// A bishop's ray from `x` reaches `t` after as many steps as rows lie
/// between them.
pub proof fn lemma_diagonal_reaches(x: int, t: int)
    requires
        0 <= x < 120,
        0 <= t < 120,
        diagonal_direction(x, t) != 0,
    ensures
        x + abs_diff(x / 10, t / 10) * diagonal_direction(x, t) == t,
{
    lemma_row_column(x);
    lemma_row_column(t);
    let rx = x / 10;
    let cx = x % 10;
    let rt = t / 10;
    let ct = t % 10;
    let n = abs_diff(rx, rt);
    let d = diagonal_direction(x, t);
    if rt > rx && ct > cx {
        assert(d == 11 && n == rt - rx && n == ct - cx);
        assert(x + n * d == t) by (nonlinear_arith)
            requires
                d == 11,
                n == rt - rx, n == ct - cx,
                x == 10 * rx + cx,
                t == 10 * rt + ct,
        ;
    } else if rt > rx {
        assert(d == 9 && n == rt - rx && n == cx - ct);
        assert(x + n * d == t) by (nonlinear_arith)
            requires
                d == 9,
                n == rt - rx, n == cx - ct,
                x == 10 * rx + cx,
                t == 10 * rt + ct,
        ;
    } else if ct > cx {
        assert(d == -9 && n == rx - rt && n == ct - cx);
        assert(x + n * d == t) by (nonlinear_arith)
            requires
                d == -9,
                n == rx - rt, n == ct - cx,
                x == 10 * rx + cx,
                t == 10 * rt + ct,
        ;
    } else {
        assert(d == -11 && n == rx - rt && n == cx - ct);
        assert(x + n * d == t) by (nonlinear_arith)
            requires
                d == -11,
                n == rx - rt, n == cx - ct,
                x == 10 * rx + cx,
                t == 10 * rt + ct,
        ;
    }
}

/// A rook's ray from `x` reaches `t` after the steps between them.
pub proof fn lemma_line_reaches(x: int, t: int)
    requires
        0 <= x < 120,
        0 <= t < 120,
        rank_or_file_direction(x, t) != 0,
    ensures
        x + line_steps(x, t) * rank_or_file_direction(x, t) == t,
{
    lemma_row_column(x);
    lemma_row_column(t);
    let rx = x / 10;
    let cx = x % 10;
    let rt = t / 10;
    let ct = t % 10;
    let n = line_steps(x, t);
    let d = rank_or_file_direction(x, t);
    if rx == rt {
        if t > x {
            assert(d == 1 && n == ct - cx);
            assert(x + n * d == t) by (nonlinear_arith)
                requires
                    d == 1,
                    n == ct - cx, rx == rt,
                    x == 10 * rx + cx,
                    t == 10 * rt + ct,
            ;
        } else {
            assert(d == -1 && n == cx - ct);
            assert(x + n * d == t) by (nonlinear_arith)
                requires
                    d == -1,
                    n == cx - ct, rx == rt,
                    x == 10 * rx + cx,
                    t == 10 * rt + ct,
            ;
        }
    } else {
        assert(cx == ct);
        if t > x {
            assert(rt > rx);
            assert(d == 10 && n == rt - rx);
            assert(x + n * d == t) by (nonlinear_arith)
                requires
                    d == 10,
                    n == rt - rx, cx == ct,
                    x == 10 * rx + cx,
                    t == 10 * rt + ct,
            ;
        } else {
            assert(rt < rx);
            assert(d == -10 && n == rx - rt);
            assert(x + n * d == t) by (nonlinear_arith)
                requires
                    d == -10,
                    n == rx - rt, cx == ct,
                    x == 10 * rx + cx,
                    t == 10 * rt + ct,
            ;
        }
    }
}

/// Whether a piece on `x` attacks `t` does not depend on what stands on
/// `t`: an attack on one board is an attack on a board that differs from
/// it on `t` only.
pub proof fn lemma_attack_ignores_target(sq1: Seq<Piece>, sq2: Seq<Piece>, kind: PieceType, x: int, t: int, color: Color)
    requires
        sq1.len() == 120,
        sq2.len() == 120,
        0 <= x < 120,
        0 <= t < 120,
        forall|q: int| 0 <= q < 120 && q != t ==> sq1[q] == sq2[q],
        piece_attacks(sq1, kind, x, t, color),
    ensures
        piece_attacks(sq2, kind, x, t, color),
{
    let bd = diagonal_direction(x, t);
    let bn = abs_diff(x / 10, t / 10);
    let rd = rank_or_file_direction(x, t);
    let rn = line_steps(x, t);
    if (kind == PieceType::Bishop || kind == PieceType::Queen) && bd != 0 {
        lemma_diagonal_reaches(x, t);
        assert forall|k: int| 1 <= k < bn && sq1[ray_square(x, bd, k)] == Piece::EmptySquare implies #[trigger] sq2[ray_square(x, bd, k)]
            == Piece::EmptySquare by {
            lemma_ray_between(x, t, bd, bn, k);
        }
    }
    if (kind == PieceType::Rook || kind == PieceType::Queen) && rd != 0 {
        lemma_line_reaches(x, t);
        assert forall|k: int| 1 <= k < rn && sq1[ray_square(x, rd, k)] == Piece::EmptySquare implies #[trigger] sq2[ray_square(x, rd, k)]
            == Piece::EmptySquare by {
            lemma_ray_between(x, t, rd, rn, k);
        }
    }
}

/// An attack on the square a king stepped to, on the board after the step,
/// is an attack on that square on the board before it with the king lifted
/// off its origin.
pub proof fn lemma_attack_after_step(
    sq0: Seq<Piece>,
    pl0: PieceList,
    sq1: Seq<Piece>,
    pl1: PieceList,
    s: int,
    t: int,
    king: Piece,
    color: Color,
)
    requires
        sq0.len() == 120,
        lists_match_squares(sq0, pl0),
        lists_match_squares(sq1, pl1),
        pl1.wf(),
        0 <= s < 120,
        0 <= t < 120,
        s != t,
        king.is_piece(),
        king.color() == color,
        sq1 == sq0.update(t, king).update(s, Piece::EmptySquare),
        square_attacked(sq1, pl1, t, color.spec_opposite()),
    ensures
        square_attacked(sq0.update(s, Piece::EmptySquare), pl0, t, color.spec_opposite()),
{
    let opp = color.spec_opposite();
    let (p, i) = choose|p: Piece, i: int|
        #![trigger pl1.list(p)[i]]
        p.is_piece() && p.color() == opp && 0 <= i < pl1.list(p).len() && piece_attacks(
            sq1,
            p.kind(),
            pl1.list(p)[i] as int,
            t,
            opp,
        );
    let x = pl1.list(p)[i] as int;
    assert(sorted_inner(pl1.list(p)));
    assert(is_inner(x));
    assert(sq1[x] == p);
    let sq0p = sq0.update(s, Piece::EmptySquare);
    assert(x != t);
    assert(x != s);
    assert(sq0[x] == p);
    assert(pl0.list(p).contains(x as i16));
    let j = choose|j: int| 0 <= j < pl0.list(p).len() && pl0.list(p)[j] == x as i16;
    assert forall|q: int| 0 <= q < 120 && q != t implies sq1[q] == sq0p[q] by {}
    lemma_attack_ignores_target(sq1, sq0p, p.kind(), x, t, opp);
    assert(pl0.list(p)[j] as int == x);
}


broadcast use vstd::seq_lib::group_filter_ensures;

/// Every move of the list moves the piece `p` and is no castling.
pub open spec fn all_move(ms: Seq<Move>, p: Piece) -> bool {
    forall|i: int| 0 <= i < ms.len() ==> (#[trigger] ms[i]).piece == p && ms[i].castling is None
}

/// A move of a list joined from two lists is a move of one of them.
pub proof fn lemma_in_concat(a: Seq<Move>, b: Seq<Move>, m: Move)
    requires
        (a + b).contains(m),
    ensures
        a.contains(m) || b.contains(m),
{
    let i = choose|i: int| 0 <= i < (a + b).len() && (a + b)[i] == m;
    if i < a.len() {
        assert(a[i] == m);
    } else {
        assert(b[i - a.len()] == m);
    }
}

/// Joining two lists that move `p` gives a list that moves `p`.
pub proof fn lemma_all_concat(a: Seq<Move>, b: Seq<Move>, p: Piece)
    requires
        all_move(a, p),
        all_move(b, p),
    ensures
        all_move(a + b, p),
{
    assert forall|i: int| 0 <= i < (a + b).len() implies (#[trigger] (a + b)[i]).piece == p && (a + b)[i].castling is None by {
        if i >= a.len() {
            assert((a + b)[i] == b[i - a.len()]);
        }
    }
}

/// A list that moves `p` without castling holds no move of another piece
/// and no castling.
pub proof fn lemma_not_in(ms: Seq<Move>, p: Piece, m: Move)
    requires
        all_move(ms, p),
        m.piece != p || m.castling is Some,
    ensures
        !ms.contains(m),
{
}

/// The moves of sliders move the slider.
pub proof fn lemma_sliders_move(b: ChessBoard, squares: Seq<i16>, pins: Map<i16, i16>, rays: Seq<i16>, piece: Piece, color: Color)
    ensures
        all_move(slider_moves(b, squares, pins, rays, piece, color), piece),
    decreases squares.len(),
{
    if squares.len() > 0 {
        lemma_sliders_move(b, squares.drop_last(), pins, rays, piece, color);
        lemma_rays_move(b, squares.last() as int, crate::game_state::board::piece_list::movegen::allowed_rays(rays, pins, squares.last()), piece, color);
        lemma_all_concat(
            slider_moves(b, squares.drop_last(), pins, rays, piece, color),
            moves_over_rays(b, squares.last() as int, crate::game_state::board::piece_list::movegen::allowed_rays(rays, pins, squares.last()), piece, color),
            piece,
        );
    }
}

/// The moves of a slider along several rays move the slider.
pub proof fn lemma_rays_move(b: ChessBoard, s: int, rays: Seq<i16>, piece: Piece, color: Color)
    ensures
        all_move(moves_over_rays(b, s, rays, piece, color), piece),
    decreases rays.len(),
{
    if rays.len() > 0 {
        lemma_rays_move(b, s, rays.drop_last(), piece, color);
        assert(all_move(slide_moves(b, s, rays.last() as int, piece, color), piece));
        lemma_all_concat(moves_over_rays(b, s, rays.drop_last(), piece, color), slide_moves(b, s, rays.last() as int, piece, color), piece);
    }
}

/// The steps of a piece move the piece.
pub proof fn lemma_steps_move(b: ChessBoard, s: int, offsets: Seq<int>, piece: Piece, color: Color)
    ensures
        all_move(step_moves(b, s, offsets, piece, color), piece),
    decreases offsets.len(),
{
    if offsets.len() > 0 {
        lemma_steps_move(b, s, offsets.drop_last(), piece, color);
    }
}

/// The moves of knights move the knight.
pub proof fn lemma_knights_move(b: ChessBoard, squares: Seq<i16>, pins: Map<i16, i16>, piece: Piece, color: Color)
    ensures
        all_move(knight_moves(b, squares, pins, piece, color), piece),
    decreases squares.len(),
{
    if squares.len() > 0 {
        lemma_knights_move(b, squares.drop_last(), pins, piece, color);
        lemma_steps_move(b, squares.last() as int, crate::game_state::board::piece_list::movegen::knight_offsets(), piece, color);
        lemma_all_concat(
            knight_moves(b, squares.drop_last(), pins, piece, color),
            step_moves(b, squares.last() as int, crate::game_state::board::piece_list::movegen::knight_offsets(), piece, color),
            piece,
        );
    }
}

/// A pawn's moves to one square move the pawn.
pub proof fn lemma_pawn_to_move(b: ChessBoard, s: int, to: int, pawn: Piece, color: Color)
    ensures
        all_move(pawn_moves_to(b, s, to, pawn, color), pawn),
{
}

/// A pawn's captures one way move the pawn.
pub proof fn lemma_pawn_capture_move(b: ChessBoard, pl: PieceList, s: int, to: int, beside: int, pawn: Piece, color: Color, allowed: bool)
    ensures
        all_move(pawn_capture_moves(b, pl, s, to, beside, pawn, color, allowed), pawn),
{
    lemma_pawn_to_move(b, s, to, pawn, color);
    assert(all_move(en_passant_moves(b, pl, s, to, beside, pawn, color), pawn));
}

/// The moves of one pawn move the pawn.
pub proof fn lemma_pawn_for_move(b: ChessBoard, pl: PieceList, pins: Map<i16, i16>, s: int, pawn: Piece, color: Color)
    ensures
        all_move(pawn_moves_for(b, pl, pins, s, pawn, color), pawn),
{
    let pinned = pins.contains_key(s as i16);
    let pin = pins[s as i16] as int;
    if !(pinned && (pin == 1 || pin == -1)) {
        let forward = !(pinned && (pin == 11 || pin == -9 || pin == 9 || pin == -11));
        let right = crate::game_state::board::piece_list::movegen::pawn_capture_allowed(
            pinned,
            pin,
            crate::game_state::board::piece_list::movegen::pawn_dir(color) + 1,
        );
        let left = crate::game_state::board::piece_list::movegen::pawn_capture_allowed(
            pinned,
            pin,
            crate::game_state::board::piece_list::movegen::pawn_dir(color) - 1,
        );
        let f = s + crate::game_state::board::piece_list::movegen::pawn_dir(color);
        let t = s + 2 * crate::game_state::board::piece_list::movegen::pawn_dir(color);
        let single = if forward && b.at(f) == Piece::EmptySquare {
            pawn_moves_to(b, s, f, pawn, color)
        } else {
            Seq::empty()
        };
        let double = if forward && s / 10 == crate::game_state::board::piece_list::movegen::double_push_row(color) && b.at(f)
            == Piece::EmptySquare && b.at(t) == Piece::EmptySquare {
            seq![crate::game_state::board::piece_list::movegen::pawn_move(b, s, t, pawn, None, false, Some(f as i16))]
        } else {
            Seq::empty()
        };
        let cr = pawn_capture_moves(b, pl, s, f + 1, s + 1, pawn, color, right);
        let cl = pawn_capture_moves(b, pl, s, f - 1, s - 1, pawn, color, left);
        assert(pawn_moves_for(b, pl, pins, s, pawn, color) == single + cr + cl + double);
        lemma_pawn_to_move(b, s, f, pawn, color);
        assert(all_move(single, pawn));
        assert(all_move(double, pawn));
        lemma_pawn_capture_move(b, pl, s, f + 1, s + 1, pawn, color, right);
        lemma_pawn_capture_move(b, pl, s, f - 1, s - 1, pawn, color, left);
        lemma_all_concat(single, cr, pawn);
        lemma_all_concat(single + cr, cl, pawn);
        lemma_all_concat(single + cr + cl, double, pawn);
    }
}

/// The moves of pawns move the pawn.
pub proof fn lemma_pawns_move(b: ChessBoard, pl: PieceList, squares: Seq<i16>, pins: Map<i16, i16>, pawn: Piece, color: Color)
    ensures
        all_move(pawn_moves(b, pl, squares, pins, pawn, color), pawn),
    decreases squares.len(),
{
    if squares.len() > 0 {
        lemma_pawns_move(b, pl, squares.drop_last(), pins, pawn, color);
        lemma_pawn_for_move(b, pl, pins, squares.last() as int, pawn, color);
        lemma_all_concat(
            pawn_moves(b, pl, squares.drop_last(), pins, pawn, color),
            pawn_moves_for(b, pl, pins, squares.last() as int, pawn, color),
            pawn,
        );
    }
}

/// The moves of the pieces other than the king are no king moves.
proof fn lemma_piece_moves_not_king(b: ChessBoard, pl: PieceList, color: Color, m: Move)
    requires
        m.piece == king_of(color),
    ensures
        !piece_moves(b, pl, color).contains(m),
{
    let pins = crate::game_state::board::piece_list::pins::pins(b.board_squares@, pl, color);
    let sq = slider_moves(b, pl.list(queen_of(color)), pins, queen_rays(), queen_of(color), color);
    let sr = slider_moves(b, pl.list(rook_of(color)), pins, rook_rays(), rook_of(color), color);
    let sb = slider_moves(b, pl.list(bishop_of(color)), pins, bishop_rays(), bishop_of(color), color);
    let kn = knight_moves(b, pl.list(knight_of(color)), pins, knight_of(color), color);
    let pw = pawn_moves(b, pl, pl.list(pawn_of(color)), pins, pawn_of(color), color);
    lemma_sliders_move(b, pl.list(queen_of(color)), pins, queen_rays(), queen_of(color), color);
    lemma_sliders_move(b, pl.list(rook_of(color)), pins, rook_rays(), rook_of(color), color);
    lemma_sliders_move(b, pl.list(bishop_of(color)), pins, bishop_rays(), bishop_of(color), color);
    lemma_knights_move(b, pl.list(knight_of(color)), pins, knight_of(color), color);
    lemma_pawns_move(b, pl, pl.list(pawn_of(color)), pins, pawn_of(color), color);
    if piece_moves(b, pl, color).contains(m) {
        lemma_in_concat(sq + sr + sb + kn, pw, m);
        lemma_not_in(pw, pawn_of(color), m);
        lemma_in_concat(sq + sr + sb, kn, m);
        lemma_not_in(kn, knight_of(color), m);
        lemma_in_concat(sq + sr, sb, m);
        lemma_not_in(sb, bishop_of(color), m);
        lemma_in_concat(sq, sr, m);
        lemma_not_in(sr, rook_of(color), m);
        lemma_not_in(sq, queen_of(color), m);
    }
}

/// A legal king move other than castling is one of the king steps.
proof fn lemma_legal_king_step(b: ChessBoard, pl: PieceList, color: Color, m: Move)
    requires
        legal_moves(b, pl, color).contains(m),
        m.piece == king_of(color),
        m.castling is None,
    ensures
        king_moves(b, pl, pl.list(king_of(color)), king_of(color), color).contains(m),
{
    let km = king_moves(b, pl, pl.list(king_of(color)), king_of(color), color);
    let checks = checking_pieces(b.board_squares@, pl, color);
    if checks.len() == 0 {
        let pins = crate::game_state::board::piece_list::pins::pins(b.board_squares@, pl, color);
        let cm = castling_moves(b, color);
        let sq = slider_moves(b, pl.list(queen_of(color)), pins, queen_rays(), queen_of(color), color);
        let sr = slider_moves(b, pl.list(rook_of(color)), pins, rook_rays(), rook_of(color), color);
        let sb = slider_moves(b, pl.list(bishop_of(color)), pins, bishop_rays(), bishop_of(color), color);
        let kn = knight_moves(b, pl.list(knight_of(color)), pins, knight_of(color), color);
        let pw = pawn_moves(b, pl, pl.list(pawn_of(color)), pins, pawn_of(color), color);
        assert(pseudo_legal_moves(b, pl, color) == km + cm + sq + sr + sb + kn + pw);
        lemma_sliders_move(b, pl.list(queen_of(color)), pins, queen_rays(), queen_of(color), color);
        lemma_sliders_move(b, pl.list(rook_of(color)), pins, rook_rays(), rook_of(color), color);
        lemma_sliders_move(b, pl.list(bishop_of(color)), pins, bishop_rays(), bishop_of(color), color);
        lemma_knights_move(b, pl.list(knight_of(color)), pins, knight_of(color), color);
        lemma_pawns_move(b, pl, pl.list(pawn_of(color)), pins, pawn_of(color), color);
        lemma_in_concat(km + cm + sq + sr + sb + kn, pw, m);
        lemma_not_in(pw, pawn_of(color), m);
        lemma_in_concat(km + cm + sq + sr + sb, kn, m);
        lemma_not_in(kn, knight_of(color), m);
        lemma_in_concat(km + cm + sq + sr, sb, m);
        lemma_not_in(sb, bishop_of(color), m);
        lemma_in_concat(km + cm + sq, sr, m);
        lemma_not_in(sr, rook_of(color), m);
        lemma_in_concat(km + cm, sq, m);
        lemma_not_in(sq, queen_of(color), m);
        lemma_in_concat(km, cm, m);
        if cm.contains(m) {
            let i = choose|i: int| 0 <= i < cm.len() && cm[i] == m;
            assert(cm[i].castling is Some);
        }
    } else if checks.len() == 1 {
        match king_square(pl, color) {
            None => {},
            Some(k) => {
                let blocking = crate::game_state::board::piece_list::movegen::blocking_line(checks[0], k);
                let pm = piece_moves(b, pl, color);
                let filtered = pm.filter(|mv: Move| blocking.contains(mv.to));
                assert(evasion_moves(b, pl, checks[0], color) == filtered + km);
                lemma_in_concat(filtered, km, m);
                if filtered.contains(m) {
                    pm.lemma_filter_contains_rev(|mv: Move| blocking.contains(mv.to), m);
                    lemma_piece_moves_not_king(b, pl, color, m);
                }
            },
        }
    }
}

/// A king step produced from the squares of a list is a step of a king on
/// one of them by a king offset that [`king_step_ok`] allows.
proof fn lemma_king_moves_steps(b: ChessBoard, pl: PieceList, squares: Seq<i16>, piece: Piece, color: Color, m: Move)
    requires
        king_moves(b, pl, squares, piece, color).contains(m),
    ensures
        exists|j: int, k: int|
            0 <= j < squares.len() && 0 <= k < 8 && m == plain_move(b, squares[j] as int, squares[j] + king_offsets()[k], piece)
                && king_step_ok(b, pl, squares[j] as int, squares[j] + king_offsets()[k], color),
    decreases squares.len(),
{
    let prev = king_moves(b, pl, squares.drop_last(), piece, color);
    let s = squares.last() as int;
    lemma_in_concat(prev, king_steps(b, pl, s, king_offsets(), piece, color), m);
    if prev.contains(m) {
        lemma_king_moves_steps(b, pl, squares.drop_last(), piece, color, m);
        let (j, k) = choose|j: int, k: int|
            0 <= j < squares.drop_last().len() && 0 <= k < 8 && m == plain_move(
                b,
                squares.drop_last()[j] as int,
                squares.drop_last()[j] + king_offsets()[k],
                piece,
            ) && king_step_ok(b, pl, squares.drop_last()[j] as int, squares.drop_last()[j] + king_offsets()[k], color);
        assert(squares[j] == squares.drop_last()[j]);
    } else {
        lemma_king_steps_ok(b, pl, s, king_offsets(), piece, color, m);
        let k = choose|k: int|
            0 <= k < king_offsets().len() && m == plain_move(b, s, s + king_offsets()[k], piece) && king_step_ok(
                b,
                pl,
                s,
                s + king_offsets()[k],
                color,
            );
        assert(squares[squares.len() - 1] == squares.last());
    }
}

/// A king step from `s` is a step by one of the offsets that
/// [`king_step_ok`] allows.
proof fn lemma_king_steps_ok(b: ChessBoard, pl: PieceList, s: int, offsets: Seq<int>, piece: Piece, color: Color, m: Move)
    requires
        king_steps(b, pl, s, offsets, piece, color).contains(m),
    ensures
        exists|k: int|
            0 <= k < offsets.len() && m == plain_move(b, s, s + offsets[k], piece) && king_step_ok(b, pl, s, s + offsets[k], color),
    decreases offsets.len(),
{
    let prev = king_steps(b, pl, s, offsets.drop_last(), piece, color);
    let t = s + offsets.last();
    if prev.contains(m) {
        lemma_king_steps_ok(b, pl, s, offsets.drop_last(), piece, color, m);
        let k = choose|k: int|
            0 <= k < offsets.drop_last().len() && m == plain_move(b, s, s + offsets.drop_last()[k], piece) && king_step_ok(
                b,
                pl,
                s,
                s + offsets.drop_last()[k],
                color,
            );
        assert(offsets[k] == offsets.drop_last()[k]);
    } else {
        let i = choose|i: int| 0 <= i < king_steps(b, pl, s, offsets, piece, color).len() && king_steps(b, pl, s, offsets, piece, color)[i] == m;
        assert(king_step_ok(b, pl, s, t, color));
        assert(offsets[offsets.len() - 1] == offsets.last());
    }
}


/// The king steps move the king, without castling.
pub proof fn lemma_king_steps_move(b: ChessBoard, pl: PieceList, s: int, offsets: Seq<int>, piece: Piece, color: Color)
    ensures
        all_move(king_steps(b, pl, s, offsets, piece, color), piece),
    decreases offsets.len(),
{
    if offsets.len() > 0 {
        lemma_king_steps_move(b, pl, s, offsets.drop_last(), piece, color);
    }
}

/// The moves of kings move the king, without castling.
pub proof fn lemma_kings_move(b: ChessBoard, pl: PieceList, squares: Seq<i16>, piece: Piece, color: Color)
    ensures
        all_move(king_moves(b, pl, squares, piece, color), piece),
    decreases squares.len(),
{
    if squares.len() > 0 {
        lemma_kings_move(b, pl, squares.drop_last(), piece, color);
        lemma_king_steps_move(b, pl, squares.last() as int, king_offsets(), piece, color);
        lemma_all_concat(
            king_moves(b, pl, squares.drop_last(), piece, color),
            king_steps(b, pl, squares.last() as int, king_offsets(), piece, color),
            piece,
        );
    }
}

/// A legal castling move is one of the castling moves of a position that
/// is not in check.
proof fn lemma_legal_castling(b: ChessBoard, pl: PieceList, color: Color, m: Move)
    requires
        legal_moves(b, pl, color).contains(m),
        m.castling is Some,
    ensures
        checking_pieces(b.board_squares@, pl, color).len() == 0,
        castling_moves(b, color).contains(m),
{
    let king = king_of(color);
    let km = king_moves(b, pl, pl.list(king), king, color);
    lemma_kings_move(b, pl, pl.list(king), king, color);
    lemma_not_in(km, king, m);
    let checks = checking_pieces(b.board_squares@, pl, color);
    if checks.len() == 0 {
        let pins = crate::game_state::board::piece_list::pins::pins(b.board_squares@, pl, color);
        let cm = castling_moves(b, color);
        let sq = slider_moves(b, pl.list(queen_of(color)), pins, queen_rays(), queen_of(color), color);
        let sr = slider_moves(b, pl.list(rook_of(color)), pins, rook_rays(), rook_of(color), color);
        let sb = slider_moves(b, pl.list(bishop_of(color)), pins, bishop_rays(), bishop_of(color), color);
        let kn = knight_moves(b, pl.list(knight_of(color)), pins, knight_of(color), color);
        let pw = pawn_moves(b, pl, pl.list(pawn_of(color)), pins, pawn_of(color), color);
        assert(pseudo_legal_moves(b, pl, color) == km + cm + sq + sr + sb + kn + pw);
        lemma_sliders_move(b, pl.list(queen_of(color)), pins, queen_rays(), queen_of(color), color);
        lemma_sliders_move(b, pl.list(rook_of(color)), pins, rook_rays(), rook_of(color), color);
        lemma_sliders_move(b, pl.list(bishop_of(color)), pins, bishop_rays(), bishop_of(color), color);
        lemma_knights_move(b, pl.list(knight_of(color)), pins, knight_of(color), color);
        lemma_pawns_move(b, pl, pl.list(pawn_of(color)), pins, pawn_of(color), color);
        lemma_in_concat(km + cm + sq + sr + sb + kn, pw, m);
        lemma_not_in(pw, pawn_of(color), m);
        lemma_in_concat(km + cm + sq + sr + sb, kn, m);
        lemma_not_in(kn, knight_of(color), m);
        lemma_in_concat(km + cm + sq + sr, sb, m);
        lemma_not_in(sb, bishop_of(color), m);
        lemma_in_concat(km + cm + sq, sr, m);
        lemma_not_in(sr, rook_of(color), m);
        lemma_in_concat(km + cm, sq, m);
        lemma_not_in(sq, queen_of(color), m);
        lemma_in_concat(km, cm, m);
    } else if checks.len() == 1 {
        match king_square(pl, color) {
            None => {},
            Some(k) => {
                let blocking = crate::game_state::board::piece_list::movegen::blocking_line(checks[0], k);
                let pm = piece_moves(b, pl, color);
                let filtered = pm.filter(|mv: Move| blocking.contains(mv.to));
                assert(evasion_moves(b, pl, checks[0], color) == filtered + km);
                lemma_in_concat(filtered, km, m);
                if filtered.contains(m) {
                    pm.lemma_filter_contains_rev(|mv: Move| blocking.contains(mv.to), m);
                    lemma_piece_moves_not_castling(b, pl, color, m);
                }
            },
        }
    }
}

/// The moves of the pieces other than the king hold no castling.
proof fn lemma_piece_moves_not_castling(b: ChessBoard, pl: PieceList, color: Color, m: Move)
    requires
        m.castling is Some,
    ensures
        !piece_moves(b, pl, color).contains(m),
{
    let pins = crate::game_state::board::piece_list::pins::pins(b.board_squares@, pl, color);
    let sq = slider_moves(b, pl.list(queen_of(color)), pins, queen_rays(), queen_of(color), color);
    let sr = slider_moves(b, pl.list(rook_of(color)), pins, rook_rays(), rook_of(color), color);
    let sb = slider_moves(b, pl.list(bishop_of(color)), pins, bishop_rays(), bishop_of(color), color);
    let kn = knight_moves(b, pl.list(knight_of(color)), pins, knight_of(color), color);
    let pw = pawn_moves(b, pl, pl.list(pawn_of(color)), pins, pawn_of(color), color);
    lemma_sliders_move(b, pl.list(queen_of(color)), pins, queen_rays(), queen_of(color), color);
    lemma_sliders_move(b, pl.list(rook_of(color)), pins, rook_rays(), rook_of(color), color);
    lemma_sliders_move(b, pl.list(bishop_of(color)), pins, bishop_rays(), bishop_of(color), color);
    lemma_knights_move(b, pl.list(knight_of(color)), pins, knight_of(color), color);
    lemma_pawns_move(b, pl, pl.list(pawn_of(color)), pins, pawn_of(color), color);
    if piece_moves(b, pl, color).contains(m) {
        lemma_in_concat(sq + sr + sb + kn, pw, m);
        lemma_not_in(pw, pawn_of(color), m);
        lemma_in_concat(sq + sr + sb, kn, m);
        lemma_not_in(kn, knight_of(color), m);
        lemma_in_concat(sq + sr, sb, m);
        lemma_not_in(sb, bishop_of(color), m);
        lemma_in_concat(sq, sr, m);
        lemma_not_in(sr, rook_of(color), m);
        lemma_not_in(sq, queen_of(color), m);
    }
}

/// The direction of a slider's attack is a step along a rank, a file or a
/// diagonal.
pub proof fn lemma_direction_values(x: int, t: int, kind: PieceType)
    ensures
        diagonal_direction(x, t) == 0 || diagonal_direction(x, t) == 11 || diagonal_direction(x, t) == 9
            || diagonal_direction(x, t) == -9 || diagonal_direction(x, t) == -11,
        rank_or_file_direction(x, t) == 0 || rank_or_file_direction(x, t) == 1 || rank_or_file_direction(x, t) == -1
            || rank_or_file_direction(x, t) == 10 || rank_or_file_direction(x, t) == -10,
{
}

/// No square strictly between an attacker and a castled king's square is
/// one of the four squares that castling changed, but the rook's new square
/// (which blocks) and those two steps from the target along the back rank
/// (which lie behind the rook); a slider's ray from an on-board square
/// passes none of them.
proof fn lemma_castle_ray(x: int, t: int, d: int, n: int, k: int, e: int, kingside: bool)
    requires
        is_inner(x),
        0 <= t < 120,
        e == 25 || e == 95,
        t == if kingside { e + 2 } else { e - 2 },
        d == 1 || d == -1 || d == 10 || d == -10 || d == 11 || d == 9 || d == -9 || d == -11,
        (d == 1 || d == -1) ==> x / 10 == t / 10,
        x + n * d == t,
        1 <= k < n,
    ensures
        ray_square(x, d, k) == e ==> ray_square(x, d, k + 1) == (if kingside { e + 1 } else { e - 1 }) && k + 1 < n,
        ray_square(x, d, k) != (if kingside { e + 3 } else { e - 4 }),
{
    lemma_row_column(x);
    lemma_row_column(t);
    let q = x + k * d;
    let m = n - k;
    assert(t - q == m * d) by (nonlinear_arith)
        requires
            x + n * d == t,
            q == x + k * d,
            m == n - k,
    ;
    assert((d == 1 ==> t - q == m) && (d == -1 ==> t - q == -m) && (d == 10 ==> t - q == 10 * m) && (d == -10 ==> t - q
        == -10 * m) && (d == 11 ==> t - q == 11 * m) && (d == 9 ==> t - q == 9 * m) && (d == -9 ==> t - q == -9 * m) && (d
        == -11 ==> t - q == -11 * m)) by (nonlinear_arith)
        requires
            t - q == m * d,
    ;
    assert((d == 1 ==> x == t - n) && (d == -1 ==> x == t + n)) by (nonlinear_arith)
        requires
            x + n * d == t,
    ;
    assert((d == 1 ==> ray_square(x, d, k + 1) == q + 1) && (d == -1 ==> ray_square(x, d, k + 1) == q - 1)) by (nonlinear_arith)
        requires
            q == x + k * d,
    ;
}

/// An attack on the square a king castled to, on the board after castling,
/// is an attack on that square on the board before it.
pub proof fn lemma_attack_after_castle(
    sq0: Seq<Piece>,
    pl0: PieceList,
    sq1: Seq<Piece>,
    pl1: PieceList,
    e: int,
    kingside: bool,
    king: Piece,
    rook: Piece,
    color: Color,
)
    requires
        sq0.len() == 120,
        lists_match_squares(sq0, pl0),
        lists_match_squares(sq1, pl1),
        pl1.wf(),
        e == 25 || e == 95,
        king.is_piece(),
        king.color() == color,
        rook.is_piece(),
        rook.color() == color,
        sq1 == (if kingside {
            sq0.update(e + 3, Piece::EmptySquare).update(e + 1, rook).update(e + 2, king).update(e, Piece::EmptySquare)
        } else {
            sq0.update(e - 4, Piece::EmptySquare).update(e - 1, rook).update(e - 2, king).update(e, Piece::EmptySquare)
        }),
        square_attacked(sq1, pl1, if kingside { e + 2 } else { e - 2 }, color.spec_opposite()),
    ensures
        square_attacked(sq0, pl0, if kingside { e + 2 } else { e - 2 }, color.spec_opposite()),
{
    let opp = color.spec_opposite();
    let t = if kingside { e + 2 } else { e - 2 };
    let rt = if kingside { e + 1 } else { e - 1 };
    let rf = if kingside { e + 3 } else { e - 4 };
    let (p, i) = choose|p: Piece, i: int|
        #![trigger pl1.list(p)[i]]
        p.is_piece() && p.color() == opp && 0 <= i < pl1.list(p).len() && piece_attacks(
            sq1,
            p.kind(),
            pl1.list(p)[i] as int,
            t,
            opp,
        );
    let x = pl1.list(p)[i] as int;
    assert(sorted_inner(pl1.list(p)));
    assert(is_inner(x));
    assert(sq1[x] == p);
    assert(x != t && x != rt && x != rf && x != e);
    assert(sq0[x] == p);
    assert(pl0.list(p).contains(x as i16));
    let j = choose|j: int| 0 <= j < pl0.list(p).len() && pl0.list(p)[j] == x as i16;
    let kind = p.kind();
    let bd = diagonal_direction(x, t);
    let bn = abs_diff(x / 10, t / 10);
    let rd = rank_or_file_direction(x, t);
    let rn = line_steps(x, t);
    lemma_direction_values(x, t, kind);
    if (kind == PieceType::Bishop || kind == PieceType::Queen) && bd != 0 && crate::game_state::board::piece_list::attacks::bishop_attacks(sq1, x, t) {
        lemma_diagonal_reaches(x, t);
        assert forall|k: int| 1 <= k < bn implies #[trigger] sq0[ray_square(x, bd, k)] == Piece::EmptySquare by {
            let q = ray_square(x, bd, k);
            lemma_ray_between(x, t, bd, bn, k);
            lemma_castle_ray(x, t, bd, bn, k, e, kingside);
            assert(sq1[q] == Piece::EmptySquare);
            if q == e {
                assert(sq1[ray_square(x, bd, k + 1)] == Piece::EmptySquare);
                assert(false);
            }
            assert(q != t && q != rt && q != rf && q != e);
            assert(sq1[q] == sq0[q]);
        }
    }
    if (kind == PieceType::Rook || kind == PieceType::Queen) && rd != 0 && crate::game_state::board::piece_list::attacks::rook_attacks(sq1, x, t) {
        lemma_line_reaches(x, t);
        assert forall|k: int| 1 <= k < rn implies #[trigger] sq0[ray_square(x, rd, k)] == Piece::EmptySquare by {
            let q = ray_square(x, rd, k);
            lemma_ray_between(x, t, rd, rn, k);
            lemma_castle_ray(x, t, rd, rn, k, e, kingside);
            assert(sq1[q] == Piece::EmptySquare);
            if q == e {
                assert(sq1[ray_square(x, rd, k + 1)] == Piece::EmptySquare);
                assert(false);
            }
            assert(q != t && q != rt && q != rf && q != e);
            assert(sq1[q] == sq0[q]);
        }
    }
    assert(pl0.list(p)[j] as int == x);
    assert(piece_attacks(sq0, kind, x, t, opp));
}

/// After a king step that the move generator produces (any legal king move
/// but castling), no enemy piece attacks the square the king moved to.
proof fn lemma_king_step_safe(b: ChessBoard, b1: ChessBoard, m: Move, color: Color)
    requires
        b.wf(),
        legal_moves(b, b.piece_list, color).contains(m),
        m.piece == king_of(color),
        m.castling is None,
        made(b, b1, m),
    ensures
        !square_attacked(b1.board_squares@, b1.piece_list, m.to as int, color.spec_opposite()),
{
    let pl = b.piece_list;
    let king = king_of(color);
    lemma_legal_king_step(b, pl, color, m);
    lemma_king_moves_steps(b, pl, pl.list(king), king, color, m);
    let (j, k) = choose|j: int, k: int|
        0 <= j < pl.list(king).len() && 0 <= k < 8 && m == plain_move(b, pl.list(king)[j] as int, pl.list(king)[j] + king_offsets()[k], king)
            && king_step_ok(b, pl, pl.list(king)[j] as int, pl.list(king)[j] + king_offsets()[k], color);
    let s = pl.list(king)[j] as int;
    let t = s + king_offsets()[k];
    assert(sorted_inner(pl.list(king)));
    assert(is_inner(s));
    assert(m.from as int == s);
    assert(m.to as int == t);
    assert(b.board_squares@[s] == king);
    let sq0 = b.board_squares@;
    let sq1 = b1.board_squares@;
    assert(sq1 == sq0.update(t, king).update(s, Piece::EmptySquare));
    if square_attacked(sq1, b1.piece_list, t, color.spec_opposite()) {
        lemma_attack_after_step(sq0, pl, sq1, b1.piece_list, s, t, king, color);
    }
}


/// After castling as the move generator produces it, no enemy piece
/// attacks the square the king moved to.
proof fn lemma_castling_safe(b: ChessBoard, b1: ChessBoard, m: Move, color: Color)
    requires
        b.wf(),
        legal_moves(b, b.piece_list, color).contains(m),
        m.castling is Some,
        made(b, b1, m),
    ensures
        !square_attacked(b1.board_squares@, b1.piece_list, m.to as int, color.spec_opposite()),
{
    let pl = b.piece_list;
    let king = king_of(color);
    lemma_legal_castling(b, pl, color, m);
    let e: int = if color == Color::White { 25 } else { 95 };
    let ks = if castle_kingside_ok(b, color, e, e + 3) {
        seq![castle_move(b, e, e + 2, king, e + 3, e + 1)]
    } else {
        Seq::empty()
    };
    let qs = if castle_queenside_ok(b, color, e, e - 4) {
        seq![castle_move(b, e, e - 2, king, e - 4, e - 1)]
    } else {
        Seq::empty()
    };
    assert(castling_moves(b, color) == ks + qs);
    lemma_in_concat(ks, qs, m);
    let rook = if e == 25 { Piece::WhiteRook } else { Piece::BlackRook };
    let sq0 = b.board_squares@;
    let sq1 = b1.board_squares@;
    let kingside = ks.contains(m);
    if kingside {
        assert(m == castle_move(b, e, e + 2, king, e + 3, e + 1));
        assert(sq1 == sq0.update(e + 3, Piece::EmptySquare).update(e + 1, rook).update(e + 2, king).update(e, Piece::EmptySquare));
        if square_attacked(sq1, b1.piece_list, e + 2, color.spec_opposite()) {
            lemma_attack_after_castle(sq0, pl, sq1, b1.piece_list, e, true, king, rook, color);
        }
    } else {
        assert(m == castle_move(b, e, e - 2, king, e - 4, e - 1));
        assert(sq1 == sq0.update(e - 4, Piece::EmptySquare).update(e - 1, rook).update(e - 2, king).update(e, Piece::EmptySquare));
        if square_attacked(sq1, b1.piece_list, e - 2, color.spec_opposite()) {
            lemma_attack_after_castle(sq0, pl, sq1, b1.piece_list, e, false, king, rook, color);
        }
    }
}

/// After any king move that the move generator produces, a step or
/// castling, no enemy piece attacks the square the king moved to.
pub proof fn lemma_king_move_safe(b: ChessBoard, b1: ChessBoard, m: Move, color: Color)
    requires
        b.wf(),
        legal_moves(b, b.piece_list, color).contains(m),
        m.piece == king_of(color),
        made(b, b1, m),
    ensures
        !square_attacked(b1.board_squares@, b1.piece_list, m.to as int, color.spec_opposite()),
{
    if m.castling is Some {
        lemma_castling_safe(b, b1, m, color);
    } else {
        lemma_king_step_safe(b, b1, m, color);
    }
}

} // verus!
