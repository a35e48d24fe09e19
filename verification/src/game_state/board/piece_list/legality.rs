//! What a generated knight, bishop, rook or queen move looks like, and why
//! a move of a piece of the side to move opens no line to its king: a
//! piece standing on such a line is pinned and keeps to it.

use vstd::prelude::*;

use crate::game_state::board::{abs_diff, diagonal_direction, is_inner, lists_match_squares, rank_or_file_direction, ChessBoard};
use crate::game_state::board::moves::Move;
use crate::game_state::board::piece::{Color, Piece, PieceType};
use crate::game_state::board::piece_list::{sorted_inner, PieceList};
use crate::game_state::board::piece_list::attacks::{
    attacker_order, attackers, attackers_upto, bishop_attacks, checking_pieces, king_square, lemma_attackers_upto_complete,
    line_steps, piece_attacks, ray_clear, ray_square, rook_attacks, square_attacked,
};
use crate::game_state::board::piece_list::movegen::{
    allowed_rays, bishop_of, bishop_rays, blocking_line, castling_moves, evasion_moves, is_enemy, king_moves, king_of,
    knight_moves, knight_of, knight_offsets, legal_moves, lemma_ray_stop, moves_over_rays, pawn_moves, pawn_of, piece_moves,
    plain_move, pseudo_legal_moves, queen_of, queen_rays, rook_of, rook_rays, slide_moves, slider_moves, step_moves, stops_at,
};
use crate::game_state::board::piece_list::pins::{can_pin, pin_at, pin_directions, pinned_along, pins, pins_upto};
use crate::game_state::board::piece_list::rays::along;
use crate::game_state::board::piece_list::safety::{
    lemma_diagonal_reaches, lemma_direction_values, lemma_in_concat, lemma_kings_move, lemma_knights_move, lemma_line_reaches,
    lemma_not_in, lemma_pawns_move, lemma_ray_between, lemma_sliders_move,
};

verus! {

/// The row step of a direction.
pub open spec fn dir_row(d: int) -> int {
    if d == 10 || d == 11 || d == 9 {
        1
    } else if d == -10 || d == -11 || d == -9 {
        -1
    } else {
        0
    }
}

/// The column step of a direction.
pub open spec fn dir_col(d: int) -> int {
    if d == 1 || d == 11 || d == -9 {
        1
    } else if d == -1 || d == -11 || d == 9 {
        -1
    } else {
        0
    }
}

/// One of the eight ray directions.
pub open spec fn is_dir(d: int) -> bool {
    d == 1 || d == -1 || d == 10 || d == -10 || d == 11 || d == -11 || d == 9 || d == -9
}

/// A step from an on-board square changes its row and column by the
/// direction's steps.
pub proof fn lemma_step_coords(q: int, d: int)
    requires
        is_inner(q),
        is_dir(d),
    ensures
        (q + d) / 10 == q / 10 + dir_row(d),
        (q + d) % 10 == q % 10 + dir_col(d),
        0 <= q + d < 120,
{
    vstd::arithmetic::div_mod::lemma_fundamental_div_mod(q, 10);
    let r = q / 10;
    let c = q % 10;
    assert(q + d == (r + dir_row(d)) * 10 + (c + dir_col(d)));
    vstd::arithmetic::div_mod::lemma_fundamental_div_mod_converse_div(q + d, 10, r + dir_row(d), c + dir_col(d));
    vstd::arithmetic::div_mod::lemma_fundamental_div_mod_converse_mod(q + d, 10, r + dir_row(d), c + dir_col(d));
}

/// The squares of a ray that stays on the board up to step `j`: `j` times
/// the direction's steps from the start.
pub proof fn lemma_ray_coords(s: int, d: int, j: int)
    requires
        is_dir(d),
        j >= 0,
        forall|i: int| 0 <= i < j ==> is_inner(#[trigger] ray_square(s, d, i)),
        is_inner(s),
    ensures
        ray_square(s, d, j) / 10 == s / 10 + j * dir_row(d),
        ray_square(s, d, j) % 10 == s % 10 + j * dir_col(d),
        0 <= ray_square(s, d, j) < 120,
    decreases j,
{
    if j == 0 {
        assert(ray_square(s, d, 0) == s);
        vstd::arithmetic::div_mod::lemma_fundamental_div_mod(s, 10);
    } else {
        lemma_ray_coords(s, d, j - 1);
        let q = ray_square(s, d, j - 1);
        assert(is_inner(q));
        lemma_step_coords(q, d);
        assert(ray_square(s, d, j) == q + d) by (nonlinear_arith)
            requires
                q == s + (j - 1) * d,
        ;
        assert(s / 10 + (j - 1) * dir_row(d) + dir_row(d) == s / 10 + j * dir_row(d)) by (nonlinear_arith);
        assert(s % 10 + (j - 1) * dir_col(d) + dir_col(d) == s % 10 + j * dir_col(d)) by (nonlinear_arith);
    }
}

/// A ray from an on-board square leaves the board within eight steps.
pub proof fn lemma_ray_leaves(s: int, d: int)
    requires
        is_dir(d),
        is_inner(s),
    ensures
        exists|j: int| 1 <= j <= 8 && !is_inner(#[trigger] ray_square(s, d, j)) && (forall|i: int|
            0 <= i < j ==> is_inner(#[trigger] ray_square(s, d, i))),
{
    lemma_ray_leaves_from(s, d, 0);
}

/// Searching from step `j` on, with the ray on the board before it.
proof fn lemma_ray_leaves_from(s: int, d: int, j: int)
    requires
        is_dir(d),
        is_inner(s),
        0 <= j <= 8,
        forall|i: int| 0 <= i < j ==> is_inner(#[trigger] ray_square(s, d, i)),
    ensures
        exists|k: int| 1 <= k <= 8 && !is_inner(#[trigger] ray_square(s, d, k)) && (forall|i: int|
            0 <= i < k ==> is_inner(#[trigger] ray_square(s, d, i))),
    decreases 9 - j,
{
    if j == 0 {
        assert(ray_square(s, d, 0) == s);
        lemma_ray_leaves_from(s, d, 1);
    } else if !is_inner(ray_square(s, d, j)) {
        assert(1 <= j <= 8);
    } else if j < 8 {
        lemma_ray_leaves_from(s, d, j + 1);
    } else {
        lemma_ray_coords(s, d, 8);
        vstd::arithmetic::div_mod::lemma_fundamental_div_mod(s, 10);
        assert(is_inner(ray_square(s, d, 8)));
        let q = ray_square(s, d, 8);
        vstd::arithmetic::div_mod::lemma_fundamental_div_mod(q, 10);
        assert(false);
    }
}

/// On a board whose off-board squares are sentinels, a ray from an
/// on-board square stops within eight steps at a square of the array.
pub proof fn lemma_ray_stops(b: ChessBoard, s: int, d: int)
    requires
        b.frame_ok(),
        b.board_squares@.len() == 120,
        is_dir(d),
        is_inner(s),
    ensures
        exists|n: int| 1 <= n <= 8 && #[trigger] stops_at(b.board_squares@, s, d, n) && 0 <= ray_square(s, d, n) < 120,
{
    lemma_ray_leaves(s, d);
    let j = choose|j: int| 1 <= j <= 8 && !is_inner(#[trigger] ray_square(s, d, j)) && (forall|i: int|
        0 <= i < j ==> is_inner(#[trigger] ray_square(s, d, i)));
    assert(is_inner(ray_square(s, d, j - 1)));
    lemma_step_coords(ray_square(s, d, j - 1), d);
    assert(ray_square(s, d, j) == ray_square(s, d, j - 1) + d) by (nonlinear_arith);
    assert(b.at(ray_square(s, d, j)) == Piece::SentinelSquare);
    lemma_first_stop(b, s, d, 1, j);
}

/// The first square that is not empty from step `m` on, with the squares
/// before `m` empty and the square at `j` not empty.
proof fn lemma_first_stop(b: ChessBoard, s: int, d: int, m: int, j: int)
    requires
        b.frame_ok(),
        b.board_squares@.len() == 120,
        is_dir(d),
        1 <= m <= j <= 8,
        forall|i: int| 0 <= i < j ==> is_inner(#[trigger] ray_square(s, d, i)),
        0 <= ray_square(s, d, j) < 120,
        b.board_squares@[ray_square(s, d, j)] != Piece::EmptySquare,
        forall|i: int| 1 <= i < m ==> #[trigger] b.board_squares@[ray_square(s, d, i)] == Piece::EmptySquare,
    ensures
        exists|n: int| 1 <= n <= 8 && #[trigger] stops_at(b.board_squares@, s, d, n) && 0 <= ray_square(s, d, n) < 120,
    decreases j - m,
{
    let sq = b.board_squares@;
    if sq[ray_square(s, d, m)] != Piece::EmptySquare {
        if m < j {
            assert(is_inner(ray_square(s, d, m)));
        }
        assert(stops_at(sq, s, d, m));
    } else {
        lemma_first_stop(b, s, d, m + 1, j);
    }
}

/// A direction is ten row steps plus its column step.
pub proof fn lemma_dir_parts(d: int)
    requires
        is_dir(d),
    ensures
        d == 10 * dir_row(d) + dir_col(d),
        -1 <= dir_row(d) <= 1,
        -1 <= dir_col(d) <= 1,
{
}

/// Equal positive multiples of two unit steps are multiples of the same
/// step.
pub proof fn lemma_scaled_steps(a: int, b: int, x: int, y: int)
    requires
        a >= 1,
        b >= 1,
        -1 <= x <= 1,
        -1 <= y <= 1,
        a * x == b * y,
    ensures
        x == y,
{
    assert(x == y) by (nonlinear_arith)
        requires
            a >= 1,
            b >= 1,
            -1 <= x <= 1,
            -1 <= y <= 1,
            a * x == b * y,
    ;
}

/// The squares of a ray that are empty up to step `a` are on the board,
/// as is the start.
pub proof fn lemma_empty_prefix_inner(b: ChessBoard, s: int, d: int, a: int)
    requires
        b.frame_ok(),
        b.board_squares@.len() == 120,
        is_dir(d),
        is_inner(s),
        a >= 1,
        forall|i: int| 1 <= i < a ==> #[trigger] b.board_squares@[ray_square(s, d, i)] == Piece::EmptySquare,
    ensures
        forall|i: int| 0 <= i < a ==> is_inner(#[trigger] ray_square(s, d, i)),
    decreases a,
{
    if a == 1 {
        assert forall|i: int| 0 <= i < a implies is_inner(#[trigger] ray_square(s, d, i)) by {
            assert(ray_square(s, d, 0) == s);
        }
    } else {
        lemma_empty_prefix_inner(b, s, d, a - 1);
        lemma_ray_coords(s, d, a - 1);
        let q = ray_square(s, d, a - 1);
        assert(b.board_squares@[q] == Piece::EmptySquare);
        assert(b.at(q) != Piece::SentinelSquare);
    }
}

/// Two pins found from the same king at the same square run in the same
/// direction.
pub proof fn lemma_pin_direction_unique(
    b: ChessBoard,
    k: int,
    v: int,
    w: int,
    color: Color,
    a1: int,
    a2: int,
    b1: int,
    b2: int,
)
    requires
        b.frame_ok(),
        b.board_squares@.len() == 120,
        is_inner(k),
        is_dir(v),
        is_dir(w),
        pin_at(b.board_squares@, k, v, color, a1, a2),
        pin_at(b.board_squares@, k, w, color, b1, b2),
        ray_square(k, v, a1) == ray_square(k, w, b1),
    ensures
        v == w,
{
    let sq = b.board_squares@;
    assert forall|i: int| 1 <= i < a1 implies #[trigger] sq[ray_square(k, v, i)] == Piece::EmptySquare by {
        assert(i != a1 && 1 <= i < a2);
    }
    assert forall|i: int| 1 <= i < b1 implies #[trigger] sq[ray_square(k, w, i)] == Piece::EmptySquare by {
        assert(i != b1 && 1 <= i < b2);
    }
    lemma_empty_prefix_inner(b, k, v, a1);
    lemma_empty_prefix_inner(b, k, w, b1);
    lemma_ray_coords(k, v, a1);
    lemma_ray_coords(k, w, b1);
    lemma_dir_parts(v);
    lemma_dir_parts(w);
    lemma_scaled_steps(a1, b1, dir_row(v), dir_row(w));
    lemma_scaled_steps(a1, b1, dir_col(v), dir_col(w));
}

/// Every pin direction is a ray direction.
pub proof fn lemma_pin_directions_valid(i: int)
    requires
        0 <= i < 8,
    ensures
        is_dir(pin_directions()[i]),
{
}

/// The pins found along the first `n` directions map a square pinned
/// along `w` to `w`, once `w` is among them.
pub proof fn lemma_pins_upto_maps(b: ChessBoard, k: int, color: Color, n: int, w: int, k1: int, k2: int)
    requires
        b.frame_ok(),
        b.board_squares@.len() == 120,
        is_inner(k),
        is_dir(w),
        pin_at(b.board_squares@, k, w, color, k1, k2),
        0 <= n <= 8,
        is_inner(ray_square(k, w, k1)),
    ensures
        pins_upto(b.board_squares@, k, color, n).contains_key(ray_square(k, w, k1) as i16) ==> pins_upto(
            b.board_squares@,
            k,
            color,
            n,
        )[ray_square(k, w, k1) as i16] == w,
        (exists|j: int| 0 <= j < n && pin_directions()[j] == w) ==> pins_upto(b.board_squares@, k, color, n).contains_key(
            ray_square(k, w, k1) as i16,
        ),
    decreases n,
{
    let sq = b.board_squares@;
    let s = ray_square(k, w, k1);
    if n > 0 {
        lemma_pins_upto_maps(b, k, color, n - 1, w, k1, k2);
        let dn = pin_directions()[n - 1];
        lemma_pin_directions_valid(n - 1);
        match pinned_along(sq, k, dn, color) {
            Some((s2, dd)) => {
                let (a1, a2) = choose|a1: int, a2: int| pin_at(sq, k, dn, color, a1, a2);
                assert(s2 == ray_square(k, dn, a1) as i16);
                assert(dd == dn as i16);
                if s2 == s as i16 {
                    lemma_empty_prefix_inner(b, k, dn, a1);
                    lemma_ray_coords(k, dn, a1);
                    assert(is_inner(ray_square(k, dn, a1))) by {
                        assert(sq[ray_square(k, dn, a1)].is_piece());
                        assert(b.at(ray_square(k, dn, a1)) != Piece::SentinelSquare);
                    }
                    lemma_pin_direction_unique(b, k, dn, w, color, a1, a2, k1, k2);
                }
            },
            None => {
                if dn == w {
                    assert(pin_at(sq, k, dn, color, k1, k2));
                }
            },
        }
    }
}

broadcast use vstd::seq_lib::group_filter_ensures;

/// An attacked square has an attacker among those listed.
pub proof fn lemma_attacked_has_attacker(sq: Seq<Piece>, pl: PieceList, to: int, color: Color)
    requires
        square_attacked(sq, pl, to, color),
    ensures
        attackers(sq, pl, to, color).len() > 0,
{
    let (p, i) = choose|p: Piece, i: int|
        #![trigger pl.list(p)[i]]
        p.is_piece() && p.color() == color && 0 <= i < pl.list(p).len() && piece_attacks(
            sq,
            p.kind(),
            pl.list(p)[i] as int,
            to,
            color,
        );
    let order = attacker_order(color);
    let j: int = if p == order[0] {
        0
    } else if p == order[1] {
        1
    } else if p == order[2] {
        2
    } else if p == order[3] {
        3
    } else if p == order[4] {
        4
    } else {
        5
    };
    assert(order[j] == p);
    lemma_attackers_upto_complete(sq, pl, to, color, 6);
    assert(pl.list(order[j])[i] == pl.list(p)[i]);
    assert(attackers_upto(sq, pl, to, color, 6).contains((order[j], pl.list(order[j])[i])));
}

/// A slide along a ray that stops: a move to a square `j` steps away, with
/// the squares before it empty and that square empty or holding an enemy.
pub proof fn lemma_slide_shape(b: ChessBoard, s: int, d: int, piece: Piece, color: Color, m: Move, n: int)
    requires
        slide_moves(b, s, d, piece, color).contains(m),
        stops_at(b.board_squares@, s, d, n),
    ensures
        exists|j: int|
            #![trigger ray_square(s, d, j)]
            1 <= j <= n && m == plain_move(b, s, ray_square(s, d, j), piece) && (forall|i: int|
                1 <= i < j ==> #[trigger] b.board_squares@[ray_square(s, d, i)] == Piece::EmptySquare) && (
            b.board_squares@[ray_square(s, d, j)] == Piece::EmptySquare || is_enemy(b.board_squares@[ray_square(s, d, j)], color)),
{
    lemma_ray_stop(b.board_squares@, s, d, n);
    let sq = b.board_squares@;
    let ms = slide_moves(b, s, d, piece, color);
    let idx = choose|idx: int| 0 <= idx < ms.len() && ms[idx] == m;
    if idx < n - 1 {
        let j = idx + 1;
        assert(m == plain_move(b, s, ray_square(s, d, j), piece));
        assert(sq[ray_square(s, d, j)] == Piece::EmptySquare);
    } else {
        assert(m == plain_move(b, s, ray_square(s, d, n), piece));
    }
}

/// A move along several rays is a slide along one of them.
pub proof fn lemma_rays_shape(b: ChessBoard, s: int, rays: Seq<i16>, piece: Piece, color: Color, m: Move)
    requires
        moves_over_rays(b, s, rays, piece, color).contains(m),
    ensures
        exists|r: int| 0 <= r < rays.len() && #[trigger] slide_moves(b, s, rays[r] as int, piece, color).contains(m),
    decreases rays.len(),
{
    let prev = moves_over_rays(b, s, rays.drop_last(), piece, color);
    let last = slide_moves(b, s, rays.last() as int, piece, color);
    let all = prev + last;
    let i = choose|i: int| 0 <= i < all.len() && all[i] == m;
    if i < prev.len() {
        assert(prev[i] == m);
        lemma_rays_shape(b, s, rays.drop_last(), piece, color, m);
        let r = choose|r: int| 0 <= r < rays.drop_last().len() && #[trigger] slide_moves(b, s, rays.drop_last()[r] as int, piece, color).contains(m);
        assert(rays[r] == rays.drop_last()[r]);
    } else {
        assert(last[i - prev.len()] == m);
        assert(rays[rays.len() - 1] == rays.last());
        assert(slide_moves(b, s, rays[rays.len() - 1] as int, piece, color).contains(m));
    }
}

/// A slider move is a slide of a listed slider along one of its allowed
/// rays.
pub proof fn lemma_sliders_shape(b: ChessBoard, squares: Seq<i16>, pins: Map<i16, i16>, rays: Seq<i16>, piece: Piece, color: Color, m: Move)
    requires
        slider_moves(b, squares, pins, rays, piece, color).contains(m),
    ensures
        exists|idx: int, r: int|
            0 <= idx < squares.len() && 0 <= r < allowed_rays(rays, pins, squares[idx]).len() && #[trigger] slide_moves(
                b,
                squares[idx] as int,
                allowed_rays(rays, pins, squares[idx])[r] as int,
                piece,
                color,
            ).contains(m),
    decreases squares.len(),
{
    let s = squares.last();
    let prev = slider_moves(b, squares.drop_last(), pins, rays, piece, color);
    let last = moves_over_rays(b, s as int, allowed_rays(rays, pins, s), piece, color);
    let all = prev + last;
    let i = choose|i: int| 0 <= i < all.len() && all[i] == m;
    if i < prev.len() {
        assert(prev[i] == m);
        lemma_sliders_shape(b, squares.drop_last(), pins, rays, piece, color, m);
        let (idx, r) = choose|idx: int, r: int|
            0 <= idx < squares.drop_last().len() && 0 <= r < allowed_rays(rays, pins, squares.drop_last()[idx]).len()
                && #[trigger] slide_moves(
                b,
                squares.drop_last()[idx] as int,
                allowed_rays(rays, pins, squares.drop_last()[idx])[r] as int,
                piece,
                color,
            ).contains(m);
        assert(squares[idx] == squares.drop_last()[idx]);
    } else {
        assert(last[i - prev.len()] == m);
        lemma_rays_shape(b, s as int, allowed_rays(rays, pins, s), piece, color, m);
        assert(squares[squares.len() - 1] == s);
    }
}

/// A knight move is a step of a listed knight that is not pinned.
pub proof fn lemma_knights_shape(b: ChessBoard, squares: Seq<i16>, pins: Map<i16, i16>, piece: Piece, color: Color, m: Move)
    requires
        knight_moves(b, squares, pins, piece, color).contains(m),
    ensures
        exists|idx: int|
            0 <= idx < squares.len() && !pins.contains_key(squares[idx]) && #[trigger] step_moves(
                b,
                squares[idx] as int,
                knight_offsets(),
                piece,
                color,
            ).contains(m),
    decreases squares.len(),
{
    let s = squares.last();
    let prev = knight_moves(b, squares.drop_last(), pins, piece, color);
    if pins.contains_key(s) {
        lemma_knights_shape(b, squares.drop_last(), pins, piece, color, m);
        let idx = choose|idx: int|
            0 <= idx < squares.drop_last().len() && !pins.contains_key(squares.drop_last()[idx]) && #[trigger] step_moves(
                b,
                squares.drop_last()[idx] as int,
                knight_offsets(),
                piece,
                color,
            ).contains(m);
        assert(squares[idx] == squares.drop_last()[idx]);
    } else {
        let last = step_moves(b, s as int, knight_offsets(), piece, color);
        let all = prev + last;
        let i = choose|i: int| 0 <= i < all.len() && all[i] == m;
        if i < prev.len() {
            assert(prev[i] == m);
            lemma_knights_shape(b, squares.drop_last(), pins, piece, color, m);
            let idx = choose|idx: int|
                0 <= idx < squares.drop_last().len() && !pins.contains_key(squares.drop_last()[idx]) && #[trigger] step_moves(
                    b,
                    squares.drop_last()[idx] as int,
                    knight_offsets(),
                    piece,
                    color,
                ).contains(m);
            assert(squares[idx] == squares.drop_last()[idx]);
        } else {
            assert(last[i - prev.len()] == m);
            assert(last.contains(m));
            assert(squares[squares.len() - 1] == s);
            assert(!pins.contains_key(squares[squares.len() - 1]));
            assert(step_moves(b, squares[squares.len() - 1] as int, knight_offsets(), piece, color).contains(m));
        }
    }
}

/// The steps of a piece start from its square.
pub proof fn lemma_steps_from(b: ChessBoard, s: int, offsets: Seq<int>, piece: Piece, color: Color, m: Move)
    requires
        step_moves(b, s, offsets, piece, color).contains(m),
    ensures
        m.from == s as i16,
        m.castling is None,
        m.promotion is None,
        !m.en_passant,
        m.piece == piece,
        exists|k: int|
            0 <= k < offsets.len() && m.to == (s + offsets[k]) as i16 && m == plain_move(b, s, s + offsets[k], piece) && (b.at(
                s + offsets[k],
            ) == Piece::EmptySquare || is_enemy(b.at(s + offsets[k]), color)),
    decreases offsets.len(),
{
    let prev = step_moves(b, s, offsets.drop_last(), piece, color);
    let t = s + offsets.last();
    if prev.contains(m) {
        lemma_steps_from(b, s, offsets.drop_last(), piece, color, m);
        let k = choose|k: int|
            0 <= k < offsets.drop_last().len() && m.to == (s + offsets.drop_last()[k]) as i16 && m == plain_move(
                b,
                s,
                s + offsets.drop_last()[k],
                piece,
            ) && (b.at(s + offsets.drop_last()[k]) == Piece::EmptySquare || is_enemy(b.at(s + offsets.drop_last()[k]), color));
        assert(offsets[k] == offsets.drop_last()[k]);
    } else {
        let all = step_moves(b, s, offsets, piece, color);
        let i = choose|i: int| 0 <= i < all.len() && all[i] == m;
        assert(m == plain_move(b, s, t, piece));
        assert(offsets[offsets.len() - 1] == offsets.last());
    }
}

/// Walking on along a ray: `j` steps from the square `i` steps along it.
pub proof fn lemma_ray_add(a: int, d: int, i: int, j: int)
    ensures
        ray_square(ray_square(a, d, i), d, j) == ray_square(a, d, i + j),
{
    assert(a + i * d + j * d == a + (i + j) * d) by (nonlinear_arith);
}

/// Walking back along a ray: `j` steps back from the square `n` steps
/// along it.
pub proof fn lemma_ray_back(a: int, d: int, n: int, j: int)
    ensures
        ray_square(ray_square(a, d, n), -d, j) == ray_square(a, d, n - j),
{
    assert(a + n * d + j * (-d) == a + (n - j) * d) by (nonlinear_arith);
}

/// Different distances along a ray give different squares.
pub proof fn lemma_ray_injective(a: int, d: int, i: int, j: int)
    requires
        d != 0,
        i != j,
    ensures
        ray_square(a, d, i) != ray_square(a, d, j),
{
    assert(a + i * d != a + j * d) by (nonlinear_arith)
        requires
            d != 0,
            i != j,
    ;
}

/// An attack by a slider on `k` on the board after a move that is no
/// attack on the board before it, where the move emptied `s` and filled
/// `t` only: the attack runs along a ray from `x` in direction `d`, `n`
/// steps long, through `s` at step `i0`, with every other square between
/// empty on both boards.
#[verifier::rlimit(30)]
pub proof fn lemma_discovered(sq0: Seq<Piece>, sq1: Seq<Piece>, kind: PieceType, x: int, k: int, s: int, t: int, color: Color) -> (r: (int, int, int))
    requires
        sq0.len() == 120,
        sq1.len() == 120,
        is_inner(x),
        is_inner(k),
        0 <= s < 120,
        0 <= t < 120,
        forall|q: int| 0 <= q < 120 && q != s && q != t ==> sq1[q] == sq0[q],
        sq1[s] == Piece::EmptySquare,
        sq1[t] != Piece::EmptySquare,
        piece_attacks(sq1, kind, x, k, color),
        !piece_attacks(sq0, kind, x, k, color),
    ensures
        is_dir(r.0),
        x + r.1 * r.0 == k,
        1 <= r.2 < r.1,
        ray_square(x, r.0, r.2) == s,
        forall|i: int| 1 <= i < r.1 ==> #[trigger] sq1[ray_square(x, r.0, i)] == Piece::EmptySquare,
        forall|i: int| 1 <= i < r.1 ==> 0 <= #[trigger] ray_square(x, r.0, i) < 120 && ray_square(x, r.0, i) != k,
        kind == PieceType::Bishop ==> r.0 == 11 || r.0 == -11 || r.0 == 9 || r.0 == -9,
        kind == PieceType::Rook ==> r.0 == 1 || r.0 == -1 || r.0 == 10 || r.0 == -10,
        kind == PieceType::Queen || kind == PieceType::Rook || kind == PieceType::Bishop,
{
    let bd = diagonal_direction(x, k);
    let bn = abs_diff(x / 10, k / 10);
    let rd = rank_or_file_direction(x, k);
    let rn = line_steps(x, k);
    lemma_direction_values(x, k, kind);
    let use_diagonal = (kind == PieceType::Bishop || kind == PieceType::Queen) && bishop_attacks(sq1, x, k);
    let (d, n) = if use_diagonal {
        (bd, bn)
    } else {
        (rd, rn)
    };
    if use_diagonal {
        lemma_diagonal_reaches(x, k);
        assert(!bishop_attacks(sq0, x, k));
    } else {
        assert(kind == PieceType::Rook || kind == PieceType::Queen);
        assert(rook_attacks(sq1, x, k));
        lemma_line_reaches(x, k);
        assert(!rook_attacks(sq0, x, k));
    }
    assert(ray_clear(sq1, x, d, n));
    assert(!ray_clear(sq0, x, d, n));
    let i0 = choose|i: int| 1 <= i < n && sq0[ray_square(x, d, i)] != Piece::EmptySquare;
    assert forall|i: int| 1 <= i < n implies 0 <= #[trigger] ray_square(x, d, i) < 120 && ray_square(x, d, i) != k by {
        lemma_ray_between(x, k, d, n, i);
    }
    let q = ray_square(x, d, i0);
    assert(sq1[q] == Piece::EmptySquare);
    assert(q != t);
    assert(q == s);
    (d, n, i0)
}

/// A friendly piece on `s` that stands between the king on `k` and an
/// enemy slider on `x`, with only empty squares around it on that line, is
/// pinned: the pins map it to the direction from the king to the slider.
#[verifier::rlimit(30)]
pub proof fn lemma_pinned_by_discovery(b: ChessBoard, color: Color, k: int, x: int, d: int, n: int, i0: int)
    requires
        b.wf(),
        king_square(b.piece_list, color) == Some(k as i16),
        is_inner(k),
        is_inner(x),
        is_dir(d),
        x + n * d == k,
        1 <= i0 < n,
        forall|i: int| 1 <= i < n && i != i0 ==> #[trigger] b.board_squares@[ray_square(x, d, i)] == Piece::EmptySquare,
        b.board_squares@[ray_square(x, d, i0)].is_piece(),
        b.board_squares@[ray_square(x, d, i0)].color() == color,
        b.board_squares@[x].is_piece(),
        b.board_squares@[x].color() != color,
        can_pin(b.board_squares@[x], -d),
        is_inner(ray_square(x, d, i0)),
    ensures
        pins(b.board_squares@, b.piece_list, color).contains_key(ray_square(x, d, i0) as i16),
        pins(b.board_squares@, b.piece_list, color)[ray_square(x, d, i0) as i16] == -d,
{
    let sq = b.board_squares@;
    let w = -d;
    let k1 = n - i0;
    assert(ray_square(x, d, n) == k);
    assert forall|j: int| 1 <= j < n && j != k1 implies #[trigger] sq[ray_square(k, w, j)] == Piece::EmptySquare by {
        lemma_ray_back(x, d, n, j);
        assert(ray_square(k, w, j) == ray_square(x, d, n - j));
    }
    lemma_ray_back(x, d, n, k1);
    lemma_ray_back(x, d, n, n);
    assert(ray_square(x, d, 0) == x);
    assert(pin_at(sq, k, w, color, k1, n));
    assert(is_dir(w));
    let j: int = if w == -1 {
        0
    } else if w == 1 {
        1
    } else if w == -10 {
        2
    } else if w == 10 {
        3
    } else if w == -11 {
        4
    } else if w == -9 {
        5
    } else if w == 9 {
        6
    } else {
        7
    };
    assert(pin_directions()[j] == w);
    lemma_pins_upto_maps(b, k, color, 8, w, k1, n);
}

/// A piece pinned between its king and an enemy slider that slides along
/// the pin line ends strictly between them (its target is then one of the
/// squares the slider's ray to the king passes, so the ray is clear only
/// if the target is empty) or lands on one of the two ends, which the
/// requirements rule out.
proof fn lemma_pinned_slide_blocks(
    sq0: Seq<Piece>,
    sq1: Seq<Piece>,
    x: int,
    d: int,
    n: int,
    i0: int,
    s: int,
    dir: int,
    jm: int,
    t: int,
    k: int,
)
    requires
        d != 0,
        x + n * d == k,
        1 <= i0 < n,
        s == ray_square(x, d, i0),
        dir == d || dir == -d,
        jm >= 1,
        t == ray_square(s, dir, jm),
        forall|i: int| 1 <= i < jm ==> #[trigger] sq0[ray_square(s, dir, i)] == Piece::EmptySquare,
        t != k,
        t != x,
        sq0[x] != Piece::EmptySquare,
        sq0[k] != Piece::EmptySquare,
        forall|i: int| 1 <= i < n ==> #[trigger] sq1[ray_square(x, d, i)] == Piece::EmptySquare,
    ensures
        sq1[t] == Piece::EmptySquare,
{
    assert(ray_square(x, d, 0) == x);
    assert(ray_square(x, d, n) == k);
    if dir == -d {
        if jm > i0 {
            lemma_ray_back(x, d, i0, i0);
            assert(sq0[ray_square(s, dir, i0)] == Piece::EmptySquare);
        } else if jm == i0 {
            lemma_ray_back(x, d, i0, jm);
        } else {
            lemma_ray_back(x, d, i0, jm);
            assert(sq1[ray_square(x, d, i0 - jm)] == Piece::EmptySquare);
        }
    } else {
        if jm > n - i0 {
            lemma_ray_add(x, d, i0, n - i0);
            assert(sq0[ray_square(s, dir, n - i0)] == Piece::EmptySquare);
        } else if jm == n - i0 {
            lemma_ray_add(x, d, i0, jm);
        } else {
            lemma_ray_add(x, d, i0, jm);
            assert(sq1[ray_square(x, d, i0 + jm)] == Piece::EmptySquare);
        }
    }
}

/// The rays along which a bishop, rook or queen of `color` slides.
pub open spec fn rays_of(piece: Piece, color: Color) -> Seq<i16> {
    if piece == queen_of(color) {
        queen_rays()
    } else if piece == rook_of(color) {
        rook_rays()
    } else {
        bishop_rays()
    }
}

/// A move of the pieces other than the king moves a queen, rook, bishop,
/// knight or pawn of `color`, and comes from the move list of its kind.
#[verifier::rlimit(30)]
pub proof fn lemma_piece_moves_listed(b: ChessBoard, color: Color, m: Move)
    requires
        piece_moves(b, b.piece_list, color).contains(m),
    ensures
        m.piece == queen_of(color) || m.piece == rook_of(color) || m.piece == bishop_of(color) || m.piece == knight_of(color)
            || m.piece == pawn_of(color),
        m.piece == knight_of(color) ==> knight_moves(
            b,
            b.piece_list.list(m.piece),
            pins(b.board_squares@, b.piece_list, color),
            m.piece,
            color,
        ).contains(m),
        m.piece == pawn_of(color) ==> pawn_moves(
            b,
            b.piece_list,
            b.piece_list.list(m.piece),
            pins(b.board_squares@, b.piece_list, color),
            m.piece,
            color,
        ).contains(m),
        m.piece == queen_of(color) || m.piece == rook_of(color) || m.piece == bishop_of(color) ==> slider_moves(
            b,
            b.piece_list.list(m.piece),
            pins(b.board_squares@, b.piece_list, color),
            rays_of(m.piece, color),
            m.piece,
            color,
        ).contains(m),
{
    let pl = b.piece_list;
    let sq0 = b.board_squares@;
    let pins = pins(sq0, pl, color);
    let sq = slider_moves(b, pl.list(queen_of(color)), pins, queen_rays(), queen_of(color), color);
    let sr = slider_moves(b, pl.list(rook_of(color)), pins, rook_rays(), rook_of(color), color);
    let sb = slider_moves(b, pl.list(bishop_of(color)), pins, bishop_rays(), bishop_of(color), color);
    let kn = knight_moves(b, pl.list(knight_of(color)), pins, knight_of(color), color);
    let pw = pawn_moves(b, pl, pl.list(pawn_of(color)), pins, pawn_of(color), color);
    assert(piece_moves(b, pl, color) == sq + sr + sb + kn + pw);
    lemma_sliders_move(b, pl.list(queen_of(color)), pins, queen_rays(), queen_of(color), color);
    lemma_sliders_move(b, pl.list(rook_of(color)), pins, rook_rays(), rook_of(color), color);
    lemma_sliders_move(b, pl.list(bishop_of(color)), pins, bishop_rays(), bishop_of(color), color);
    lemma_knights_move(b, pl.list(knight_of(color)), pins, knight_of(color), color);
    lemma_pawns_move(b, pl, pl.list(pawn_of(color)), pins, pawn_of(color), color);
    lemma_in_concat(sq + sr + sb + kn, pw, m);
    if !pw.contains(m) {
        lemma_in_concat(sq + sr + sb, kn, m);
        if !kn.contains(m) {
            lemma_in_concat(sq + sr, sb, m);
            if !sb.contains(m) {
                lemma_in_concat(sq, sr, m);
            }
        }
    }
    if m.piece != pawn_of(color) {
        lemma_not_in(pw, pawn_of(color), m);
    }
    if m.piece != knight_of(color) {
        lemma_not_in(kn, knight_of(color), m);
    }
    if m.piece != bishop_of(color) {
        lemma_not_in(sb, bishop_of(color), m);
    }
    if m.piece != rook_of(color) {
        lemma_not_in(sr, rook_of(color), m);
    }
    if m.piece != queen_of(color) {
        lemma_not_in(sq, queen_of(color), m);
    }
}

/// A move other than a king move generated when not in check is one of the
/// moves of the pieces other than the king.
#[verifier::rlimit(30)]
pub proof fn lemma_quiet_non_king(b: ChessBoard, color: Color, m: Move)
    requires
        checking_pieces(b.board_squares@, b.piece_list, color).len() == 0,
        legal_moves(b, b.piece_list, color).contains(m),
        m.piece != king_of(color),
    ensures
        piece_moves(b, b.piece_list, color).contains(m),
{
    let pl = b.piece_list;
    let king = king_of(color);
    let km = king_moves(b, pl, pl.list(king), king, color);
    let cm = castling_moves(b, color);
    let pm = piece_moves(b, pl, color);
    assert(pseudo_legal_moves(b, pl, color) =~= (km + cm) + pm);
    lemma_in_concat(km + cm, pm, m);
    if !pm.contains(m) {
        lemma_kings_move(b, pl, pl.list(king), king, color);
        lemma_not_in(km, king, m);
        lemma_in_concat(km, cm, m);
        let i = choose|i: int| 0 <= i < cm.len() && cm[i] == m;
        assert(cm[i].piece == king);
    }
}

/// A move other than a king move generated against a single check is one
/// of the moves of the pieces other than the king, onto the checking
/// piece's square or a square between it and the king.
#[verifier::rlimit(30)]
pub proof fn lemma_evasion_non_king(b: ChessBoard, color: Color, m: Move)
    requires
        checking_pieces(b.board_squares@, b.piece_list, color).len() == 1,
        legal_moves(b, b.piece_list, color).contains(m),
        m.piece != king_of(color),
    ensures
        king_square(b.piece_list, color) is Some,
        piece_moves(b, b.piece_list, color).contains(m),
        blocking_line(checking_pieces(b.board_squares@, b.piece_list, color)[0], king_square(b.piece_list, color)->0).contains(m.to),
{
    let pl = b.piece_list;
    let king = king_of(color);
    let checks = checking_pieces(b.board_squares@, pl, color);
    let k = king_square(pl, color)->0;
    let blocking = blocking_line(checks[0], k);
    let km = king_moves(b, pl, pl.list(king), king, color);
    let pm = piece_moves(b, pl, color);
    let pred = |mv: Move| blocking.contains(mv.to);
    let filtered = pm.filter(pred);
    assert(evasion_moves(b, pl, checks[0], color) == filtered + km);
    lemma_kings_move(b, pl, pl.list(king), king, color);
    lemma_not_in(km, king, m);
    lemma_in_concat(filtered, km, m);
    pm.lemma_filter_contains_rev(pred, m);
}

/// A generated knight move goes from a listed, unpinned knight to a square
/// empty or holding an enemy.
#[verifier::rlimit(30)]
proof fn lemma_knight_move_shape(b: ChessBoard, color: Color, m: Move) -> (r: (int, int))
    requires
        b.wf(),
        m.piece == knight_of(color),
        knight_moves(b, b.piece_list.list(m.piece), pins(b.board_squares@, b.piece_list, color), m.piece, color).contains(m),
    ensures
        r.0 == m.from as int,
        r.1 == m.to as int,
        is_inner(r.0),
        0 <= r.1 < 120,
        r.0 != r.1,
        b.board_squares@[r.0] == m.piece,
        b.board_squares@[r.1] == Piece::EmptySquare || is_enemy(b.board_squares@[r.1], color),
        m == plain_move(b, r.0, r.1, m.piece),
        !pins(b.board_squares@, b.piece_list, color).contains_key(r.0 as i16),
{
    let pl = b.piece_list;
    let sq0 = b.board_squares@;
    let pins = pins(sq0, pl, color);
    lemma_knights_shape(b, pl.list(knight_of(color)), pins, knight_of(color), color, m);
    let idx = choose|idx: int|
        0 <= idx < pl.list(knight_of(color)).len() && !pins.contains_key(pl.list(knight_of(color))[idx]) && #[trigger] step_moves(
            b,
            pl.list(knight_of(color))[idx] as int,
            knight_offsets(),
            knight_of(color),
            color,
        ).contains(m);
    let s0 = pl.list(knight_of(color))[idx] as int;
    lemma_steps_from(b, s0, knight_offsets(), knight_of(color), color, m);
    let k = choose|k: int|
        0 <= k < knight_offsets().len() && m.to == (s0 + knight_offsets()[k]) as i16 && m == plain_move(
            b,
            s0,
            s0 + knight_offsets()[k],
            knight_of(color),
        ) && (b.at(s0 + knight_offsets()[k]) == Piece::EmptySquare || is_enemy(b.at(s0 + knight_offsets()[k]), color));
    assert(sorted_inner(pl.list(knight_of(color))));
    assert(is_inner(s0));
    let t0 = s0 + knight_offsets()[k];
    assert(b.at(t0) != Piece::SentinelSquare);
    assert(0 <= t0 < 120);
    assert(sq0[s0] == knight_of(color));
    (s0, t0)
}

/// A generated bishop, rook or queen move comes from a listed square of the
/// piece and slides along one of its directions, along the pin line when
/// the piece is pinned.
#[verifier::rlimit(30)]
proof fn lemma_slider_source(b: ChessBoard, color: Color, m: Move) -> (r: (int, int))
    requires
        b.wf(),
        m.piece == queen_of(color) || m.piece == rook_of(color) || m.piece == bishop_of(color),
        slider_moves(
            b,
            b.piece_list.list(m.piece),
            pins(b.board_squares@, b.piece_list, color),
            rays_of(m.piece, color),
            m.piece,
            color,
        ).contains(m),
    ensures
        is_inner(r.0),
        is_dir(r.1),
        b.board_squares@[r.0] == m.piece,
        pins(b.board_squares@, b.piece_list, color).contains_key(r.0 as i16) ==> along(
            r.1 as i16,
            pins(b.board_squares@, b.piece_list, color)[r.0 as i16],
        ),
        slide_moves(b, r.0, r.1, m.piece, color).contains(m),
{
    let pl = b.piece_list;
    let sq0 = b.board_squares@;
    let pins = pins(sq0, pl, color);
    let piece = m.piece;
    let rays = rays_of(piece, color);
    lemma_sliders_shape(b, pl.list(piece), pins, rays, piece, color, m);
    let (idx, r) = choose|idx: int, r: int|
        0 <= idx < pl.list(piece).len() && 0 <= r < allowed_rays(rays, pins, pl.list(piece)[idx]).len() && #[trigger] slide_moves(
            b,
            pl.list(piece)[idx] as int,
            allowed_rays(rays, pins, pl.list(piece)[idx])[r] as int,
            piece,
            color,
        ).contains(m);
    let s16 = pl.list(piece)[idx];
    let s0 = s16 as int;
    let allowed = allowed_rays(rays, pins, s16);
    let dir16 = allowed[r];
    let dir = dir16 as int;
    assert(rays.contains(dir16)) by {
        if pins.contains_key(s16) {
            rays.lemma_filter_contains_rev(|dd: i16| along(dd, pins[s16]), dir16);
        }
    }
    assert(is_dir(dir));
    assert(pins.contains_key(s16) ==> along(dir16, pins[s16])) by {
        if pins.contains_key(s16) {
            rays.lemma_filter_pred(|dd: i16| along(dd, pins[s16]), r);
        }
    }
    assert(sorted_inner(pl.list(piece)));
    assert(is_inner(s0));
    assert(sq0[s0] == piece);
    (s0, dir)
}

/// The squares a slide passes before its stop, and the stop, lie on the
/// board's array.
pub proof fn lemma_stop_prefix_on_board(b: ChessBoard, s: int, d: int, n: int, j: int)
    requires
        b.frame_ok(),
        b.board_squares@.len() == 120,
        is_dir(d),
        is_inner(s),
        stops_at(b.board_squares@, s, d, n),
        0 <= ray_square(s, d, n) < 120,
        1 <= j <= n,
    ensures
        0 <= ray_square(s, d, j) < 120,
{
    if j < n {
        lemma_empty_prefix_inner(b, s, d, n);
        assert(is_inner(ray_square(s, d, j)));
    }
}

/// A move that slides from `s` along `d` ends on a board square other than
/// `s`, after steps over empty squares, on a square empty or holding an
/// enemy.
#[verifier::rlimit(30)]
pub proof fn lemma_slide_target(b: ChessBoard, s: int, d: int, piece: Piece, color: Color, m: Move) -> (t: int)
    requires
        b.frame_ok(),
        b.board_squares@.len() == 120,
        is_dir(d),
        is_inner(s),
        slide_moves(b, s, d, piece, color).contains(m),
    ensures
        0 <= t < 120,
        t != s,
        m == plain_move(b, s, t, piece),
        b.board_squares@[t] == Piece::EmptySquare || is_enemy(b.board_squares@[t], color),
        exists|jm: int|
            #![trigger ray_square(s, d, jm)]
            jm >= 1 && t == ray_square(s, d, jm) && (forall|i: int|
                1 <= i < jm ==> #[trigger] b.board_squares@[ray_square(s, d, i)] == Piece::EmptySquare),
{
    let sq0 = b.board_squares@;
    lemma_ray_stops(b, s, d);
    let n = choose|n: int| 1 <= n <= 8 && #[trigger] stops_at(sq0, s, d, n) && 0 <= ray_square(s, d, n) < 120;
    lemma_slide_shape(b, s, d, piece, color, m, n);
    let jm = choose|j: int|
        #![trigger ray_square(s, d, j)]
        1 <= j <= n && m == plain_move(b, s, ray_square(s, d, j), piece) && (forall|i: int|
            1 <= i < j ==> #[trigger] sq0[ray_square(s, d, i)] == Piece::EmptySquare) && (sq0[ray_square(s, d, j)]
            == Piece::EmptySquare || is_enemy(sq0[ray_square(s, d, j)], color));
    let t0 = ray_square(s, d, jm);
    lemma_stop_prefix_on_board(b, s, d, n, jm);
    lemma_ray_injective(s, d, 0, jm);
    assert(ray_square(s, d, 0) == s);
    t0
}

/// A generated bishop, rook or queen move slides some steps along one
/// direction, along its pin line when it is pinned, over empty squares.
#[verifier::rlimit(30)]
proof fn lemma_slider_move_shape(b: ChessBoard, color: Color, m: Move) -> (r: (int, int))
    requires
        b.wf(),
        m.piece == queen_of(color) || m.piece == rook_of(color) || m.piece == bishop_of(color),
        slider_moves(
            b,
            b.piece_list.list(m.piece),
            pins(b.board_squares@, b.piece_list, color),
            rays_of(m.piece, color),
            m.piece,
            color,
        ).contains(m),
    ensures
        r.0 == m.from as int,
        r.1 == m.to as int,
        is_inner(r.0),
        0 <= r.1 < 120,
        r.0 != r.1,
        b.board_squares@[r.0] == m.piece,
        b.board_squares@[r.1] == Piece::EmptySquare || is_enemy(b.board_squares@[r.1], color),
        m == plain_move(b, r.0, r.1, m.piece),
        exists|dir: int, jm: int|
            #![trigger ray_square(r.0, dir, jm)]
            is_dir(dir) && jm >= 1 && r.1 == ray_square(r.0, dir, jm) && (pins(b.board_squares@, b.piece_list, color).contains_key(
                r.0 as i16,
            ) ==> along(dir as i16, pins(b.board_squares@, b.piece_list, color)[r.0 as i16])) && (forall|i: int|
                1 <= i < jm ==> #[trigger] b.board_squares@[ray_square(r.0, dir, i)] == Piece::EmptySquare),
{
    let (s0, dir) = lemma_slider_source(b, color, m);
    let t0 = lemma_slide_target(b, s0, dir, m.piece, color, m);
    let jm = choose|jm: int|
        #![trigger ray_square(s0, dir, jm)]
        jm >= 1 && t0 == ray_square(s0, dir, jm) && (forall|i: int|
            1 <= i < jm ==> #[trigger] b.board_squares@[ray_square(s0, dir, i)] == Piece::EmptySquare);
    assert(ray_square(s0, dir, jm) == t0);
    (s0, t0)
}

/// The shape of a generated knight, bishop, rook or queen move: from a listed square of the piece to a square empty or holding
/// an enemy; a knight is not pinned; a slider moves some steps along one
/// direction, along its pin line when it is pinned, over empty squares.
#[verifier::rlimit(30)]
pub proof fn lemma_piece_move_shape(b: ChessBoard, color: Color, m: Move) -> (r: (int, int))
    requires
        b.wf(),
        piece_moves(b, b.piece_list, color).contains(m),
        m.piece == queen_of(color) || m.piece == rook_of(color) || m.piece == bishop_of(color) || m.piece == knight_of(color),
    ensures
        r.0 == m.from as int,
        r.1 == m.to as int,
        is_inner(r.0),
        0 <= r.1 < 120,
        r.0 != r.1,
        b.board_squares@[r.0] == m.piece,
        b.board_squares@[r.1] == Piece::EmptySquare || is_enemy(b.board_squares@[r.1], color),
        m == plain_move(b, r.0, r.1, m.piece),
        m.piece == knight_of(color) ==> !pins(b.board_squares@, b.piece_list, color).contains_key(r.0 as i16),
        m.piece != knight_of(color) ==> exists|dir: int, jm: int|
            #![trigger ray_square(r.0, dir, jm)]
            is_dir(dir) && jm >= 1 && r.1 == ray_square(r.0, dir, jm) && (pins(b.board_squares@, b.piece_list, color).contains_key(
                r.0 as i16,
            ) ==> along(dir as i16, pins(b.board_squares@, b.piece_list, color)[r.0 as i16])) && (forall|i: int|
                1 <= i < jm ==> #[trigger] b.board_squares@[ray_square(r.0, dir, i)] == Piece::EmptySquare),
{
    lemma_piece_moves_listed(b, color, m);
    if m.piece == knight_of(color) {
        lemma_knight_move_shape(b, color, m)
    } else {
        lemma_slider_move_shape(b, color, m)
    }
}

/// An enemy attack on a square after a move of a piece of `color` from `s`
/// to `t` comes from an enemy piece that stood on its square before the
/// move; were the attack there before the move too, the square was
/// attacked then.
#[verifier::rlimit(30)]
pub proof fn lemma_attacker_before(
    sq0: Seq<Piece>,
    pl0: PieceList,
    sq1: Seq<Piece>,
    pl1: PieceList,
    s: int,
    t: int,
    piece: Piece,
    k: int,
    color: Color,
) -> (r: (Piece, int))
    requires
        sq0.len() == 120,
        lists_match_squares(sq0, pl0),
        lists_match_squares(sq1, pl1),
        pl1.wf(),
        0 <= s < 120,
        0 <= t < 120,
        s != t,
        piece.is_piece(),
        piece.color() == color,
        sq1 == sq0.update(t, piece).update(s, Piece::EmptySquare),
        square_attacked(sq1, pl1, k, color.spec_opposite()),
    ensures
        r.0.is_piece(),
        r.0.color() == color.spec_opposite(),
        is_inner(r.1),
        r.1 != s,
        r.1 != t,
        sq0[r.1] == r.0,
        piece_attacks(sq1, r.0.kind(), r.1, k, color.spec_opposite()),
        pl0.list(r.0).contains(r.1 as i16),
        piece_attacks(sq0, r.0.kind(), r.1, k, color.spec_opposite()) ==> square_attacked(
            sq0,
            pl0,
            k,
            color.spec_opposite(),
        ),
{
    let opp = color.spec_opposite();
    let (p, i) = choose|p: Piece, i: int|
        #![trigger pl1.list(p)[i]]
        p.is_piece() && p.color() == opp && 0 <= i < pl1.list(p).len() && piece_attacks(
            sq1,
            p.kind(),
            pl1.list(p)[i] as int,
            k,
            opp,
        );
    let x = pl1.list(p)[i] as int;
    assert(sorted_inner(pl1.list(p)));
    assert(is_inner(x));
    assert(sq1[x] == p);
    assert(x != t && x != s);
    assert(sq0[x] == p);
    assert(pl0.list(p).contains(x as i16));
    let j = choose|j: int| 0 <= j < pl0.list(p).len() && pl0.list(p)[j] == x as i16;
    assert(pl0.list(p)[j] as int == x);
    (p, x)
}

/// The move from `s` to `t` keeps to the pin line of the piece on `s`
/// when it is pinned: it goes some steps along that line, over empty
/// squares.
pub open spec fn keeps_to_pin(sq: Seq<Piece>, pins: Map<i16, i16>, s: int, t: int) -> bool {
    pins.contains_key(s as i16) ==> exists|dir: int, jm: int|
        #![trigger ray_square(s, dir, jm)]
        (dir == pins[s as i16] as int || dir == -(pins[s as i16] as int)) && jm >= 1 && t == ray_square(s, dir, jm) && (
        forall|i: int| 1 <= i < jm ==> #[trigger] sq[ray_square(s, dir, i)] == Piece::EmptySquare)
}

/// After a move generated when not in check that takes a piece of `color`
/// from `s` to `t`, keeping to its pin line, an enemy piece that attacks
/// the king attacked it before the move: the move opened no line to the
/// king, as a piece on such a line is pinned.
#[verifier::rlimit(40)]
pub proof fn lemma_attack_not_discovered(
    b: ChessBoard,
    sq1: Seq<Piece>,
    fp: Piece,
    color: Color,
    k: int,
    s: int,
    t: int,
    p: Piece,
    x: int,
)
    requires
        b.wf(),
        king_square(b.piece_list, color) == Some(k as i16),
        is_inner(k),
        k != s,
        k != t,
        is_inner(s),
        0 <= t < 120,
        s != t,
        b.board_squares@[s].is_piece(),
        b.board_squares@[s].color() == color,
        fp.is_piece(),
        keeps_to_pin(b.board_squares@, pins(b.board_squares@, b.piece_list, color), s, t),
        sq1 == b.board_squares@.update(t, fp).update(s, Piece::EmptySquare),
        p.is_piece(),
        p.color() == color.spec_opposite(),
        is_inner(x),
        x != s,
        x != t,
        b.board_squares@[x] == p,
        piece_attacks(sq1, p.kind(), x, k, color.spec_opposite()),
    ensures
        piece_attacks(b.board_squares@, p.kind(), x, k, color.spec_opposite()),
{
    let sq0 = b.board_squares@;
    let opp = color.spec_opposite();
    if !piece_attacks(sq0, p.kind(), x, k, opp) {
        assert forall|q: int| 0 <= q < 120 && q != s && q != t implies sq1[q] == sq0[q] by {}
        let (d, n, i0) = lemma_discovered(sq0, sq1, p.kind(), x, k, s, t, opp);
        assert forall|ii: int| 1 <= ii < n && ii != i0 implies #[trigger] sq0[ray_square(x, d, ii)] == Piece::EmptySquare by {
            lemma_ray_injective(x, d, ii, i0);
            assert(sq1[ray_square(x, d, ii)] == Piece::EmptySquare);
        }
        assert(can_pin(sq0[x], -d));
        lemma_pinned_by_discovery(b, color, k, x, d, n, i0);
        let pins = pins(sq0, b.piece_list, color);
        assert(pins.contains_key(s as i16));
        let (dir, jm) = choose|dir: int, jm: int|
            #![trigger ray_square(s, dir, jm)]
            (dir == pins[s as i16] as int || dir == -(pins[s as i16] as int)) && jm >= 1 && t == ray_square(s, dir, jm) && (
            forall|ii: int| 1 <= ii < jm ==> #[trigger] sq0[ray_square(s, dir, ii)] == Piece::EmptySquare);
        assert(dir == d || dir == -d);
        assert(sq0[k] == king_of(color));
        lemma_pinned_slide_blocks(sq0, sq1, x, d, n, i0, s, dir, jm, t, k);
    }
}

} // verus!
