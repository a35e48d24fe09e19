//! Completeness of the generated moves: every king step that ends on an
//! unattacked square is generated, and so is every knight, bishop, rook
//! and queen move that follows the piece's rules of movement and leaves
//! the king unattacked.

use vstd::prelude::*;

use crate::game_state::board::{
    abs_diff, diagonal_direction, is_inner, lists_match_squares, made, rank_or_file_direction, squares_between, ChessBoard,
};
use crate::game_state::board::moves::Move;
use crate::game_state::board::piece::{Color, Piece, PieceType};
use crate::game_state::board::piece_list::{sorted_inner, PieceList};
use crate::game_state::board::piece_list::attacks::{
    attacker_order, attackers_upto, bishop_attacks, checking_pieces, king_square, lemma_attackers_upto_attack,
    lemma_attackers_upto_distinct, line_steps, piece_attacks, ray_clear, ray_square, rook_attacks, square_attacked,
};
use crate::game_state::board::piece_list::legality::{
    dir_col, dir_row, is_dir, lemma_dir_parts, lemma_empty_prefix_inner, lemma_pin_directions_valid, lemma_ray_back,
    lemma_ray_coords, lemma_ray_injective, lemma_ray_stops, lemma_step_coords, rays_of,
};
use crate::game_state::board::piece_list::movegen::{
    allowed_rays, bishop_of, bishop_rays, blocking_line, castling_moves, evasion_moves, is_enemy, king_moves, king_of,
    king_offsets, king_step_ok, king_steps, knight_moves, knight_of, knight_offsets, legal_moves, lemma_ray_stop,
    moves_over_rays, pawn_moves, pawn_of, piece_moves, plain_move, pseudo_legal_moves, queen_of, queen_rays, rook_of,
    rook_rays, slide_moves, slider_moves, step_moves, stops_at,
};
use crate::game_state::board::piece_list::pins::{can_pin, pin_at, pin_directions, pinned_along, pins, pins_upto};
use crate::game_state::board::piece_list::rays::along;
use crate::game_state::board::piece_list::safety::{
    lemma_attack_ignores_target, lemma_diagonal_reaches, lemma_direction_values, lemma_line_reaches, lemma_ray_between,
    lemma_row_column,
};

verus! {

/// A ray that stays on the board for `j` steps is at most seven steps long.
proof fn lemma_ray_within(s: int, d: int, j: int)
    requires
        is_dir(d),
        is_inner(s),
        j >= 0,
        forall|i: int| 0 <= i <= j ==> is_inner(#[trigger] ray_square(s, d, i)),
    ensures
        j <= 7,
{
    lemma_ray_coords(s, d, j);
    let q = ray_square(s, d, j);
    assert(is_inner(q));
    lemma_dir_parts(d);
    let dr = dir_row(d);
    let dc = dir_col(d);
    assert(j <= 7) by (nonlinear_arith)
        requires
            q / 10 == s / 10 + j * dr,
            q % 10 == s % 10 + j * dc,
            2 <= s / 10 <= 9,
            2 <= q / 10 <= 9,
            1 <= s % 10 <= 8,
            1 <= q % 10 <= 8,
            dr == 1 || dr == -1 || dc == 1 || dc == -1,
            j >= 0,
    ;
}

/// A step of up to seven squares in one direction is no multiple of seven
/// squares or fewer in another direction that is not the same or the
/// opposite one.
proof fn lemma_not_parallel(d: int, w: int, a: int, c: int)
    requires
        is_dir(d),
        is_dir(w),
        d != w,
        d != -w,
        1 <= a <= 7,
        -7 <= c <= 7,
    ensures
        a * d != c * w,
{
    lemma_dir_parts(d);
    lemma_dir_parts(w);
    assert(a * d != c * w) by (nonlinear_arith)
        requires
            d == 1 || d == -1 || d == 10 || d == -10 || d == 11 || d == -11 || d == 9 || d == -9,
            w == 1 || w == -1 || w == 10 || w == -10 || w == 11 || w == -11 || w == 9 || w == -9,
            d != w,
            d != -w,
            1 <= a <= 7,
            -7 <= c <= 7,
    ;
}

/// A knight's jump is no multiple of seven squares or fewer in a ray
/// direction.
proof fn lemma_knight_off_line(o: int, w: int, c: int)
    requires
        knight_offsets().contains(o),
        is_dir(w),
        -7 <= c <= 7,
    ensures
        o != c * w,
{
    let i = choose|i: int| 0 <= i < knight_offsets().len() && knight_offsets()[i] == o;
    assert(o == 21 || o == 19 || o == -19 || o == -21 || o == 12 || o == 8 || o == -8 || o == -12);
    assert(o != c * w) by (nonlinear_arith)
        requires
            o == 21 || o == 19 || o == -19 || o == -21 || o == 12 || o == 8 || o == -8 || o == -12,
            w == 1 || w == -1 || w == 10 || w == -10 || w == 11 || w == -11 || w == 9 || w == -9,
            -7 <= c <= 7,
    ;
}

/// A square the pins map comes from a pin along one of the eight ray
/// directions: the map sends it to that direction, and it is the pinned
/// piece's square on that ray.
proof fn lemma_pin_source(sq: Seq<Piece>, king: int, color: Color, n: int, q: i16)
    requires
        0 <= n <= 8,
        pins_upto(sq, king, color, n).contains_key(q),
    ensures
        is_dir(pins_upto(sq, king, color, n)[q] as int),
        exists|k1: int, k2: int|
            pin_at(sq, king, pins_upto(sq, king, color, n)[q] as int, color, k1, k2) && ray_square(
                king,
                pins_upto(sq, king, color, n)[q] as int,
                k1,
            ) as i16 == q,
    decreases n,
{
    let prev = pins_upto(sq, king, color, n - 1);
    let dn = pin_directions()[n - 1];
    lemma_pin_directions_valid(n - 1);
    match pinned_along(sq, king, dn, color) {
        Some((q0, d)) => {
            if q == q0 {
                let (k1, k2) = choose|k1: int, k2: int| pin_at(sq, king, dn, color, k1, k2);
                assert(d as int == dn);
                assert(pins_upto(sq, king, color, n)[q] as int == dn);
            } else {
                lemma_pin_source(sq, king, color, n - 1, q);
            }
        },
        None => {
            lemma_pin_source(sq, king, color, n - 1, q);
        },
    }
}

/// The squares of a pin's ray, from the king to the pinning piece, are on
/// the board, and the ray is at most seven steps long.
proof fn lemma_pin_squares_inner(b: ChessBoard, k: int, w: int, color: Color, k1: int, k2: int, j: int)
    requires
        b.frame_ok(),
        b.board_squares@.len() == 120,
        is_inner(k),
        is_dir(w),
        pin_at(b.board_squares@, k, w, color, k1, k2),
        0 <= j <= k2,
    ensures
        forall|i: int| 0 <= i <= j ==> is_inner(#[trigger] ray_square(k, w, i)),
    decreases j,
{
    if j == 0 {
        assert forall|i: int| 0 <= i <= j implies is_inner(#[trigger] ray_square(k, w, i)) by {
            assert(ray_square(k, w, 0) == k);
        }
    } else {
        lemma_pin_squares_inner(b, k, w, color, k1, k2, j - 1);
        let q = ray_square(k, w, j - 1);
        lemma_step_coords(q, w);
        lemma_ray_back(k, w, j, 1);
        assert(ray_square(k, w, j) == q + w) by (nonlinear_arith)
            requires
                q == k + (j - 1) * w,
        ;
        assert(b.at(q + w) != Piece::SentinelSquare);
    }
}

/// The attack of a slider on `x`, `n` steps from `k` along `w`, back along
/// the ray to `k`: the attack runs along `-w` over the squares between.
#[verifier::rlimit(30)]
proof fn lemma_attack_along_ray(sq: Seq<Piece>, kind: PieceType, k: int, w: int, n: int, color: Color)
    requires
        is_inner(k),
        is_dir(w),
        n >= 1,
        forall|i: int| 0 <= i <= n ==> is_inner(#[trigger] ray_square(k, w, i)),
        forall|i: int| 1 <= i < n ==> #[trigger] sq[ray_square(k, w, i)] == Piece::EmptySquare,
        kind == PieceType::Queen || (kind == PieceType::Rook && (w == 1 || w == -1 || w == 10 || w == -10)) || (kind
            == PieceType::Bishop && (w == 9 || w == -9 || w == 11 || w == -11)),
    ensures
        piece_attacks(sq, kind, ray_square(k, w, n), k, color),
{
    let x = ray_square(k, w, n);
    lemma_ray_coords(k, w, n);
    lemma_dir_parts(w);
    let dr = dir_row(w);
    let dc = dir_col(w);
    assert(x / 10 - k / 10 == n * dr && x % 10 - k % 10 == n * dc);
    assert(n * dr == n || n * dr == -n || n * dr == 0) by (nonlinear_arith)
        requires
            dr == 1 || dr == -1 || dr == 0,
    ;
    assert(n * dc == n || n * dc == -n || n * dc == 0) by (nonlinear_arith)
        requires
            dc == 1 || dc == -1 || dc == 0,
    ;
    assert(dr == 1 ==> n * dr == n) by (nonlinear_arith);
    assert(dr == -1 ==> n * dr == -n) by (nonlinear_arith);
    assert(dr == 0 ==> n * dr == 0) by (nonlinear_arith);
    assert(dc == 1 ==> n * dc == n) by (nonlinear_arith);
    assert(dc == -1 ==> n * dc == -n) by (nonlinear_arith);
    assert(dc == 0 ==> n * dc == 0) by (nonlinear_arith);
    assert forall|i: int| 1 <= i < n implies #[trigger] sq[ray_square(x, -w, i)] == Piece::EmptySquare by {
        lemma_ray_back(k, w, n, i);
        assert(sq[ray_square(k, w, n - i)] == Piece::EmptySquare);
    }
    assert(ray_clear(sq, x, -w, n));
    if dr != 0 && dc != 0 {
        assert(diagonal_direction(x, k) == -w);
        assert(abs_diff(x / 10, k / 10) == n);
        assert(bishop_attacks(sq, x, k));
    } else {
        assert(rank_or_file_direction(x, k) == -w);
        assert(line_steps(x, k) == n);
        assert(rook_attacks(sq, x, k));
    }
}

/// A piece of `color` pinned on `s` to its king on `k` along `w` that
/// moves off the pin line to `t` leaves the king attacked by the pinning
/// piece.
#[verifier::rlimit(30)]
pub proof fn lemma_pin_exposes(
    b: ChessBoard,
    sq1: Seq<Piece>,
    pl1: PieceList,
    color: Color,
    k: int,
    w: int,
    k1: int,
    k2: int,
    t: int,
    piece: Piece,
)
    requires
        b.wf(),
        is_inner(k),
        is_dir(w),
        pin_at(b.board_squares@, k, w, color, k1, k2),
        0 <= t < 120,
        t != ray_square(k, w, k1),
        forall|j: int| 1 <= j <= k2 ==> t != #[trigger] ray_square(k, w, j),
        sq1 == b.board_squares@.update(t, piece).update(ray_square(k, w, k1), Piece::EmptySquare),
        lists_match_squares(sq1, pl1),
    ensures
        square_attacked(sq1, pl1, k, color.spec_opposite()),
{
    let sq0 = b.board_squares@;
    let s = ray_square(k, w, k1);
    let opp = color.spec_opposite();
    lemma_pin_squares_inner(b, k, w, color, k1, k2, k2);
    let x = ray_square(k, w, k2);
    let p = sq0[x];
    assert(t != x);
    lemma_ray_injective(k, w, k1, k2);
    assert(sq1[x] == p);
    assert(p.color() == opp);
    assert forall|i: int| 1 <= i < k2 implies #[trigger] sq1[ray_square(k, w, i)] == Piece::EmptySquare by {
        if i != k1 {
            lemma_ray_injective(k, w, k1, i);
            assert(sq0[ray_square(k, w, i)] == Piece::EmptySquare);
        }
    }
    assert(can_pin(p, w));
    lemma_attack_along_ray(sq1, p.kind(), k, w, k2, opp);
    assert(pl1.list(p).contains(x as i16));
    let i = choose|i: int| 0 <= i < pl1.list(p).len() && pl1.list(p)[i] == x as i16;
    assert(pl1.list(p)[i] as int == x);
}

/// A move of a list is a move of the list joined with another, on either
/// side.
pub proof fn lemma_contains_concat(a: Seq<Move>, b: Seq<Move>, m: Move)
    ensures
        a.contains(m) ==> (a + b).contains(m),
        b.contains(m) ==> (a + b).contains(m),
{
    if a.contains(m) {
        let i = choose|i: int| 0 <= i < a.len() && a[i] == m;
        assert((a + b)[i] == m);
    }
    if b.contains(m) {
        let i = choose|i: int| 0 <= i < b.len() && b[i] == m;
        assert((a + b)[a.len() + i] == m);
    }
}

/// A step by one of the offsets onto a square empty or holding an enemy is
/// among the steps.
proof fn lemma_step_moves_contains(b: ChessBoard, s: int, offsets: Seq<int>, piece: Piece, color: Color, i: int)
    requires
        0 <= i < offsets.len(),
        b.at(s + offsets[i]) == Piece::EmptySquare || is_enemy(b.at(s + offsets[i]), color),
    ensures
        step_moves(b, s, offsets, piece, color).contains(plain_move(b, s, s + offsets[i], piece)),
    decreases offsets.len(),
{
    let m = plain_move(b, s, s + offsets[i], piece);
    let prev = step_moves(b, s, offsets.drop_last(), piece, color);
    if i == offsets.len() - 1 {
        assert(step_moves(b, s, offsets, piece, color) == prev.push(m));
        assert(prev.push(m)[prev.len() as int] == m);
    } else {
        assert(offsets.drop_last()[i] == offsets[i]);
        lemma_step_moves_contains(b, s, offsets.drop_last(), piece, color, i);
        let j = choose|j: int| 0 <= j < prev.len() && prev[j] == m;
        let all = step_moves(b, s, offsets, piece, color);
        assert(all[j] == m);
    }
}

/// The steps of an unpinned listed knight are among the knight moves.
proof fn lemma_knight_moves_contains(b: ChessBoard, squares: Seq<i16>, pins: Map<i16, i16>, piece: Piece, color: Color, idx: int, m: Move)
    requires
        0 <= idx < squares.len(),
        !pins.contains_key(squares[idx]),
        step_moves(b, squares[idx] as int, knight_offsets(), piece, color).contains(m),
    ensures
        knight_moves(b, squares, pins, piece, color).contains(m),
    decreases squares.len(),
{
    let prev = knight_moves(b, squares.drop_last(), pins, piece, color);
    if idx == squares.len() - 1 {
        lemma_contains_concat(prev, step_moves(b, squares.last() as int, knight_offsets(), piece, color), m);
    } else {
        assert(squares.drop_last()[idx] == squares[idx]);
        lemma_knight_moves_contains(b, squares.drop_last(), pins, piece, color, idx, m);
        if !pins.contains_key(squares.last()) {
            lemma_contains_concat(prev, step_moves(b, squares.last() as int, knight_offsets(), piece, color), m);
        }
    }
}

/// A slide over empty squares onto a square empty or holding an enemy is
/// among the slides along that direction.
#[verifier::rlimit(30)]
proof fn lemma_slide_moves_contains(b: ChessBoard, s: int, d: int, piece: Piece, color: Color, j: int)
    requires
        b.frame_ok(),
        b.board_squares@.len() == 120,
        is_dir(d),
        is_inner(s),
        j >= 1,
        forall|i: int| 1 <= i < j ==> #[trigger] b.board_squares@[ray_square(s, d, i)] == Piece::EmptySquare,
        b.board_squares@[ray_square(s, d, j)] == Piece::EmptySquare || is_enemy(b.board_squares@[ray_square(s, d, j)], color),
    ensures
        slide_moves(b, s, d, piece, color).contains(plain_move(b, s, ray_square(s, d, j), piece)),
{
    let sq = b.board_squares@;
    lemma_ray_stops(b, s, d);
    let n = choose|n: int| 1 <= n <= 8 && #[trigger] stops_at(sq, s, d, n) && 0 <= ray_square(s, d, n) < 120;
    lemma_ray_stop(sq, s, d, n);
    let m = plain_move(b, s, ray_square(s, d, j), piece);
    let quiet = Seq::new((n - 1) as nat, |i: int| plain_move(b, s, ray_square(s, d, i + 1), piece));
    if j < n {
        assert(quiet[j - 1] == m);
        if is_enemy(sq[ray_square(s, d, n)], color) {
            assert(quiet.push(plain_move(b, s, ray_square(s, d, n), piece))[j - 1] == m);
        }
    } else {
        if j > n {
            assert(sq[ray_square(s, d, n)] == Piece::EmptySquare);
        }
        assert(j == n);
        assert(quiet.push(m)[n - 1] == m);
    }
}

/// The slides along one of the directions are among the slides along all
/// of them.
proof fn lemma_over_rays_contains(b: ChessBoard, s: int, rays: Seq<i16>, piece: Piece, color: Color, r: int, m: Move)
    requires
        0 <= r < rays.len(),
        slide_moves(b, s, rays[r] as int, piece, color).contains(m),
    ensures
        moves_over_rays(b, s, rays, piece, color).contains(m),
    decreases rays.len(),
{
    let prev = moves_over_rays(b, s, rays.drop_last(), piece, color);
    if r == rays.len() - 1 {
        lemma_contains_concat(prev, slide_moves(b, s, rays.last() as int, piece, color), m);
    } else {
        assert(rays.drop_last()[r] == rays[r]);
        lemma_over_rays_contains(b, s, rays.drop_last(), piece, color, r, m);
        lemma_contains_concat(prev, slide_moves(b, s, rays.last() as int, piece, color), m);
    }
}

/// The slides of a listed slider along its allowed directions are among
/// the slider moves.
proof fn lemma_slider_moves_contains(
    b: ChessBoard,
    squares: Seq<i16>,
    pins: Map<i16, i16>,
    rays: Seq<i16>,
    piece: Piece,
    color: Color,
    idx: int,
    m: Move,
)
    requires
        0 <= idx < squares.len(),
        moves_over_rays(b, squares[idx] as int, allowed_rays(rays, pins, squares[idx]), piece, color).contains(m),
    ensures
        slider_moves(b, squares, pins, rays, piece, color).contains(m),
    decreases squares.len(),
{
    let prev = slider_moves(b, squares.drop_last(), pins, rays, piece, color);
    let last = moves_over_rays(b, squares.last() as int, allowed_rays(rays, pins, squares.last()), piece, color);
    if idx == squares.len() - 1 {
        lemma_contains_concat(prev, last, m);
    } else {
        assert(squares.drop_last()[idx] == squares[idx]);
        lemma_slider_moves_contains(b, squares.drop_last(), pins, rays, piece, color, idx, m);
        lemma_contains_concat(prev, last, m);
    }
}

/// A move of a knight, bishop, rook or queen of `color` that follows the
/// piece's rules of movement: from the piece's square, by a knight's jump
/// or by some steps along one of the slider's directions over empty
/// squares, onto a square that is empty or holds an enemy.
pub open spec fn follows_piece_rules(b: ChessBoard, color: Color, m: Move) -> bool {
    let s = m.from as int;
    let t = m.to as int;
    &&& is_inner(s)
    &&& b.at(s) == m.piece
    &&& m == plain_move(b, s, t, m.piece)
    &&& b.at(t) == Piece::EmptySquare || is_enemy(b.at(t), color)
    &&& if m.piece == knight_of(color) {
        exists|i: int| 0 <= i < knight_offsets().len() && t == s + #[trigger] knight_offsets()[i]
    } else {
        &&& m.piece == queen_of(color) || m.piece == rook_of(color) || m.piece == bishop_of(color)
        &&& exists|r: int, j: int|
            #![trigger ray_square(s, rays_of(m.piece, color)[r] as int, j)]
            0 <= r < rays_of(m.piece, color).len() && j >= 1 && t == ray_square(s, rays_of(m.piece, color)[r] as int, j) && (
            forall|i: int|
                1 <= i < j ==> #[trigger] b.board_squares@[ray_square(s, rays_of(m.piece, color)[r] as int, i)]
                    == Piece::EmptySquare)
    }
}

/// The pin of a pinned piece of `color` on `s`: the direction from the
/// king, with the pinned piece `k1` and the pinning piece `k2` steps along
/// it, at most seven, every square of the ray on the board.
#[verifier::rlimit(30)]
pub proof fn lemma_pinned_shape(b: ChessBoard, color: Color, s: int) -> (r: (int, int, int, int))
    requires
        b.wf(),
        is_inner(s),
        pins(b.board_squares@, b.piece_list, color).contains_key(s as i16),
    ensures
        king_square(b.piece_list, color) == Some(r.0 as i16),
        is_inner(r.0),
        is_dir(r.1),
        pins(b.board_squares@, b.piece_list, color)[s as i16] as int == r.1,
        pin_at(b.board_squares@, r.0, r.1, color, r.2, r.3),
        ray_square(r.0, r.1, r.2) == s,
        r.3 <= 7,
        forall|i: int| 0 <= i <= r.3 ==> is_inner(#[trigger] ray_square(r.0, r.1, i)),
{
    let pl = b.piece_list;
    let sq0 = b.board_squares@;
    let k16 = king_square(pl, color)->0;
    let k = k16 as int;
    let king = king_of(color);
    assert(pl.list(king).len() > 0);
    assert(sorted_inner(pl.list(king)));
    assert(is_inner(k));
    lemma_pin_source(sq0, k, color, 8, s as i16);
    let w = pins(sq0, pl, color)[s as i16] as int;
    let (k1, k2) = choose|k1: int, k2: int| pin_at(sq0, k, w, color, k1, k2) && ray_square(k, w, k1) as i16 == s as i16;
    lemma_pin_squares_inner(b, k, w, color, k1, k2, k2);
    lemma_ray_within(k, w, k2);
    assert(is_inner(ray_square(k, w, k1)));
    (k, w, k1, k2)
}

/// A knight jump that leaves the king unattacked is among the knight
/// moves.
#[verifier::rlimit(30)]
proof fn lemma_knight_move_generated(b: ChessBoard, b1: ChessBoard, m: Move, color: Color)
    requires
        b.wf(),
        m.piece == knight_of(color),
        follows_piece_rules(b, color, m),
        made(b, b1, m),
        king_square(b.piece_list, color) matches Some(k) ==> !square_attacked(
            b1.board_squares@,
            b1.piece_list,
            k as int,
            color.spec_opposite(),
        ),
    ensures
        0 <= (m.to as int) < 120,
        knight_moves(b, b.piece_list.list(m.piece), pins(b.board_squares@, b.piece_list, color), m.piece, color).contains(m),
{
    let pl = b.piece_list;
    let sq0 = b.board_squares@;
    let pins = pins(sq0, pl, color);
    let s = m.from as int;
    let t = m.to as int;
    let knight = m.piece;
    let i = choose|i: int| 0 <= i < knight_offsets().len() && t == s + #[trigger] knight_offsets()[i];
    let o = knight_offsets()[i];
    assert(o == 21 || o == 19 || o == -19 || o == -21 || o == 12 || o == 8 || o == -8 || o == -12);
    assert(0 <= t < 120);
    assert(t != s);
    if pins.contains_key(s as i16) {
        let (k, w, k1, k2) = lemma_pinned_shape(b, color, s);
        assert forall|jj: int| 1 <= jj <= k2 implies t != #[trigger] ray_square(k, w, jj) by {
            if t == ray_square(k, w, jj) {
                assert(o == (jj - k1) * w) by (nonlinear_arith)
                    requires
                        t == s + o,
                        s == k + k1 * w,
                        t == k + jj * w,
                ;
                assert(knight_offsets().contains(o));
                lemma_knight_off_line(o, w, jj - k1);
            }
        }
        let sq1 = b1.board_squares@;
        assert(sq1 == sq0.update(t, knight).update(s, Piece::EmptySquare));
        lemma_pin_exposes(b, sq1, b1.piece_list, color, k, w, k1, k2, t, knight);
    }
    assert(pl.list(knight).contains(s as i16));
    let idx = choose|idx: int| 0 <= idx < pl.list(knight).len() && pl.list(knight)[idx] == s as i16;
    lemma_step_moves_contains(b, s, knight_offsets(), knight, color, i);
    lemma_knight_moves_contains(b, pl.list(knight), pins, knight, color, idx, m);
}

/// A slide of a bishop, rook or queen that leaves the king unattacked is
/// among the slider moves.
#[verifier::rlimit(30)]
proof fn lemma_slider_move_generated(b: ChessBoard, b1: ChessBoard, m: Move, color: Color)
    requires
        b.wf(),
        m.piece != knight_of(color),
        follows_piece_rules(b, color, m),
        made(b, b1, m),
        king_square(b.piece_list, color) matches Some(k) ==> !square_attacked(
            b1.board_squares@,
            b1.piece_list,
            k as int,
            color.spec_opposite(),
        ),
    ensures
        0 <= (m.to as int) < 120,
        slider_moves(
            b,
            b.piece_list.list(m.piece),
            pins(b.board_squares@, b.piece_list, color),
            rays_of(m.piece, color),
            m.piece,
            color,
        ).contains(m),
{
    let pl = b.piece_list;
    let sq0 = b.board_squares@;
    let pins = pins(sq0, pl, color);
    let s = m.from as int;
    let t = m.to as int;
    let piece = m.piece;
    let rays = rays_of(piece, color);
    let (r, j) = choose|r: int, j: int|
        #![trigger ray_square(s, rays[r] as int, j)]
        0 <= r < rays.len() && j >= 1 && t == ray_square(s, rays[r] as int, j) && (forall|i: int|
            1 <= i < j ==> #[trigger] sq0[ray_square(s, rays[r] as int, i)] == Piece::EmptySquare);
    let d16 = rays[r];
    let d = d16 as int;
    assert(is_dir(d));
    lemma_empty_prefix_inner(b, s, d, j);
    lemma_step_coords(ray_square(s, d, j - 1), d);
    lemma_ray_back(s, d, j, 1);
    assert(ray_square(s, d, j) == ray_square(s, d, j - 1) + d) by (nonlinear_arith);
    assert(0 <= t < 120);
    assert(is_inner(t));
    lemma_ray_within(s, d, j);
    lemma_ray_injective(s, d, 0, j);
    assert(t != s);
    let allowed = allowed_rays(rays, pins, s as i16);
    let r2: int = if pins.contains_key(s as i16) {
        let (k, w, k1, k2) = lemma_pinned_shape(b, color, s);
        if d != w && d != -w {
            assert forall|jj: int| 1 <= jj <= k2 implies t != #[trigger] ray_square(k, w, jj) by {
                if t == ray_square(k, w, jj) {
                    assert(j * d == (jj - k1) * w) by (nonlinear_arith)
                        requires
                            t == s + j * d,
                            s == k + k1 * w,
                            t == k + jj * w,
                    ;
                    lemma_not_parallel(d, w, j, jj - k1);
                }
            }
            let sq1 = b1.board_squares@;
            assert(sq1 == sq0.update(t, piece).update(s, Piece::EmptySquare));
            lemma_pin_exposes(b, sq1, b1.piece_list, color, k, w, k1, k2, t, piece);
        }
        let pred = |dd: i16| along(dd, pins[s as i16]);
        assert(pred(rays[r]));
        rays.lemma_filter_contains(pred, r);
        let r2 = choose|r2: int| 0 <= r2 < allowed.len() && allowed[r2] == d16;
        r2
    } else {
        r
    };
    assert(allowed[r2] as int == d);
    lemma_slide_moves_contains(b, s, d, piece, color, j);
    lemma_over_rays_contains(b, s, allowed, piece, color, r2, m);
    assert(pl.list(piece).contains(s as i16));
    let idx = choose|idx: int| 0 <= idx < pl.list(piece).len() && pl.list(piece)[idx] == s as i16;
    lemma_slider_moves_contains(b, pl.list(piece), pins, rays, piece, color, idx, m);
}

/// When the side to move is not in check, every knight, bishop, rook or
/// queen move that follows the piece's rules of movement and leaves the
/// king unattacked is among the generated moves.
#[verifier::rlimit(30)]
proof fn lemma_quiet_piece_move_complete(b: ChessBoard, b1: ChessBoard, m: Move, color: Color)
    requires
        b.wf(),
        checking_pieces(b.board_squares@, b.piece_list, color).len() == 0,
        m.piece == queen_of(color) || m.piece == rook_of(color) || m.piece == bishop_of(color) || m.piece == knight_of(color),
        follows_piece_rules(b, color, m),
        made(b, b1, m),
        king_square(b.piece_list, color) matches Some(k) ==> !square_attacked(
            b1.board_squares@,
            b1.piece_list,
            k as int,
            color.spec_opposite(),
        ),
    ensures
        legal_moves(b, b.piece_list, color).contains(m),
{
    let pl = b.piece_list;
    let sq0 = b.board_squares@;
    let pins = pins(sq0, pl, color);
    let king = king_of(color);
    let km = king_moves(b, pl, pl.list(king), king, color);
    let cm = castling_moves(b, color);
    let sq = slider_moves(b, pl.list(queen_of(color)), pins, queen_rays(), queen_of(color), color);
    let sr = slider_moves(b, pl.list(rook_of(color)), pins, rook_rays(), rook_of(color), color);
    let sb = slider_moves(b, pl.list(bishop_of(color)), pins, bishop_rays(), bishop_of(color), color);
    let kn = knight_moves(b, pl.list(knight_of(color)), pins, knight_of(color), color);
    let pw = pawn_moves(b, pl, pl.list(pawn_of(color)), pins, pawn_of(color), color);
    assert(pseudo_legal_moves(b, pl, color) == km + cm + sq + sr + sb + kn + pw);
    if m.piece == knight_of(color) {
        lemma_knight_move_generated(b, b1, m, color);
        lemma_contains_concat(km + cm + sq + sr + sb, kn, m);
    } else {
        lemma_slider_move_generated(b, b1, m, color);
        if m.piece == queen_of(color) {
            lemma_contains_concat(km + cm, sq, m);
            lemma_contains_concat(km + cm + sq, sr, m);
            lemma_contains_concat(km + cm + sq + sr, sb, m);
        } else if m.piece == rook_of(color) {
            lemma_contains_concat(km + cm + sq, sr, m);
            lemma_contains_concat(km + cm + sq + sr, sb, m);
        } else {
            lemma_contains_concat(km + cm + sq + sr, sb, m);
        }
        lemma_contains_concat(km + cm + sq + sr + sb, kn, m);
    }
    lemma_contains_concat(km + cm + sq + sr + sb + kn, pw, m);
}

/// A king step of `color`: the king on its square steps to a neighbouring
/// square that is empty or holds an enemy.
pub open spec fn king_step(b: ChessBoard, color: Color, m: Move) -> bool {
    let s = m.from as int;
    let t = m.to as int;
    &&& is_inner(s)
    &&& m.piece == king_of(color)
    &&& b.at(s) == m.piece
    &&& m == plain_move(b, s, t, m.piece)
    &&& b.at(t) == Piece::EmptySquare || is_enemy(b.at(t), color)
    &&& exists|i: int| 0 <= i < king_offsets().len() && t == s + #[trigger] king_offsets()[i]
}

/// A king step that the steps allow is among them.
proof fn lemma_king_steps_contains(b: ChessBoard, pl: PieceList, s: int, offsets: Seq<int>, piece: Piece, color: Color, i: int)
    requires
        0 <= i < offsets.len(),
        king_step_ok(b, pl, s, s + offsets[i], color),
    ensures
        king_steps(b, pl, s, offsets, piece, color).contains(plain_move(b, s, s + offsets[i], piece)),
    decreases offsets.len(),
{
    let m = plain_move(b, s, s + offsets[i], piece);
    let prev = king_steps(b, pl, s, offsets.drop_last(), piece, color);
    if i == offsets.len() - 1 {
        assert(prev.push(m)[prev.len() as int] == m);
    } else {
        assert(offsets.drop_last()[i] == offsets[i]);
        lemma_king_steps_contains(b, pl, s, offsets.drop_last(), piece, color, i);
        let j = choose|j: int| 0 <= j < prev.len() && prev[j] == m;
        assert(king_steps(b, pl, s, offsets, piece, color)[j] == m);
    }
}

/// The steps of a listed king are among the king moves.
proof fn lemma_king_moves_contains(b: ChessBoard, pl: PieceList, squares: Seq<i16>, piece: Piece, color: Color, idx: int, m: Move)
    requires
        0 <= idx < squares.len(),
        king_steps(b, pl, squares[idx] as int, king_offsets(), piece, color).contains(m),
    ensures
        king_moves(b, pl, squares, piece, color).contains(m),
    decreases squares.len(),
{
    let prev = king_moves(b, pl, squares.drop_last(), piece, color);
    let last = king_steps(b, pl, squares.last() as int, king_offsets(), piece, color);
    if idx == squares.len() - 1 {
        lemma_contains_concat(prev, last, m);
    } else {
        assert(squares.drop_last()[idx] == squares[idx]);
        lemma_king_moves_contains(b, pl, squares.drop_last(), piece, color, idx, m);
        lemma_contains_concat(prev, last, m);
    }
}

/// A king step that ends on a square no enemy piece attacks after it is
/// one the king's steps allow: with the king lifted off its square, no
/// enemy attacks the destination either.
#[verifier::rlimit(30)]
proof fn lemma_king_step_allowed(b: ChessBoard, b1: ChessBoard, m: Move, color: Color)
    requires
        b.wf(),
        king_step(b, color, m),
        made(b, b1, m),
        !square_attacked(b1.board_squares@, b1.piece_list, m.to as int, color.spec_opposite()),
    ensures
        king_step_ok(b, b.piece_list, m.from as int, m.to as int, color),
{
    let pl = b.piece_list;
    let pl1 = b1.piece_list;
    let sq0 = b.board_squares@;
    let sq1 = b1.board_squares@;
    let opp = color.spec_opposite();
    let s = m.from as int;
    let t = m.to as int;
    let i = choose|i: int| 0 <= i < king_offsets().len() && t == s + #[trigger] king_offsets()[i];
    assert(0 <= t < 120);
    assert(t != s);
    assert(sq1 == sq0.update(t, m.piece).update(s, Piece::EmptySquare));
    let sqa = sq0.update(s, Piece::EmptySquare);
    if square_attacked(sqa, pl, t, opp) {
        let (p, ii) = choose|p: Piece, ii: int|
            #![trigger pl.list(p)[ii]]
            p.is_piece() && p.color() == opp && 0 <= ii < pl.list(p).len() && piece_attacks(
                sqa,
                p.kind(),
                pl.list(p)[ii] as int,
                t,
                opp,
            );
        let x = pl.list(p)[ii] as int;
        assert(sorted_inner(pl.list(p)));
        assert(is_inner(x));
        assert(sq0[x] == p);
        assert(x != s);
        assert(x != t);
        assert(sq1[x] == p);
        assert forall|q: int| 0 <= q < 120 && q != t implies sqa[q] == sq1[q] by {}
        lemma_attack_ignores_target(sqa, sq1, p.kind(), x, t, opp);
        assert(pl1.list(p).contains(x as i16));
        let j = choose|j: int| 0 <= j < pl1.list(p).len() && pl1.list(p)[j] == x as i16;
        assert(pl1.list(p)[j] as int == x);
    }
}

/// The king moves are among the pseudo-legal moves.
proof fn lemma_king_moves_pseudo(b: ChessBoard, color: Color, m: Move)
    requires
        king_moves(b, b.piece_list, b.piece_list.list(king_of(color)), king_of(color), color).contains(m),
    ensures
        pseudo_legal_moves(b, b.piece_list, color).contains(m),
{
    let pl = b.piece_list;
    let king = king_of(color);
    let km = king_moves(b, pl, pl.list(king), king, color);
    let cm = castling_moves(b, color);
    let pm = piece_moves(b, pl, color);
    assert(pseudo_legal_moves(b, pl, color) =~= (km + cm) + pm);
    lemma_contains_concat(km, cm, m);
    lemma_contains_concat(km + cm, pm, m);
}

/// The king moves are among the evasions of a check by one piece.
proof fn lemma_king_moves_evasion(b: ChessBoard, color: Color, attacker: (Piece, i16), m: Move)
    requires
        king_moves(b, b.piece_list, b.piece_list.list(king_of(color)), king_of(color), color).contains(m),
        king_square(b.piece_list, color) is Some,
    ensures
        evasion_moves(b, b.piece_list, attacker, color).contains(m),
{
    let pl = b.piece_list;
    let king = king_of(color);
    let km = king_moves(b, pl, pl.list(king), king, color);
    let k = king_square(pl, color)->0;
    let blocking = blocking_line(attacker, k);
    let pred = |mv: Move| blocking.contains(mv.to);
    let filtered = piece_moves(b, pl, color).filter(pred);
    assert(evasion_moves(b, pl, attacker, color) == filtered + km);
    lemma_contains_concat(filtered, km, m);
}

/// The king moves are among the generated moves, in check or not.
proof fn lemma_king_moves_legal(b: ChessBoard, color: Color, m: Move)
    requires
        king_moves(b, b.piece_list, b.piece_list.list(king_of(color)), king_of(color), color).contains(m),
        king_square(b.piece_list, color) is Some,
    ensures
        legal_moves(b, b.piece_list, color).contains(m),
{
    let checks = checking_pieces(b.board_squares@, b.piece_list, color);
    if checks.len() == 0 {
        lemma_king_moves_pseudo(b, color, m);
    } else if checks.len() == 1 {
        lemma_king_moves_evasion(b, color, checks[0], m);
    }
}

/// A king step that ends on a square no enemy piece attacks after it is
/// among the generated moves, in check or not.
pub proof fn lemma_king_step_complete(b: ChessBoard, b1: ChessBoard, m: Move, color: Color)
    requires
        b.wf(),
        king_step(b, color, m),
        made(b, b1, m),
        !square_attacked(b1.board_squares@, b1.piece_list, m.to as int, color.spec_opposite()),
    ensures
        legal_moves(b, b.piece_list, color).contains(m),
{
    let pl = b.piece_list;
    let s = m.from as int;
    let king = m.piece;
    let i = choose|i: int| 0 <= i < king_offsets().len() && m.to as int == s + #[trigger] king_offsets()[i];
    lemma_king_step_allowed(b, b1, m, color);
    lemma_king_steps_contains(b, pl, s, king_offsets(), king, color, i);
    assert(pl.list(king).contains(s as i16));
    let idx = choose|idx: int| 0 <= idx < pl.list(king).len() && pl.list(king)[idx] == s as i16;
    lemma_king_moves_contains(b, pl, pl.list(king), king, color, idx, m);
    assert(pl.list(king).len() > 0);
    lemma_king_moves_legal(b, color, m);
}

/// Every piece that the attackers list names attacks the square from its
/// listed square.
pub proof fn lemma_attackers_attack(sq: Seq<Piece>, pl: PieceList, to: int, color: Color, n: int)
    requires
        0 <= n <= 6,
    ensures
        forall|i: int| 0 <= i < attackers_upto(sq, pl, to, color, n).len() ==> {
            let (p, x) = #[trigger] attackers_upto(sq, pl, to, color, n)[i];
            &&& p.is_piece()
            &&& p.color() == color
            &&& pl.list(p).contains(x)
            &&& piece_attacks(sq, p.kind(), x as int, to, color)
        },
{
    lemma_attackers_upto_attack(sq, pl, to, color, n);
}

/// The squares strictly between two squares on a line are the squares of
/// the ray from one to the other, in order.
proof fn lemma_between_index(a: int, k: int, d: int, n: int, j: int)
    requires
        is_inner(a),
        is_inner(k),
        d != 0,
        d == diagonal_direction(a, k) && n == abs_diff(a / 10, k / 10) || d == rank_or_file_direction(a, k) && n == line_steps(
            a,
            k,
        ),
        1 <= j < n,
    ensures
        squares_between(a, k).len() == n - 1,
        squares_between(a, k)[j - 1] == ray_square(a, d, j) as i16,
{
    let rank_diff = k / 10 - a / 10;
    let file_diff = k % 10 - a % 10;
    let rs: int = if rank_diff > 0 {
        1
    } else if rank_diff < 0 {
        -1
    } else {
        0
    };
    let cs: int = if file_diff > 0 {
        1
    } else if file_diff < 0 {
        -1
    } else {
        0
    };
    lemma_row_column(a);
    assert(d == 10 * rs + cs);
    let v = (a / 10 + j * rs) * 10 + (a % 10 + j * cs);
    assert(v == a + j * d) by (nonlinear_arith)
        requires
            v == (a / 10 + j * rs) * 10 + (a % 10 + j * cs),
            a == 10 * (a / 10) + a % 10,
            d == 10 * rs + cs,
    ;
    assert(squares_between(a, k)[j - 1] == v as i16);
}

/// A move of a piece of `color` from `s` to `t` that neither lands on the
/// square of the enemy piece on `a` that attacks the king on `k`, nor on a
/// square between them, leaves the king attacked by that piece.
#[verifier::rlimit(30)]
pub proof fn lemma_unaddressed_check(
    b: ChessBoard,
    sq1: Seq<Piece>,
    pl1: PieceList,
    color: Color,
    k: int,
    p: Piece,
    a: int,
    s: int,
    t: int,
    piece: Piece,
)
    requires
        b.wf(),
        is_inner(k),
        is_inner(a),
        is_inner(s),
        p.is_piece(),
        p.color() == color.spec_opposite(),
        b.board_squares@[a] == p,
        b.board_squares@[s].is_piece(),
        b.board_squares@[s].color() == color,
        piece_attacks(b.board_squares@, p.kind(), a, k, color.spec_opposite()),
        0 <= t < 120,
        t != a,
        !blocking_line((p, a as i16), k as i16).contains(t as i16),
        sq1 == b.board_squares@.update(t, piece).update(s, Piece::EmptySquare),
        lists_match_squares(sq1, pl1),
    ensures
        square_attacked(sq1, pl1, k, color.spec_opposite()),
{
    let sq0 = b.board_squares@;
    let opp = color.spec_opposite();
    let blocking = blocking_line((p, a as i16), k as i16);
    let between = squares_between(a, k);
    assert(a != s);
    assert(sq1[a] == p);
    if p.kind() == PieceType::Queen || p.kind() == PieceType::Rook || p.kind() == PieceType::Bishop {
        assert(blocking == seq![a as i16] + between);
        let bd = diagonal_direction(a, k);
        let bn = abs_diff(a / 10, k / 10);
        let rd = rank_or_file_direction(a, k);
        let rn = line_steps(a, k);
        if (p.kind() == PieceType::Bishop || p.kind() == PieceType::Queen) && bishop_attacks(sq0, a, k) {
            lemma_diagonal_reaches(a, k);
            assert forall|j: int| 1 <= j < bn implies #[trigger] sq1[ray_square(a, bd, j)] == Piece::EmptySquare by {
                lemma_ray_between(a, k, bd, bn, j);
                lemma_between_index(a, k, bd, bn, j);
                assert(blocking[j] == between[j - 1]);
                assert(sq0[ray_square(a, bd, j)] == Piece::EmptySquare);
            }
            assert(bishop_attacks(sq1, a, k));
        } else {
            lemma_line_reaches(a, k);
            assert forall|j: int| 1 <= j < rn implies #[trigger] sq1[ray_square(a, rd, j)] == Piece::EmptySquare by {
                lemma_ray_between(a, k, rd, rn, j);
                lemma_between_index(a, k, rd, rn, j);
                assert(blocking[j] == between[j - 1]);
                assert(sq0[ray_square(a, rd, j)] == Piece::EmptySquare);
            }
            assert(rook_attacks(sq1, a, k));
        }
    }
    assert(piece_attacks(sq1, p.kind(), a, k, opp));
    assert(pl1.list(p).contains(a as i16));
    let i = choose|i: int| 0 <= i < pl1.list(p).len() && pl1.list(p)[i] == a as i16;
    assert(pl1.list(p)[i] as int == a);
}

/// In check by one piece, every knight, bishop, rook or queen move that
/// follows the piece's rules of movement and leaves the king unattacked is
/// among the generated moves.
#[verifier::rlimit(30)]
proof fn lemma_check_piece_move_complete(b: ChessBoard, b1: ChessBoard, m: Move, color: Color)
    requires
        b.wf(),
        checking_pieces(b.board_squares@, b.piece_list, color).len() == 1,
        m.piece == queen_of(color) || m.piece == rook_of(color) || m.piece == bishop_of(color) || m.piece == knight_of(color),
        follows_piece_rules(b, color, m),
        made(b, b1, m),
        king_square(b.piece_list, color) matches Some(k) ==> !square_attacked(
            b1.board_squares@,
            b1.piece_list,
            k as int,
            color.spec_opposite(),
        ),
    ensures
        legal_moves(b, b.piece_list, color).contains(m),
{
    let pl = b.piece_list;
    let sq0 = b.board_squares@;
    let opp = color.spec_opposite();
    let checks = checking_pieces(sq0, pl, color);
    let k16 = king_square(pl, color)->0;
    let k = k16 as int;
    let king = king_of(color);
    assert(pl.list(king).len() > 0);
    assert(sorted_inner(pl.list(king)));
    assert(is_inner(k));
    lemma_attackers_attack(sq0, pl, k, opp, 6);
    let (p, a16) = checks[0];
    let a = a16 as int;
    assert(pl.list(p).contains(a16));
    let ia = choose|ia: int| 0 <= ia < pl.list(p).len() && pl.list(p)[ia] == a16;
    assert(sorted_inner(pl.list(p)));
    assert(is_inner(a));
    assert(sq0[a] == p);
    let pins = pins(sq0, pl, color);
    let sq = slider_moves(b, pl.list(queen_of(color)), pins, queen_rays(), queen_of(color), color);
    let sr = slider_moves(b, pl.list(rook_of(color)), pins, rook_rays(), rook_of(color), color);
    let sb = slider_moves(b, pl.list(bishop_of(color)), pins, bishop_rays(), bishop_of(color), color);
    let kn = knight_moves(b, pl.list(knight_of(color)), pins, knight_of(color), color);
    let pw = pawn_moves(b, pl, pl.list(pawn_of(color)), pins, pawn_of(color), color);
    let pm = piece_moves(b, pl, color);
    assert(pm == sq + sr + sb + kn + pw);
    if m.piece == knight_of(color) {
        lemma_knight_move_generated(b, b1, m, color);
        lemma_contains_concat(sq + sr + sb, kn, m);
    } else {
        lemma_slider_move_generated(b, b1, m, color);
        if m.piece == queen_of(color) {
            lemma_contains_concat(sq, sr, m);
            lemma_contains_concat(sq + sr, sb, m);
        } else if m.piece == rook_of(color) {
            lemma_contains_concat(sq, sr, m);
            lemma_contains_concat(sq + sr, sb, m);
        } else {
            lemma_contains_concat(sq + sr, sb, m);
        }
        lemma_contains_concat(sq + sr + sb, kn, m);
    }
    lemma_contains_concat(sq + sr + sb + kn, pw, m);
    let s = m.from as int;
    let t = m.to as int;
    let blocking = blocking_line(checks[0], k16);
    assert(blocking[0] == a16);
    if !blocking.contains(m.to) {
        assert(t as i16 == m.to);
        assert(0 <= t < 120);
        assert(t != a);
        let sq1 = b1.board_squares@;
        assert(sq1 == sq0.update(t, m.piece).update(s, Piece::EmptySquare));
        lemma_unaddressed_check(b, sq1, b1.piece_list, color, k, p, a, s, t, m.piece);
    }
    let pred = |mv: Move| blocking.contains(mv.to);
    let idx = choose|idx: int| 0 <= idx < pm.len() && pm[idx] == m;
    pm.lemma_filter_contains(pred, idx);
    let filtered = pm.filter(pred);
    let km = king_moves(b, pl, pl.list(king), king, color);
    assert(evasion_moves(b, pl, checks[0], color) == filtered + km);
    lemma_contains_concat(filtered, km, m);
}

/// Every knight, bishop, rook or queen move that follows the piece's rules
/// of movement and leaves the king unattacked is among the generated
/// moves (in check by two pieces there is no such move).
pub proof fn lemma_piece_move_complete(b: ChessBoard, b1: ChessBoard, m: Move, color: Color)
    requires
        b.wf(),
        m.piece == queen_of(color) || m.piece == rook_of(color) || m.piece == bishop_of(color) || m.piece == knight_of(color),
        follows_piece_rules(b, color, m),
        made(b, b1, m),
        king_square(b.piece_list, color) matches Some(k) ==> !square_attacked(
            b1.board_squares@,
            b1.piece_list,
            k as int,
            color.spec_opposite(),
        ),
    ensures
        legal_moves(b, b.piece_list, color).contains(m),
{
    let checks = checking_pieces(b.board_squares@, b.piece_list, color);
    if checks.len() == 0 {
        lemma_quiet_piece_move_complete(b, b1, m, color);
    } else if checks.len() == 1 {
        lemma_check_piece_move_complete(b, b1, m, color);
    } else {
        if m.piece == knight_of(color) {
            lemma_knight_move_generated(b, b1, m, color);
        } else {
            lemma_slider_move_generated(b, b1, m, color);
        }
        let s = m.from as int;
        let t = m.to as int;
        assert(b1.board_squares@ == b.board_squares@.update(t, m.piece).update(s, Piece::EmptySquare));
        lemma_double_check_exposes(b, b1.board_squares@, b1.piece_list, color, s, t, m.piece);
    }
}

/// The ray of a slider's attack: the direction from the attacker to the
/// attacked square, one of the eight, the number of steps, at most seven,
/// and the squares between, all empty.
proof fn lemma_attack_ray(sq: Seq<Piece>, kind: PieceType, a: int, k: int, color: Color) -> (r: (int, int))
    requires
        is_inner(a),
        is_inner(k),
        kind == PieceType::Queen || kind == PieceType::Rook || kind == PieceType::Bishop,
        piece_attacks(sq, kind, a, k, color),
    ensures
        r.0 != 0,
        is_dir(r.0),
        r.0 == diagonal_direction(a, k) && r.1 == abs_diff(a / 10, k / 10) || r.0 == rank_or_file_direction(a, k) && r.1
            == line_steps(a, k),
        a + r.1 * r.0 == k,
        1 <= r.1 <= 7,
        ray_clear(sq, a, r.0, r.1),
{
    lemma_direction_values(a, k, kind);
    lemma_row_column(a);
    lemma_row_column(k);
    let (d, n) = if (kind == PieceType::Bishop || kind == PieceType::Queen) && bishop_attacks(sq, a, k) {
        lemma_diagonal_reaches(a, k);
        (diagonal_direction(a, k), abs_diff(a / 10, k / 10))
    } else {
        lemma_line_reaches(a, k);
        (rank_or_file_direction(a, k), line_steps(a, k))
    };
    assert(1 <= n <= 7);
    (d, n)
}

/// The squares between two squares on a line number one less than the
/// steps between them.
proof fn lemma_between_len(a: int, k: int, d: int, n: int)
    requires
        is_inner(a),
        is_inner(k),
        d != 0,
        d == diagonal_direction(a, k) && n == abs_diff(a / 10, k / 10) || d == rank_or_file_direction(a, k) && n == line_steps(
            a,
            k,
        ),
        n >= 1,
    ensures
        squares_between(a, k).len() == n - 1,
{
    lemma_row_column(a);
    lemma_row_column(k);
}

/// A square that the blocking line of a check holds is the checking
/// piece's square or, for a slider, the square some steps along its
/// attack ray short of the king.
proof fn lemma_blocking_square(sq: Seq<Piece>, p: Piece, a: int, k: int, t: int, color: Color) -> (r: (int, int, int))
    requires
        is_inner(a),
        is_inner(k),
        0 <= t < 120,
        piece_attacks(sq, p.kind(), a, k, color),
        blocking_line((p, a as i16), k as i16).contains(t as i16),
    ensures
        t == a || {
            &&& p.kind() == PieceType::Queen || p.kind() == PieceType::Rook || p.kind() == PieceType::Bishop
            &&& r.0 != 0
            &&& is_dir(r.0)
            &&& a + r.1 * r.0 == k
            &&& 1 <= r.2 < r.1 <= 7
            &&& t == ray_square(a, r.0, r.2)
            &&& ray_clear(sq, a, r.0, r.1)
        },
{
    let blocking = blocking_line((p, a as i16), k as i16);
    let i = choose|i: int| 0 <= i < blocking.len() && blocking[i] == t as i16;
    if p.kind() == PieceType::Queen || p.kind() == PieceType::Rook || p.kind() == PieceType::Bishop {
        let (d, n) = lemma_attack_ray(sq, p.kind(), a, k, color);
        let between = squares_between(a, k);
        assert(blocking == seq![a as i16] + between);
        if i == 0 {
            (d, n, 0)
        } else {
            lemma_between_len(a, k, d, n);
            lemma_between_index(a, k, d, n, i);
            assert(between[i - 1] == t as i16);
            lemma_ray_between(a, k, d, n, i);
            (d, n, i)
        }
    } else {
        (0, 0, 0)
    }
}

/// No square meets the checks of two enemy pieces on different squares at
/// once: it cannot be one checking piece's square and stand between the
/// other and the king (that piece would block the check), nor stand
/// between both and the king (two rays from the king meet only there).
proof fn lemma_double_check_unblockable(sq: Seq<Piece>, k: int, p1: Piece, a1: int, p2: Piece, a2: int, t: int, color: Color)
    requires
        is_inner(k),
        is_inner(a1),
        is_inner(a2),
        a1 != a2,
        sq[a1] != Piece::EmptySquare,
        sq[a2] != Piece::EmptySquare,
        piece_attacks(sq, p1.kind(), a1, k, color),
        piece_attacks(sq, p2.kind(), a2, k, color),
        0 <= t < 120,
    ensures
        !blocking_line((p1, a1 as i16), k as i16).contains(t as i16) || !blocking_line((p2, a2 as i16), k as i16).contains(
            t as i16,
        ),
{
    if blocking_line((p1, a1 as i16), k as i16).contains(t as i16) && blocking_line((p2, a2 as i16), k as i16).contains(t as i16) {
        let (d1, n1, j1) = lemma_blocking_square(sq, p1, a1, k, t, color);
        let (d2, n2, j2) = lemma_blocking_square(sq, p2, a2, k, t, color);
        if t == a1 {
            assert(sq[ray_square(a2, d2, j2)] == Piece::EmptySquare);
        } else if t == a2 {
            assert(sq[ray_square(a1, d1, j1)] == Piece::EmptySquare);
        } else {
            let u1 = n1 - j1;
            let u2 = n2 - j2;
            assert(u1 * d1 == u2 * d2) by (nonlinear_arith)
                requires
                    t == a1 + j1 * d1,
                    t == a2 + j2 * d2,
                    k == a1 + n1 * d1,
                    k == a2 + n2 * d2,
                    u1 == n1 - j1,
                    u2 == n2 - j2,
            ;
            if d1 == d2 {
                assert(n1 != n2) by (nonlinear_arith)
                    requires
                        k == a1 + n1 * d1,
                        k == a2 + n2 * d1,
                        a1 != a2,
                ;
                if n1 < n2 {
                    assert(a1 == ray_square(a2, d1, n2 - n1)) by (nonlinear_arith)
                        requires
                            k == a1 + n1 * d1,
                            k == a2 + n2 * d1,
                    ;
                    assert(sq[ray_square(a2, d2, n2 - n1)] == Piece::EmptySquare);
                } else {
                    assert(a2 == ray_square(a1, d1, n1 - n2)) by (nonlinear_arith)
                        requires
                            k == a1 + n1 * d1,
                            k == a2 + n2 * d1,
                    ;
                    assert(sq[ray_square(a1, d1, n1 - n2)] == Piece::EmptySquare);
                }
            } else if d1 == -d2 {
                assert(false) by (nonlinear_arith)
                    requires
                        u1 * d1 == u2 * d2,
                        d1 == -d2,
                        d1 != 0,
                        u1 >= 1,
                        u2 >= 1,
                ;
            } else {
                lemma_not_parallel(d1, d2, u1, u2);
            }
        }
    }
}

/// In check by two pieces or more, every move of another piece than the
/// king leaves the king attacked: no square meets both checks.
#[verifier::rlimit(30)]
pub proof fn lemma_double_check_exposes(
    b: ChessBoard,
    sq1: Seq<Piece>,
    pl1: PieceList,
    color: Color,
    s: int,
    t: int,
    piece: Piece,
)
    requires
        b.wf(),
        checking_pieces(b.board_squares@, b.piece_list, color).len() >= 2,
        is_inner(s),
        b.board_squares@[s].is_piece(),
        b.board_squares@[s].color() == color,
        0 <= t < 120,
        sq1 == b.board_squares@.update(t, piece).update(s, Piece::EmptySquare),
        lists_match_squares(sq1, pl1),
    ensures
        king_square(b.piece_list, color) matches Some(k) && square_attacked(sq1, pl1, k as int, color.spec_opposite()),
{
    let pl = b.piece_list;
    let sq0 = b.board_squares@;
    let opp = color.spec_opposite();
    let checks = checking_pieces(sq0, pl, color);
    let k16 = king_square(pl, color)->0;
    let k = k16 as int;
    let king = king_of(color);
    assert(pl.list(king).len() > 0);
    assert(sorted_inner(pl.list(king)));
    assert(is_inner(k));
    lemma_attackers_attack(sq0, pl, k, opp, 6);
    lemma_attackers_upto_distinct(sq0, pl, k, opp, 6);
    assert(checks[0] != checks[1]);
    let (p0, a016) = checks[0];
    let (p1, a116) = checks[1];
    let a0 = a016 as int;
    let a1 = a116 as int;
    let i0 = choose|i: int| 0 <= i < pl.list(p0).len() && pl.list(p0)[i] == a016;
    let i1 = choose|i: int| 0 <= i < pl.list(p1).len() && pl.list(p1)[i] == a116;
    assert(sorted_inner(pl.list(p0)));
    assert(sorted_inner(pl.list(p1)));
    assert(is_inner(a0) && is_inner(a1));
    assert(sq0[a0] == p0);
    assert(sq0[a1] == p1);
    assert(a0 != a1);
    lemma_double_check_unblockable(sq0, k, p0, a0, p1, a1, t, opp);
    if !blocking_line((p0, a016), k16).contains(t as i16) {
        assert(blocking_line((p0, a016), k16)[0] == a016);
        assert(t != a0);
        lemma_unaddressed_check(b, sq1, pl1, color, k, p0, a0, s, t, piece);
    } else {
        assert(blocking_line((p1, a116), k16)[0] == a116);
        assert(t != a1);
        lemma_unaddressed_check(b, sq1, pl1, color, k, p1, a1, s, t, piece);
    }
}

} // verus!
