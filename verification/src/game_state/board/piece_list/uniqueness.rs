//! No two generated moves share origin, target and promotion.
use vstd::prelude::*;
use crate::game_state::board::{is_inner, ChessBoard};
use crate::game_state::board::moves::Move;
use crate::game_state::board::piece::{Color, Piece};
use crate::game_state::board::piece_list::attacks::ray_square;
use crate::game_state::board::piece_list::legality::{
    is_dir, dir_col, dir_row, lemma_dir_parts, lemma_empty_prefix_inner, lemma_ray_coords, lemma_ray_injective,
    lemma_rays_shape, lemma_ray_stops, lemma_scaled_steps, lemma_slide_target, lemma_stop_prefix_on_board,
};
use crate::game_state::board::piece_list::rays::along;
use crate::game_state::board::piece_list::pins::pins;
use crate::game_state::board::piece_list::attacks::{checking_pieces, king_square};
use crate::game_state::board::piece_list::{sorted_inner, PieceList};
use crate::game_state::board::piece_list::movegen::{piece_moves, pseudo_legal_moves, legal_moves, evasion_moves, blocking_line, castling_moves, king_of, queen_of, rook_of, bishop_of, knight_of, pawn_of, pawn_moves, pawn_moves_for, pawn_moves_to, pawn_capture_moves, pawn_capture_allowed, en_passant_moves, pawn_dir, pawn_move, double_push_row, promotion_choices, king_moves, knight_moves, king_offsets, knight_offsets, queen_rays, rook_rays, bishop_rays, king_steps, step_moves, allowed_rays, slider_moves, lemma_ray_stop, moves_over_rays, plain_move, ray_stop, slide_moves, stops_at};

verus! {

/// Two moves share origin, target and promotion.
pub open spec fn same_key(a: Move, b: Move) -> bool {
    a.from == b.from && a.to == b.to && a.promotion == b.promotion
}

/// No two moves of the list share origin, target and promotion.
pub open spec fn keys_distinct(ms: Seq<Move>) -> bool {
    forall|i: int, j: int| 0 <= i < j < ms.len() ==> !same_key(#[trigger] ms[i], #[trigger] ms[j])
}

/// No move of one list shares origin, target and promotion with a move of
/// the other.
pub open spec fn keys_apart(a: Seq<Move>, b: Seq<Move>) -> bool {
    forall|x: Move, y: Move| #[trigger] a.contains(x) && #[trigger] b.contains(y) ==> !same_key(x, y)
}

/// Every move of the list starts on `s`.
pub open spec fn all_from(ms: Seq<Move>, s: int) -> bool {
    forall|m: Move| #[trigger] ms.contains(m) ==> m.from as int == s
}

/// Every move of the list starts on one of `squares`.
pub open spec fn froms_in(ms: Seq<Move>, squares: Seq<i16>) -> bool {
    forall|m: Move| #[trigger] ms.contains(m) ==> squares.contains(m.from)
}

/// Two lists whose keys are distinct and apart make a list whose keys are
/// distinct.
proof fn lemma_distinct_concat(a: Seq<Move>, b: Seq<Move>)
    requires
        keys_distinct(a),
        keys_distinct(b),
        keys_apart(a, b),
    ensures
        keys_distinct(a + b),
{
    let c = a + b;
    assert forall|i: int, j: int| 0 <= i < j < c.len() implies !same_key(#[trigger] c[i], #[trigger] c[j]) by {
        if j < a.len() {
            assert(c[i] == a[i] && c[j] == a[j]);
        } else if i >= a.len() {
            assert(c[i] == b[i - a.len()] && c[j] == b[j - a.len()]);
        } else {
            assert(c[i] == a[i] && c[j] == b[j - a.len()]);
            assert(a.contains(a[i]));
            assert(b.contains(b[j - a.len()]));
        }
    }
}

/// A move of a concatenation is a move of one of its parts.
proof fn lemma_concat_contains(a: Seq<Move>, b: Seq<Move>, m: Move)
    requires
        (a + b).contains(m),
    ensures
        a.contains(m) || b.contains(m),
{
    let i = choose|i: int| 0 <= i < (a + b).len() && (a + b)[i] == m;
    if i < a.len() {
        assert(a[i] == m);
    } else {
        assert(b[i - a.len()] == m);
    }
}

/// Keeping some moves of a list keeps its keys distinct.
proof fn lemma_distinct_filter(ms: Seq<Move>, p: spec_fn(Move) -> bool)
    requires
        keys_distinct(ms),
    ensures
        keys_distinct(ms.filter(p)),
    decreases ms.len(),
{
    if ms.len() > 0 {
        let init = ms.drop_last();
        let last = ms.last();
        assert(keys_distinct(init)) by {
            assert forall|i: int, j: int| 0 <= i < j < init.len() implies !same_key(#[trigger] init[i], #[trigger] init[j]) by {
                assert(init[i] == ms[i] && init[j] == ms[j]);
            }
        }
        lemma_distinct_filter(init, p);
        assert(ms == init.push(last));
        init.lemma_filter_push(last, p);
        if p(last) {
            let f = init.filter(p);
            assert forall|i: int, j: int| 0 <= i < j < f.push(last).len() implies !same_key(
                #[trigger] f.push(last)[i],
                #[trigger] f.push(last)[j],
            ) by {
                if j == f.len() {
                    assert(f.push(last)[i] == f[i]);
                    assert(f.contains(f[i]));
                    init.lemma_filter_contains_rev(p, f[i]);
                    let k = choose|k: int| 0 <= k < init.len() && init[k] == f[i];
                    assert(ms[k] == init[k]);
                    assert(ms[ms.len() - 1] == last);
                } else {
                    assert(f.push(last)[i] == f[i] && f.push(last)[j] == f[j]);
                }
            }
        }
    }
}

/// The moves of a slide along one ray reach distinct squares.
proof fn lemma_slide_distinct(b: ChessBoard, s: int, d: int, piece: Piece, color: Color)
    requires
        b.frame_ok(),
        b.board_squares@.len() == 120,
        is_dir(d),
        is_inner(s),
    ensures
        keys_distinct(slide_moves(b, s, d, piece, color)),
        all_from(slide_moves(b, s, d, piece, color), s),
{
    let sq = b.board_squares@;
    lemma_ray_stops(b, s, d);
    let n0 = choose|n: int| 1 <= n <= 8 && #[trigger] stops_at(sq, s, d, n) && 0 <= ray_square(s, d, n) < 120;
    lemma_ray_stop(sq, s, d, n0);
    let n = ray_stop(sq, s, d);
    assert(n == n0);
    let ms = slide_moves(b, s, d, piece, color);
    let quiet = Seq::new((n - 1) as nat, |i: int| plain_move(b, s, ray_square(s, d, i + 1), piece));
    assert forall|i: int, j: int| 0 <= i < j < ms.len() implies !same_key(#[trigger] ms[i], #[trigger] ms[j]) by {
        assert(j >= 1);
        assert(n - 1 >= j);
        lemma_stop_prefix_on_board(b, s, d, n, i + 1);
        lemma_stop_prefix_on_board(b, s, d, n, j + 1);
        assert(ms[i].to as int == ray_square(s, d, i + 1));
        assert(ms[j].to as int == ray_square(s, d, j + 1));
        lemma_ray_injective(s, d, i + 1, j + 1);
    }
    assert forall|m: Move| #[trigger] ms.contains(m) implies m.from as int == s by {
        let i = choose|i: int| 0 <= i < ms.len() && ms[i] == m;
        if i < quiet.len() {
            assert(ms[i] == quiet[i]);
        }
    }
}

/// Every direction of the list is a ray direction, and none comes twice.
pub open spec fn distinct_dirs(rays: Seq<i16>) -> bool {
    &&& rays.no_duplicates()
    &&& forall|k: int| 0 <= k < rays.len() ==> is_dir(#[trigger] rays[k] as int)
}

/// Two slides from one square over empty squares that reach the same
/// square run in the same direction.
proof fn lemma_same_target_same_dir(b: ChessBoard, s: int, v: int, w: int, a1: int, b1: int)
    requires
        b.frame_ok(),
        b.board_squares@.len() == 120,
        is_inner(s),
        is_dir(v),
        is_dir(w),
        a1 >= 1,
        b1 >= 1,
        forall|i: int| 1 <= i < a1 ==> #[trigger] b.board_squares@[ray_square(s, v, i)] == Piece::EmptySquare,
        forall|i: int| 1 <= i < b1 ==> #[trigger] b.board_squares@[ray_square(s, w, i)] == Piece::EmptySquare,
        ray_square(s, v, a1) == ray_square(s, w, b1),
    ensures
        v == w,
{
    lemma_empty_prefix_inner(b, s, v, a1);
    lemma_empty_prefix_inner(b, s, w, b1);
    lemma_ray_coords(s, v, a1);
    lemma_ray_coords(s, w, b1);
    lemma_dir_parts(v);
    lemma_dir_parts(w);
    lemma_scaled_steps(a1, b1, dir_row(v), dir_row(w));
    lemma_scaled_steps(a1, b1, dir_col(v), dir_col(w));
}

/// The moves of a slider on one square along distinct directions have
/// distinct keys.
proof fn lemma_rays_distinct(b: ChessBoard, s: int, rays: Seq<i16>, piece: Piece, color: Color)
    requires
        b.frame_ok(),
        b.board_squares@.len() == 120,
        is_inner(s),
        distinct_dirs(rays),
    ensures
        keys_distinct(moves_over_rays(b, s, rays, piece, color)),
        all_from(moves_over_rays(b, s, rays, piece, color), s),
    decreases rays.len(),
{
    if rays.len() > 0 {
        let init = rays.drop_last();
        let d = rays.last() as int;
        assert(distinct_dirs(init)) by {
            assert forall|k: int| 0 <= k < init.len() implies is_dir(#[trigger] init[k] as int) by {
                assert(init[k] == rays[k]);
            }
        }
        assert(is_dir(rays[rays.len() - 1] as int));
        lemma_rays_distinct(b, s, init, piece, color);
        lemma_slide_distinct(b, s, d, piece, color);
        let prev = moves_over_rays(b, s, init, piece, color);
        let last = slide_moves(b, s, d, piece, color);
        assert(moves_over_rays(b, s, rays, piece, color) == prev + last);
        assert forall|x: Move, y: Move| #[trigger] prev.contains(x) && #[trigger] last.contains(y) implies !same_key(x, y) by {
            lemma_rays_shape(b, s, init, piece, color, x);
            let r = choose|r: int| 0 <= r < init.len() && #[trigger] slide_moves(b, s, init[r] as int, piece, color).contains(x);
            let v = init[r] as int;
            assert(init[r] == rays[r]);
            assert(is_dir(rays[r] as int));
            let tx = lemma_slide_target(b, s, v, piece, color, x);
            let ty = lemma_slide_target(b, s, d, piece, color, y);
            if x.to == y.to {
                let jx = choose|jm: int|
                    #![trigger ray_square(s, v, jm)]
                    jm >= 1 && tx == ray_square(s, v, jm) && (forall|i: int|
                        1 <= i < jm ==> #[trigger] b.board_squares@[ray_square(s, v, i)] == Piece::EmptySquare);
                let jy = choose|jm: int|
                    #![trigger ray_square(s, d, jm)]
                    jm >= 1 && ty == ray_square(s, d, jm) && (forall|i: int|
                        1 <= i < jm ==> #[trigger] b.board_squares@[ray_square(s, d, i)] == Piece::EmptySquare);
                assert(tx == ty);
                lemma_same_target_same_dir(b, s, v, d, jx, jy);
                assert(rays[r] == rays[rays.len() - 1]);
            }
        }
        lemma_distinct_concat(prev, last);
        assert forall|m: Move| #[trigger] (prev + last).contains(m) implies m.from as int == s by {
            lemma_concat_contains(prev, last, m);
        }
    }
}

/// Keeping some directions of a list of distinct directions leaves them
/// distinct.
proof fn lemma_filter_distinct_dirs(rays: Seq<i16>, p: spec_fn(i16) -> bool)
    requires
        distinct_dirs(rays),
    ensures
        distinct_dirs(rays.filter(p)),
    decreases rays.len(),
{
    if rays.len() > 0 {
        let init = rays.drop_last();
        let last = rays.last();
        assert(distinct_dirs(init)) by {
            assert forall|k: int| 0 <= k < init.len() implies is_dir(#[trigger] init[k] as int) by {
                assert(init[k] == rays[k]);
            }
            assert forall|i: int, j: int| 0 <= i < init.len() && 0 <= j < init.len() && i != j implies init[i] != init[j] by {
                assert(init[i] == rays[i] && init[j] == rays[j]);
            }
        }
        lemma_filter_distinct_dirs(init, p);
        assert(rays == init.push(last));
        init.lemma_filter_push(last, p);
        let f = init.filter(p);
        assert forall|k: int| 0 <= k < f.len() implies init.contains(#[trigger] f[k]) by {
            assert(f.contains(f[k]));
            init.lemma_filter_contains_rev(p, f[k]);
        }
        assert(is_dir(rays[rays.len() - 1] as int));
        if p(last) {
            let g = f.push(last);
            assert forall|k: int| 0 <= k < g.len() implies is_dir(#[trigger] g[k] as int) by {
                if k < f.len() {
                    assert(g[k] == f[k]);
                    assert(init.contains(f[k]));
                }
            }
            assert forall|i: int, j: int| 0 <= i < g.len() && 0 <= j < g.len() && i != j implies g[i] != g[j] by {
                if i < f.len() && j < f.len() {
                    assert(g[i] == f[i] && g[j] == f[j]);
                } else if i < f.len() {
                    assert(g[i] == f[i]);
                    assert(init.contains(f[i]));
                    let k = choose|k: int| 0 <= k < init.len() && init[k] == f[i];
                    assert(rays[k] == init[k]);
                    assert(rays[rays.len() - 1] == last);
                } else if j < f.len() {
                    assert(g[j] == f[j]);
                    assert(init.contains(f[j]));
                    let k = choose|k: int| 0 <= k < init.len() && init[k] == f[j];
                    assert(rays[k] == init[k]);
                    assert(rays[rays.len() - 1] == last);
                }
            }
        }
    }
}

/// The directions a piece may use keep the directions distinct.
proof fn lemma_allowed_distinct(rays: Seq<i16>, pins: Map<i16, i16>, s: i16)
    requires
        distinct_dirs(rays),
    ensures
        distinct_dirs(allowed_rays(rays, pins, s)),
{
    if pins.contains_key(s) {
        lemma_filter_distinct_dirs(rays, |d: i16| along(d, pins[s]));
    }
}

/// The moves of the sliders on sorted squares have distinct keys and start
/// on those squares.
proof fn lemma_sliders_distinct(b: ChessBoard, squares: Seq<i16>, pins: Map<i16, i16>, rays: Seq<i16>, piece: Piece, color: Color)
    requires
        b.frame_ok(),
        b.board_squares@.len() == 120,
        sorted_inner(squares),
        distinct_dirs(rays),
    ensures
        keys_distinct(slider_moves(b, squares, pins, rays, piece, color)),
        froms_in(slider_moves(b, squares, pins, rays, piece, color), squares),
    decreases squares.len(),
{
    if squares.len() > 0 {
        let init = squares.drop_last();
        let s = squares.last();
        assert(sorted_inner(init)) by {
            assert forall|i: int| 0 <= i < init.len() implies is_inner(#[trigger] init[i] as int) by {
                assert(init[i] == squares[i]);
            }
        }
        assert(is_inner(squares[squares.len() - 1] as int));
        lemma_sliders_distinct(b, init, pins, rays, piece, color);
        lemma_allowed_distinct(rays, pins, s);
        let ar = allowed_rays(rays, pins, s);
        lemma_rays_distinct(b, s as int, ar, piece, color);
        let prev = slider_moves(b, init, pins, rays, piece, color);
        let last = moves_over_rays(b, s as int, ar, piece, color);
        assert(slider_moves(b, squares, pins, rays, piece, color) == prev + last);
        assert forall|x: Move, y: Move| #[trigger] prev.contains(x) && #[trigger] last.contains(y) implies !same_key(x, y) by {
            let k = choose|k: int| 0 <= k < init.len() && init[k] == x.from;
            assert(squares[k] == init[k]);
            assert(squares[k] < squares[squares.len() - 1]);
        }
        lemma_distinct_concat(prev, last);
        assert forall|m: Move| #[trigger] (prev + last).contains(m) implies squares.contains(m.from) by {
            lemma_concat_contains(prev, last, m);
            if prev.contains(m) {
                let k = choose|k: int| 0 <= k < init.len() && init[k] == m.from;
                assert(squares[k] == init[k]);
            } else {
                assert(squares[squares.len() - 1] == s);
            }
        }
    }
}

/// The offsets of the list are small and none comes twice.
pub open spec fn distinct_offsets(offsets: Seq<int>) -> bool {
    &&& offsets.no_duplicates()
    &&& forall|k: int| 0 <= k < offsets.len() ==> -21 <= #[trigger] offsets[k] <= 21
}

/// The steps of a piece on `s` have distinct keys, start on `s` and end an offset away.
proof fn lemma_steps_distinct(b: ChessBoard, s: int, offsets: Seq<int>, piece: Piece, color: Color)
    requires
        is_inner(s),
        distinct_offsets(offsets),
    ensures
        keys_distinct(step_moves(b, s, offsets, piece, color)),
        all_from(step_moves(b, s, offsets, piece, color), s),
        forall|m: Move| #[trigger] step_moves(b, s, offsets, piece, color).contains(m) ==> exists|k: int|
            0 <= k < offsets.len() && m.to as int == s + offsets[k],
    decreases offsets.len(),
{
    if offsets.len() > 0 {
        let init = offsets.drop_last();
        assert(distinct_offsets(init)) by {
            assert forall|k: int| 0 <= k < init.len() implies -21 <= #[trigger] init[k] <= 21 by {
                assert(init[k] == offsets[k]);
            }
            assert forall|i: int, j: int| 0 <= i < init.len() && 0 <= j < init.len() && i != j implies init[i] != init[j] by {
                assert(init[i] == offsets[i] && init[j] == offsets[j]);
            }
        }
        lemma_steps_distinct(b, s, init, piece, color);
        let prev = step_moves(b, s, init, piece, color);
        let all = step_moves(b, s, offsets, piece, color);
        let t = s + offsets.last();
        assert(-21 <= offsets[offsets.len() - 1] <= 21);
        if all != prev {
            let mv = plain_move(b, s, t, piece);
            assert(all == prev.push(mv));
            assert forall|i: int, j: int| 0 <= i < j < all.len() implies !same_key(#[trigger] all[i], #[trigger] all[j]) by {
                if j < prev.len() {
                    assert(all[i] == prev[i] && all[j] == prev[j]);
                } else {
                    assert(all[i] == prev[i]);
                    assert(prev.contains(prev[i]));
                    let k = choose|k: int| 0 <= k < init.len() && prev[i].to as int == s + init[k];
                    assert(init[k] == offsets[k]);
                    assert(all[j] == mv);
                }
            }
            assert forall|m: Move| #[trigger] all.contains(m) implies m.from as int == s && exists|k: int|
                0 <= k < offsets.len() && m.to as int == s + offsets[k] by {
                let i = choose|i: int| 0 <= i < all.len() && all[i] == m;
                if i < prev.len() {
                    assert(prev[i] == m);
                    assert(prev.contains(m));
                    let k = choose|k: int| 0 <= k < init.len() && m.to as int == s + init[k];
                    assert(init[k] == offsets[k]);
                } else {
                    assert(m.to as int == s + offsets[offsets.len() - 1]);
                }
            }
        } else {
            assert forall|m: Move| #[trigger] all.contains(m) implies exists|k: int|
                0 <= k < offsets.len() && m.to as int == s + offsets[k] by {
                let k = choose|k: int| 0 <= k < init.len() && m.to as int == s + init[k];
                assert(init[k] == offsets[k]);
            }
        }
    }
}

/// The steps of a king on `s` have distinct keys, start on `s` and end an offset away.
proof fn lemma_king_steps_distinct(b: ChessBoard, pl: PieceList, s: int, offsets: Seq<int>, piece: Piece, color: Color)
    requires
        is_inner(s),
        distinct_offsets(offsets),
    ensures
        keys_distinct(king_steps(b, pl, s, offsets, piece, color)),
        all_from(king_steps(b, pl, s, offsets, piece, color), s),
        forall|m: Move| #[trigger] king_steps(b, pl, s, offsets, piece, color).contains(m) ==> exists|k: int|
            0 <= k < offsets.len() && m.to as int == s + offsets[k],
    decreases offsets.len(),
{
    if offsets.len() > 0 {
        let init = offsets.drop_last();
        assert(distinct_offsets(init)) by {
            assert forall|k: int| 0 <= k < init.len() implies -21 <= #[trigger] init[k] <= 21 by {
                assert(init[k] == offsets[k]);
            }
            assert forall|i: int, j: int| 0 <= i < init.len() && 0 <= j < init.len() && i != j implies init[i] != init[j] by {
                assert(init[i] == offsets[i] && init[j] == offsets[j]);
            }
        }
        lemma_king_steps_distinct(b, pl, s, init, piece, color);
        let prev = king_steps(b, pl, s, init, piece, color);
        let all = king_steps(b, pl, s, offsets, piece, color);
        let t = s + offsets.last();
        assert(-21 <= offsets[offsets.len() - 1] <= 21);
        if all != prev {
            let mv = plain_move(b, s, t, piece);
            assert(all == prev.push(mv));
            assert forall|i: int, j: int| 0 <= i < j < all.len() implies !same_key(#[trigger] all[i], #[trigger] all[j]) by {
                if j < prev.len() {
                    assert(all[i] == prev[i] && all[j] == prev[j]);
                } else {
                    assert(all[i] == prev[i]);
                    assert(prev.contains(prev[i]));
                    let k = choose|k: int| 0 <= k < init.len() && prev[i].to as int == s + init[k];
                    assert(init[k] == offsets[k]);
                    assert(all[j] == mv);
                }
            }
            assert forall|m: Move| #[trigger] all.contains(m) implies m.from as int == s && exists|k: int|
                0 <= k < offsets.len() && m.to as int == s + offsets[k] by {
                let i = choose|i: int| 0 <= i < all.len() && all[i] == m;
                if i < prev.len() {
                    assert(prev[i] == m);
                    assert(prev.contains(m));
                    let k = choose|k: int| 0 <= k < init.len() && m.to as int == s + init[k];
                    assert(init[k] == offsets[k]);
                } else {
                    assert(m.to as int == s + offsets[offsets.len() - 1]);
                }
            }
        } else {
            assert forall|m: Move| #[trigger] all.contains(m) implies exists|k: int|
                0 <= k < offsets.len() && m.to as int == s + offsets[k] by {
                let k = choose|k: int| 0 <= k < init.len() && m.to as int == s + init[k];
                assert(init[k] == offsets[k]);
            }
        }
    }
}

/// The knight jumps and king steps are distinct small offsets; the queen,
/// rook and bishop directions are distinct ray directions.
proof fn lemma_tables_distinct()
    ensures
        distinct_offsets(knight_offsets()),
        distinct_offsets(king_offsets()),
        distinct_dirs(queen_rays()),
        distinct_dirs(rook_rays()),
        distinct_dirs(bishop_rays()),
{
    let n = knight_offsets();
    let k = king_offsets();
    let q = queen_rays();
    let r = rook_rays();
    let bi = bishop_rays();
    assert forall|i: int, j: int| 0 <= i < 8 && 0 <= j < 8 && i != j implies n[i] != n[j] && k[i] != k[j] && q[i] != q[j] by {}
    assert forall|i: int, j: int| 0 <= i < 4 && 0 <= j < 4 && i != j implies r[i] != r[j] && bi[i] != bi[j] by {}
}

/// The moves of the knights on sorted squares have distinct keys and start
/// on those squares.
proof fn lemma_knights_distinct(b: ChessBoard, squares: Seq<i16>, pins: Map<i16, i16>, piece: Piece, color: Color)
    requires
        sorted_inner(squares),
    ensures
        keys_distinct(knight_moves(b, squares, pins, piece, color)),
        froms_in(knight_moves(b, squares, pins, piece, color), squares),
    decreases squares.len(),
{
    if squares.len() > 0 {
        let init = squares.drop_last();
        let s = squares.last();
        assert(sorted_inner(init)) by {
            assert forall|i: int| 0 <= i < init.len() implies is_inner(#[trigger] init[i] as int) by {
                assert(init[i] == squares[i]);
            }
        }
        assert(is_inner(squares[squares.len() - 1] as int));
        lemma_knights_distinct(b, init, pins, piece, color);
        let prev = knight_moves(b, init, pins, piece, color);
        let all = knight_moves(b, squares, pins, piece, color);
        assert forall|m: Move| #[trigger] prev.contains(m) implies squares.contains(m.from) by {
            let k = choose|k: int| 0 <= k < init.len() && init[k] == m.from;
            assert(squares[k] == init[k]);
        }
        if !pins.contains_key(s) {
            lemma_tables_distinct();
            lemma_steps_distinct(b, s as int, knight_offsets(), piece, color);
            let last = step_moves(b, s as int, knight_offsets(), piece, color);
            assert(all == prev + last);
            assert forall|x: Move, y: Move| #[trigger] prev.contains(x) && #[trigger] last.contains(y) implies !same_key(x, y) by {
                let k = choose|k: int| 0 <= k < init.len() && init[k] == x.from;
                assert(squares[k] == init[k]);
                assert(squares[k] < squares[squares.len() - 1]);
            }
            lemma_distinct_concat(prev, last);
            assert forall|m: Move| #[trigger] (prev + last).contains(m) implies squares.contains(m.from) by {
                lemma_concat_contains(prev, last, m);
                if last.contains(m) {
                    assert(squares[squares.len() - 1] == s);
                }
            }
        }
    }
}

/// The moves of the kings on sorted squares have distinct keys, start on
/// those squares and end a king step away.
proof fn lemma_kings_distinct(b: ChessBoard, pl: PieceList, squares: Seq<i16>, piece: Piece, color: Color)
    requires
        sorted_inner(squares),
    ensures
        keys_distinct(king_moves(b, pl, squares, piece, color)),
        froms_in(king_moves(b, pl, squares, piece, color), squares),
        forall|m: Move| #[trigger] king_moves(b, pl, squares, piece, color).contains(m) ==> exists|k: int|
            0 <= k < king_offsets().len() && m.to as int == m.from as int + king_offsets()[k],
    decreases squares.len(),
{
    if squares.len() > 0 {
        let init = squares.drop_last();
        let s = squares.last();
        assert(sorted_inner(init)) by {
            assert forall|i: int| 0 <= i < init.len() implies is_inner(#[trigger] init[i] as int) by {
                assert(init[i] == squares[i]);
            }
        }
        assert(is_inner(squares[squares.len() - 1] as int));
        lemma_kings_distinct(b, pl, init, piece, color);
        lemma_tables_distinct();
        lemma_king_steps_distinct(b, pl, s as int, king_offsets(), piece, color);
        let prev = king_moves(b, pl, init, piece, color);
        let last = king_steps(b, pl, s as int, king_offsets(), piece, color);
        assert(king_moves(b, pl, squares, piece, color) == prev + last);
        assert forall|x: Move, y: Move| #[trigger] prev.contains(x) && #[trigger] last.contains(y) implies !same_key(x, y) by {
            let k = choose|k: int| 0 <= k < init.len() && init[k] == x.from;
            assert(squares[k] == init[k]);
            assert(squares[k] < squares[squares.len() - 1]);
        }
        lemma_distinct_concat(prev, last);
        assert forall|m: Move| #[trigger] (prev + last).contains(m) implies squares.contains(m.from) && exists|k: int|
            0 <= k < king_offsets().len() && m.to as int == m.from as int + king_offsets()[k] by {
            lemma_concat_contains(prev, last, m);
            if prev.contains(m) {
                let k = choose|k: int| 0 <= k < init.len() && init[k] == m.from;
                assert(squares[k] == init[k]);
            } else {
                assert(squares[squares.len() - 1] == s);
            }
        }
    }
}

/// Every move of the list ends on `t`.
pub open spec fn all_to(ms: Seq<Move>, t: int) -> bool {
    forall|m: Move| #[trigger] ms.contains(m) ==> m.to as int == t
}

/// A pawn's moves onto one square, promoting or not, have distinct keys.
proof fn lemma_pawn_to_distinct(b: ChessBoard, s: int, to: int, pawn: Piece, color: Color)
    requires
        0 <= s < 120,
        -20 <= to < 140,
    ensures
        keys_distinct(pawn_moves_to(b, s, to, pawn, color)),
        all_from(pawn_moves_to(b, s, to, pawn, color), s),
        all_to(pawn_moves_to(b, s, to, pawn, color), to),
{
    let ms = pawn_moves_to(b, s, to, pawn, color);
    let c = promotion_choices(color);
    assert forall|i: int, j: int| 0 <= i < j < ms.len() implies !same_key(#[trigger] ms[i], #[trigger] ms[j]) by {
        assert(ms[i].promotion == Some(c[i]) && ms[j].promotion == Some(c[j]));
        assert(c[i] != c[j]);
    }
    assert forall|m: Move| #[trigger] ms.contains(m) implies m.from as int == s && m.to as int == to by {
        let i = choose|i: int| 0 <= i < ms.len() && ms[i] == m;
    }
}

/// A pawn's captures onto one square have distinct keys.
proof fn lemma_pawn_capture_distinct(b: ChessBoard, pl: PieceList, s: int, to: int, beside: int, pawn: Piece, color: Color, allowed: bool)
    requires
        0 <= s < 120,
        -20 <= to < 140,
    ensures
        keys_distinct(pawn_capture_moves(b, pl, s, to, beside, pawn, color, allowed)),
        all_from(pawn_capture_moves(b, pl, s, to, beside, pawn, color, allowed), s),
        all_to(pawn_capture_moves(b, pl, s, to, beside, pawn, color, allowed), to),
{
    lemma_pawn_to_distinct(b, s, to, pawn, color);
    let ep = en_passant_moves(b, pl, s, to, beside, pawn, color);
    assert forall|m: Move| #[trigger] ep.contains(m) implies m.from as int == s && m.to as int == to by {
        let i = choose|i: int| 0 <= i < ep.len() && ep[i] == m;
    }
}

/// Lists of moves starting on `s` that end on different squares are apart.
proof fn lemma_apart_by_target(a: Seq<Move>, b: Seq<Move>)
    requires
        forall|x: Move, y: Move| #[trigger] a.contains(x) && #[trigger] b.contains(y) ==> x.to != y.to,
    ensures
        keys_apart(a, b),
{
}

/// The moves of one pawn have distinct keys and start on its square.
proof fn lemma_pawn_for_distinct(b: ChessBoard, pl: PieceList, pins: Map<i16, i16>, s: int, pawn: Piece, color: Color)
    requires
        is_inner(s),
    ensures
        keys_distinct(pawn_moves_for(b, pl, pins, s, pawn, color)),
        all_from(pawn_moves_for(b, pl, pins, s, pawn, color), s),
{
    let pinned = pins.contains_key(s as i16);
    let pin = pins[s as i16] as int;
    if !(pinned && (pin == 1 || pin == -1)) {
        let forward = !(pinned && (pin == 11 || pin == -9 || pin == 9 || pin == -11));
        let right = pawn_capture_allowed(pinned, pin, pawn_dir(color) + 1);
        let left = pawn_capture_allowed(pinned, pin, pawn_dir(color) - 1);
        let f = s + pawn_dir(color);
        let t = s + 2 * pawn_dir(color);
        let single = if forward && b.at(f) == Piece::EmptySquare {
            pawn_moves_to(b, s, f, pawn, color)
        } else {
            Seq::empty()
        };
        let double = if forward && s / 10 == double_push_row(color) && b.at(f) == Piece::EmptySquare
            && b.at(t) == Piece::EmptySquare {
            seq![pawn_move(b, s, t, pawn, None, false, Some(f as i16))]
        } else {
            Seq::empty()
        };
        let cr = pawn_capture_moves(b, pl, s, f + 1, s + 1, pawn, color, right);
        let cl = pawn_capture_moves(b, pl, s, f - 1, s - 1, pawn, color, left);
        assert(pawn_moves_for(b, pl, pins, s, pawn, color) == single + cr + cl + double);
        lemma_pawn_to_distinct(b, s, f, pawn, color);
        lemma_pawn_capture_distinct(b, pl, s, f + 1, s + 1, pawn, color, right);
        lemma_pawn_capture_distinct(b, pl, s, f - 1, s - 1, pawn, color, left);
        assert(all_to(single, f));
        assert(all_from(single, s));
        assert forall|m: Move| #[trigger] double.contains(m) implies m.from as int == s && m.to as int == t by {
            let i = choose|i: int| 0 <= i < double.len() && double[i] == m;
        }
        lemma_apart_by_target(single, cr);
        lemma_distinct_concat(single, cr);
        let a = single + cr;
        assert forall|m: Move| #[trigger] a.contains(m) implies m.from as int == s && (m.to as int == f || m.to as int
            == f + 1) by {
            lemma_concat_contains(single, cr, m);
        }
        lemma_apart_by_target(a, cl);
        lemma_distinct_concat(a, cl);
        let a2 = a + cl;
        assert forall|m: Move| #[trigger] a2.contains(m) implies m.from as int == s && (m.to as int == f || m.to as int
            == f + 1 || m.to as int == f - 1) by {
            lemma_concat_contains(a, cl, m);
        }
        lemma_apart_by_target(a2, double);
        lemma_distinct_concat(a2, double);
        assert forall|m: Move| #[trigger] (a2 + double).contains(m) implies m.from as int == s by {
            lemma_concat_contains(a2, double, m);
        }
    }
}

/// The moves of the pawns on sorted squares have distinct keys and start
/// on those squares.
proof fn lemma_pawns_distinct(b: ChessBoard, pl: PieceList, squares: Seq<i16>, pins: Map<i16, i16>, pawn: Piece, color: Color)
    requires
        sorted_inner(squares),
    ensures
        keys_distinct(pawn_moves(b, pl, squares, pins, pawn, color)),
        froms_in(pawn_moves(b, pl, squares, pins, pawn, color), squares),
    decreases squares.len(),
{
    if squares.len() > 0 {
        let init = squares.drop_last();
        let s = squares.last();
        assert(sorted_inner(init)) by {
            assert forall|i: int| 0 <= i < init.len() implies is_inner(#[trigger] init[i] as int) by {
                assert(init[i] == squares[i]);
            }
        }
        assert(is_inner(squares[squares.len() - 1] as int));
        lemma_pawns_distinct(b, pl, init, pins, pawn, color);
        lemma_pawn_for_distinct(b, pl, pins, s as int, pawn, color);
        let prev = pawn_moves(b, pl, init, pins, pawn, color);
        let last = pawn_moves_for(b, pl, pins, s as int, pawn, color);
        assert(pawn_moves(b, pl, squares, pins, pawn, color) == prev + last);
        assert forall|x: Move, y: Move| #[trigger] prev.contains(x) && #[trigger] last.contains(y) implies !same_key(x, y) by {
            let k = choose|k: int| 0 <= k < init.len() && init[k] == x.from;
            assert(squares[k] == init[k]);
            assert(squares[k] < squares[squares.len() - 1]);
        }
        lemma_distinct_concat(prev, last);
        assert forall|m: Move| #[trigger] (prev + last).contains(m) implies squares.contains(m.from) by {
            lemma_concat_contains(prev, last, m);
            if prev.contains(m) {
                let k = choose|k: int| 0 <= k < init.len() && init[k] == m.from;
                assert(squares[k] == init[k]);
            } else {
                assert(squares[squares.len() - 1] == s);
            }
        }
    }
}

/// Every move of the list starts on a square holding `p`.
pub open spec fn froms_hold(ms: Seq<Move>, b: ChessBoard, p: Piece) -> bool {
    forall|m: Move| #[trigger] ms.contains(m) ==> b.board_squares@[m.from as int] == p
}

/// Moves that start on the squares listed for a piece start on squares
/// holding it.
proof fn lemma_froms_hold(b: ChessBoard, ms: Seq<Move>, p: Piece)
    requires
        b.wf(),
        p.is_piece(),
        froms_in(ms, b.piece_list.list(p)),
    ensures
        froms_hold(ms, b, p),
{
    assert forall|m: Move| #[trigger] ms.contains(m) implies b.board_squares@[m.from as int] == p by {
        let l = b.piece_list.list(p);
        let i = choose|i: int| 0 <= i < l.len() && l[i] == m.from;
        assert(b.board_squares@[l[i] as int] == p);
    }
}

/// The moves of the pieces other than the king have distinct keys and start
/// on squares that do not hold the king.
proof fn lemma_piece_moves_distinct(b: ChessBoard, color: Color)
    requires
        b.wf(),
    ensures
        keys_distinct(piece_moves(b, b.piece_list, color)),
        forall|m: Move| #[trigger] piece_moves(b, b.piece_list, color).contains(m) ==> b.board_squares@[m.from as int]
            != king_of(color),
{
    let pl = b.piece_list;
    let pins = pins(b.board_squares@, pl, color);
    let q = queen_of(color);
    let r = rook_of(color);
    let bi = bishop_of(color);
    let n = knight_of(color);
    let p = pawn_of(color);
    let k = king_of(color);
    assert(sorted_inner(pl.list(q)) && sorted_inner(pl.list(r)) && sorted_inner(pl.list(bi)));
    assert(sorted_inner(pl.list(n)) && sorted_inner(pl.list(p)));
    lemma_tables_distinct();
    let sq = slider_moves(b, pl.list(q), pins, queen_rays(), q, color);
    let sr = slider_moves(b, pl.list(r), pins, rook_rays(), r, color);
    let sb = slider_moves(b, pl.list(bi), pins, bishop_rays(), bi, color);
    let kn = knight_moves(b, pl.list(n), pins, n, color);
    let pw = pawn_moves(b, pl, pl.list(p), pins, p, color);
    lemma_sliders_distinct(b, pl.list(q), pins, queen_rays(), q, color);
    lemma_sliders_distinct(b, pl.list(r), pins, rook_rays(), r, color);
    lemma_sliders_distinct(b, pl.list(bi), pins, bishop_rays(), bi, color);
    lemma_knights_distinct(b, pl.list(n), pins, n, color);
    lemma_pawns_distinct(b, pl, pl.list(p), pins, p, color);
    lemma_froms_hold(b, sq, q);
    lemma_froms_hold(b, sr, r);
    lemma_froms_hold(b, sb, bi);
    lemma_froms_hold(b, kn, n);
    lemma_froms_hold(b, pw, p);
    let a1 = sq + sr;
    lemma_distinct_concat(sq, sr);
    assert forall|m: Move| #[trigger] a1.contains(m) implies b.board_squares@[m.from as int] == q
        || b.board_squares@[m.from as int] == r by {
        lemma_concat_contains(sq, sr, m);
    }
    let a2 = a1 + sb;
    lemma_distinct_concat(a1, sb);
    assert forall|m: Move| #[trigger] a2.contains(m) implies b.board_squares@[m.from as int] == q
        || b.board_squares@[m.from as int] == r || b.board_squares@[m.from as int] == bi by {
        lemma_concat_contains(a1, sb, m);
    }
    let a3 = a2 + kn;
    lemma_distinct_concat(a2, kn);
    assert forall|m: Move| #[trigger] a3.contains(m) implies b.board_squares@[m.from as int] == q
        || b.board_squares@[m.from as int] == r || b.board_squares@[m.from as int] == bi
        || b.board_squares@[m.from as int] == n by {
        lemma_concat_contains(a2, kn, m);
    }
    lemma_distinct_concat(a3, pw);
    assert(piece_moves(b, pl, color) == a3 + pw);
    assert forall|m: Move| #[trigger] (a3 + pw).contains(m) implies b.board_squares@[m.from as int] != k by {
        lemma_concat_contains(a3, pw, m);
    }
}

/// The castling moves have distinct keys, start on the square of the king
/// and move it two squares.
proof fn lemma_castling_distinct(b: ChessBoard, color: Color)
    ensures
        keys_distinct(castling_moves(b, color)),
        forall|m: Move| #[trigger] castling_moves(b, color).contains(m) ==> b.board_squares@[m.from as int]
            == king_of(color) && (m.to as int == m.from as int + 2 || m.to as int == m.from as int - 2),
{
    let cm = castling_moves(b, color);
    assert forall|m: Move| #[trigger] cm.contains(m) implies b.board_squares@[m.from as int] == king_of(color) && (
    m.to as int == m.from as int + 2 || m.to as int == m.from as int - 2) by {
        let i = choose|i: int| 0 <= i < cm.len() && cm[i] == m;
    }
}

/// The moves of the king have distinct keys and start on its square.
proof fn lemma_king_moves_distinct(b: ChessBoard, color: Color)
    requires
        b.wf(),
    ensures
        keys_distinct(king_moves(b, b.piece_list, b.piece_list.list(king_of(color)), king_of(color), color)),
        froms_hold(king_moves(b, b.piece_list, b.piece_list.list(king_of(color)), king_of(color), color), b, king_of(color)),
        forall|m: Move| #[trigger] king_moves(b, b.piece_list, b.piece_list.list(king_of(color)), king_of(color), color).contains(m)
            ==> exists|j: int| 0 <= j < king_offsets().len() && m.to as int == m.from as int + king_offsets()[j],
{
    let pl = b.piece_list;
    let k = king_of(color);
    assert(sorted_inner(pl.list(k)));
    lemma_kings_distinct(b, pl, pl.list(k), k, color);
    lemma_froms_hold(b, king_moves(b, pl, pl.list(k), k, color), k);
}

/// Moves from squares holding `p` and moves from squares that do not are
/// apart.
proof fn lemma_apart_by_holder(a: Seq<Move>, c: Seq<Move>, b: ChessBoard, p: Piece)
    requires
        froms_hold(a, b, p),
        forall|m: Move| #[trigger] c.contains(m) ==> b.board_squares@[m.from as int] != p,
    ensures
        keys_apart(a, c),
{
}

/// With the king not in check, the pseudo-legal moves have distinct keys.
#[verifier::spinoff_prover]
#[verifier::rlimit(60)]
proof fn lemma_pseudo_legal_distinct(b: ChessBoard, color: Color)
    requires
        b.wf(),
    ensures
        keys_distinct(pseudo_legal_moves(b, b.piece_list, color)),
{
    let pl = b.piece_list;
    let k = king_of(color);
    let km = king_moves(b, pl, pl.list(k), k, color);
    let cm = castling_moves(b, color);
    let pm = piece_moves(b, pl, color);
    lemma_king_moves_distinct(b, color);
    lemma_castling_distinct(b, color);
    lemma_piece_moves_distinct(b, color);
    assert forall|x: Move, y: Move| #[trigger] km.contains(x) && #[trigger] cm.contains(y) implies !same_key(x, y) by {
        let j = choose|j: int| 0 <= j < king_offsets().len() && x.to as int == x.from as int + king_offsets()[j];
    }
    lemma_distinct_concat(km, cm);
    assert forall|m: Move| #[trigger] (km + cm).contains(m) implies b.board_squares@[m.from as int] == k by {
        lemma_concat_contains(km, cm, m);
    }
    lemma_apart_by_holder(km + cm, pm, b, k);
    lemma_distinct_concat(km + cm, pm);
    assert(pseudo_legal_moves(b, pl, color) =~= (km + cm) + pm);
}

/// The answers to a single check have distinct keys.
#[verifier::spinoff_prover]
#[verifier::rlimit(60)]
proof fn lemma_evasions_distinct(b: ChessBoard, attacker: (Piece, i16), color: Color)
    requires
        b.wf(),
    ensures
        keys_distinct(evasion_moves(b, b.piece_list, attacker, color)),
{
    let pl = b.piece_list;
    let k = king_of(color);
    let km = king_moves(b, pl, pl.list(k), k, color);
    let pm = piece_moves(b, pl, color);
    lemma_king_moves_distinct(b, color);
    lemma_piece_moves_distinct(b, color);
    match king_square(pl, color) {
        None => {},
        Some(ks) => {
            let blocking = blocking_line(attacker, ks);
            let pred = |m: Move| blocking.contains(m.to);
            lemma_distinct_filter(pm, pred);
            let f = pm.filter(pred);
            assert forall|m: Move| #[trigger] f.contains(m) implies b.board_squares@[m.from as int] != k by {
                pm.lemma_filter_contains_rev(pred, m);
            }
            lemma_apart_by_holder(km, f, b, k);
            assert forall|x: Move, y: Move| #[trigger] f.contains(x) && #[trigger] km.contains(y) implies !same_key(x, y) by {
                assert(km.contains(y) && f.contains(x));
            }
            lemma_distinct_concat(f, km);
            assert(evasion_moves(b, pl, attacker, color) == f + km);
        },
    }
}

/// No two generated moves share origin, target and promotion: each legal
/// move of `color` is the only one from its square to its target with its
/// promotion.
pub proof fn lemma_generated_moves_distinct(b: ChessBoard, color: Color)
    requires
        b.wf(),
    ensures
        keys_distinct(legal_moves(b, b.piece_list, color)),
{
    let checks = checking_pieces(b.board_squares@, b.piece_list, color);
    if checks.len() == 0 {
        lemma_pseudo_legal_distinct(b, color);
    } else if checks.len() == 1 {
        lemma_evasions_distinct(b, checks[0], color);
    } else {
        lemma_king_moves_distinct(b, color);
    }
}

} // verus!
