//! What a generated pawn move looks like, how a pawn keeps to its pin
//! line, and why an en passant capture the generator produces leaves the
//! mover's king unattacked.

use vstd::prelude::*;

use crate::game_state::board::{abs_diff, diagonal_direction, is_inner, made, rank_or_file_direction, ChessBoard};
use crate::game_state::board::piece::PieceType;
use crate::game_state::board::piece_list::attacks::{attackers, line_steps};
use crate::game_state::board::piece_list::legality::{is_dir, keeps_to_pin, lemma_attacked_has_attacker, lemma_pin_directions_valid};
use crate::game_state::board::piece_list::safety::{lemma_diagonal_reaches, lemma_line_reaches, lemma_ray_between};
use crate::game_state::board::piece::{Color, Piece};
use crate::game_state::board::moves::Move;
use crate::game_state::board::uci_roundtrip::details_from_board;
use crate::game_state::board::piece_list::{sorted_inner, PieceList};
use crate::game_state::board::piece_list::attacks::{checking_pieces, king_square, piece_attacks, ray_square, square_attacked};
use crate::game_state::board::piece_list::movegen::{
    double_push_row, en_passant_moves, is_enemy, king_of, pawn_capture_allowed, pawn_capture_moves, pawn_dir, pawn_move, pawn_moves, pawn_moves_for,
    pawn_moves_to, pawn_of, promotion_choices, promotion_row,
};
use crate::game_state::board::piece_list::pins::{pin_directions, pinned_along, pins, pins_upto};
use crate::game_state::board::piece_list::safety::lemma_in_concat;

verus! {

/// What a generated pawn move from `s` looks like: a push onto an empty
/// square, a double push over an empty square, a capture of an enemy one
/// file aside, or an en passant capture that leaves the king out of check
/// once both pawns are gone; a promotion turns the pawn into a piece of
/// its color.
pub open spec fn pawn_shape(b: ChessBoard, pl: PieceList, s: int, color: Color, m: Move) -> bool {
    let dir = pawn_dir(color);
    let to = m.to as int;
    &&& m.from as int == s
    &&& m.piece == pawn_of(color)
    &&& m.castling is None
    &&& (m.promotion matches Some(q) ==> q.is_piece() && q.color() == color)
    &&& !m.en_passant ==> {
        ||| to == s + dir && b.at(to) == Piece::EmptySquare
        ||| to == s + 2 * dir && b.at(s + dir) == Piece::EmptySquare && b.at(to) == Piece::EmptySquare
        ||| (to == s + dir + 1 || to == s + dir - 1) && is_enemy(b.at(to), color)
    }
    &&& m.en_passant ==> {
        &&& to == s + dir + 1 || to == s + dir - 1
        &&& m.promotion is None
        &&& b.at(to) == Piece::EmptySquare
        &&& b.at(to - dir) == pawn_of(color.spec_opposite())
        &&& checking_pieces(
            b.board_squares@.update(s, Piece::EmptySquare).update(to - dir, Piece::EmptySquare),
            pl,
            color,
        ).len() == 0
    }
}

/// A pawn move is a move of one listed pawn.
proof fn lemma_pawns_shape(b: ChessBoard, pl: PieceList, squares: Seq<i16>, pins: Map<i16, i16>, pawn: Piece, color: Color, m: Move)
    requires
        pawn_moves(b, pl, squares, pins, pawn, color).contains(m),
    ensures
        exists|idx: int|
            0 <= idx < squares.len() && #[trigger] pawn_moves_for(b, pl, pins, squares[idx] as int, pawn, color).contains(m),
    decreases squares.len(),
{
    let s = squares.last();
    let prev = pawn_moves(b, pl, squares.drop_last(), pins, pawn, color);
    let last = pawn_moves_for(b, pl, pins, s as int, pawn, color);
    let all = prev + last;
    let i = choose|i: int| 0 <= i < all.len() && all[i] == m;
    if i < prev.len() {
        assert(prev[i] == m);
        lemma_pawns_shape(b, pl, squares.drop_last(), pins, pawn, color, m);
        let idx = choose|idx: int|
            0 <= idx < squares.drop_last().len() && #[trigger] pawn_moves_for(
                b,
                pl,
                pins,
                squares.drop_last()[idx] as int,
                pawn,
                color,
            ).contains(m);
        assert(squares[idx] == squares.drop_last()[idx]);
    } else {
        assert(last[i - prev.len()] == m);
        assert(squares[squares.len() - 1] == s);
        assert(pawn_moves_for(b, pl, pins, squares[squares.len() - 1] as int, pawn, color).contains(m));
    }
}

/// A pawn's move onto one square goes there, possibly promoting to a
/// piece of its color.
proof fn lemma_pawn_to_shape(b: ChessBoard, s: int, to: int, color: Color, m: Move)
    requires
        pawn_moves_to(b, s, to, pawn_of(color), color).contains(m),
    ensures
        m == pawn_move(b, s, to, pawn_of(color), m.promotion, false, None),
        m.promotion matches Some(q) ==> q.is_piece() && q.color() == color,
{
    let ms = pawn_moves_to(b, s, to, pawn_of(color), color);
    let i = choose|i: int| 0 <= i < ms.len() && ms[i] == m;
    if to / 10 == promotion_row(color) {
        assert(m == pawn_move(b, s, to, pawn_of(color), Some(promotion_choices(color)[i]), false, None));
    }
}

/// The moves of one pawn have the shape of a pawn move.
#[verifier::rlimit(40)]
proof fn lemma_pawn_for_shape(b: ChessBoard, pl: PieceList, pins: Map<i16, i16>, s: int, color: Color, m: Move)
    requires
        is_inner(s),
        pawn_moves_for(b, pl, pins, s, pawn_of(color), color).contains(m),
    ensures
        pawn_shape(b, pl, s, color, m),
{
    let pawn = pawn_of(color);
    let pinned = pins.contains_key(s as i16);
    let pin = pins[s as i16] as int;
    let forward = !(pinned && (pin == 11 || pin == -9 || pin == 9 || pin == -11));
    let right = pawn_capture_allowed(pinned, pin, pawn_dir(color) + 1);
    let left = pawn_capture_allowed(pinned, pin, pawn_dir(color) - 1);
    let f = s + pawn_dir(color);
    let t = s + 2 * pawn_dir(color);
    let single = if forward && b.at(f) == Piece::EmptySquare {
        pawn_moves_to(b, s, f, pawn, color)
    } else {
        Seq::empty()
    };
    let double = if forward && s / 10 == double_push_row(color) && b.at(f) == Piece::EmptySquare && b.at(t)
        == Piece::EmptySquare {
        seq![pawn_move(b, s, t, pawn, None, false, Some(f as i16))]
    } else {
        Seq::empty()
    };
    let cr = pawn_capture_moves(b, pl, s, f + 1, s + 1, pawn, color, right);
    let cl = pawn_capture_moves(b, pl, s, f - 1, s - 1, pawn, color, left);
    assert(pawn_moves_for(b, pl, pins, s, pawn, color) == single + cr + cl + double);
    lemma_in_concat(single + cr + cl, double, m);
    if double.contains(m) {
        assert(m == pawn_move(b, s, t, pawn, None, false, Some(f as i16)));
    } else {
        lemma_in_concat(single + cr, cl, m);
        if cl.contains(m) {
            lemma_capture_shape(b, pl, s, f - 1, s - 1, color, left, m);
        } else {
            lemma_in_concat(single, cr, m);
            if cr.contains(m) {
                lemma_capture_shape(b, pl, s, f + 1, s + 1, color, right, m);
            } else {
                lemma_pawn_to_shape(b, s, f, color, m);
            }
        }
    }
}

/// Every move of the pawn on `s` to `to` goes to `to`.
proof fn lemma_pawn_to_target(b: ChessBoard, s: int, to: int, color: Color, m: Move)
    requires
        pawn_moves_to(b, s, to, pawn_of(color), color).contains(m),
    ensures
        m.to as int == to as i16 as int,
{
}

/// A capture one way by the pawn on `s` onto `to` goes to `to`.
proof fn lemma_capture_target(b: ChessBoard, pl: PieceList, s: int, to: int, beside: int, color: Color, allowed: bool, m: Move)
    requires
        pawn_capture_moves(b, pl, s, to, beside, pawn_of(color), color, allowed).contains(m),
    ensures
        allowed,
        m.to as int == to as i16 as int,
{
    if allowed && is_enemy(b.at(to), color) {
        lemma_pawn_to_target(b, s, to, color, m);
    } else if allowed {
        let ms = en_passant_moves(b, pl, s, to, beside, pawn_of(color), color);
        assert(ms.len() > 0);
        assert(ms[0] == m);
    }
}

/// A move of a pinned pawn stays on its pin line: it goes one or two
/// steps along it, either way.
#[verifier::rlimit(30)]
proof fn lemma_pawn_for_keeps_pin(b: ChessBoard, pl: PieceList, pins: Map<i16, i16>, s: int, color: Color, m: Move)
    requires
        is_inner(s),
        pawn_moves_for(b, pl, pins, s, pawn_of(color), color).contains(m),
        pins.contains_key(s as i16) ==> is_dir(pins[s as i16] as int),
    ensures
        pins.contains_key(s as i16) ==> {
            let pin = pins[s as i16] as int;
            let step = m.to as int - s;
            step == pin || step == -pin || step == 2 * pin || step == -2 * pin
        },
{
    let pawn = pawn_of(color);
    let pinned = pins.contains_key(s as i16);
    let pin = pins[s as i16] as int;
    let forward = !(pinned && (pin == 11 || pin == -9 || pin == 9 || pin == -11));
    let right = pawn_capture_allowed(pinned, pin, pawn_dir(color) + 1);
    let left = pawn_capture_allowed(pinned, pin, pawn_dir(color) - 1);
    let f = s + pawn_dir(color);
    let t = s + 2 * pawn_dir(color);
    let single = if forward && b.at(f) == Piece::EmptySquare {
        pawn_moves_to(b, s, f, pawn, color)
    } else {
        Seq::empty()
    };
    let double = if forward && s / 10 == double_push_row(color) && b.at(f) == Piece::EmptySquare && b.at(t)
        == Piece::EmptySquare {
        seq![pawn_move(b, s, t, pawn, None, false, Some(f as i16))]
    } else {
        Seq::empty()
    };
    let cr = pawn_capture_moves(b, pl, s, f + 1, s + 1, pawn, color, right);
    let cl = pawn_capture_moves(b, pl, s, f - 1, s - 1, pawn, color, left);
    if pinned {
        assert(is_dir(pin));
        assert(pawn_moves_for(b, pl, pins, s, pawn, color) == single + cr + cl + double);
        lemma_in_concat(single + cr + cl, double, m);
        if double.contains(m) {
            assert(m == pawn_move(b, s, t, pawn, None, false, Some(f as i16)));
        } else {
            lemma_in_concat(single + cr, cl, m);
            if cl.contains(m) {
                lemma_capture_target(b, pl, s, f - 1, s - 1, color, left, m);
            } else {
                lemma_in_concat(single, cr, m);
                if cr.contains(m) {
                    lemma_capture_target(b, pl, s, f + 1, s + 1, color, right, m);
                } else {
                    lemma_pawn_to_target(b, s, f, color, m);
                }
            }
        }
    }
}

/// A pawn step of one rank from an on-board square: one row further, and
/// not an en passant capture unless it is one of the two diagonal steps.
proof fn lemma_pawn_rows(s: int, t: int, color: Color)
    requires
        is_inner(s),
        t == s + pawn_dir(color) || t == s + pawn_dir(color) + 1 || t == s + pawn_dir(color) - 1,
    ensures
        t / 10 - s / 10 == 1 || s / 10 - t / 10 == 1,
        (s + 2 * pawn_dir(color)) / 10 - s / 10 == 2 || s / 10 - (s + 2 * pawn_dir(color)) / 10 == 2,
{
    let r = s / 10;
    let c = s % 10;
    assert(s == 10 * r + c);
    assert(1 <= c <= 8);
    if pawn_dir(color) == 10 {
        assert(t / 10 == r + 1);
        assert((s + 20) / 10 == r + 2);
    } else {
        assert(t / 10 == r - 1);
        assert((s - 20) / 10 == r - 2);
    }
}

/// The moves of one pawn carry the details the board gives to their origin
/// and target (see [`details_from_board`]).
#[verifier::rlimit(40)]
pub proof fn lemma_pawn_for_details(b: ChessBoard, pl: PieceList, pins: Map<i16, i16>, s: int, color: Color, m: Move)
    requires
        is_inner(s),
        pawn_moves_for(b, pl, pins, s, pawn_of(color), color).contains(m),
    ensures
        details_from_board(b, m),
        m.piece == pawn_of(color),
        m.from as int == s,
{
    let pawn = pawn_of(color);
    let pinned = pins.contains_key(s as i16);
    let pin = pins[s as i16] as int;
    let forward = !(pinned && (pin == 11 || pin == -9 || pin == 9 || pin == -11));
    let right = pawn_capture_allowed(pinned, pin, pawn_dir(color) + 1);
    let left = pawn_capture_allowed(pinned, pin, pawn_dir(color) - 1);
    let f = s + pawn_dir(color);
    let t = s + 2 * pawn_dir(color);
    let single = if forward && b.at(f) == Piece::EmptySquare {
        pawn_moves_to(b, s, f, pawn, color)
    } else {
        Seq::empty()
    };
    let double = if forward && s / 10 == double_push_row(color) && b.at(f) == Piece::EmptySquare && b.at(t)
        == Piece::EmptySquare {
        seq![pawn_move(b, s, t, pawn, None, false, Some(f as i16))]
    } else {
        Seq::empty()
    };
    let cr = pawn_capture_moves(b, pl, s, f + 1, s + 1, pawn, color, right);
    let cl = pawn_capture_moves(b, pl, s, f - 1, s - 1, pawn, color, left);
    assert(!(pinned && (pin == 1 || pin == -1)));
    assert(pawn_moves_for(b, pl, pins, s, pawn, color) == single + cr + cl + double);
    assert(pawn.is_piece() && pawn.kind() == PieceType::Pawn && pawn.color() == color);
    lemma_pawn_rows(s, f, color);
    lemma_pawn_rows(s, f + 1, color);
    lemma_pawn_rows(s, f - 1, color);
    lemma_in_concat(single + cr + cl, double, m);
    if double.contains(m) {
        assert(m == pawn_move(b, s, t, pawn, None, false, Some(f as i16)));
    } else {
        lemma_in_concat(single + cr, cl, m);
        if cl.contains(m) {
            lemma_capture_details(b, pl, s, f - 1, s - 1, color, left, m);
        } else {
            lemma_in_concat(single, cr, m);
            if cr.contains(m) {
                lemma_capture_details(b, pl, s, f + 1, s + 1, color, right, m);
            } else {
                let k = choose|k: int| 0 <= k < single.len() && single[k] == m;
                assert(m == pawn_move(b, s, f, pawn, m.promotion, false, None));
            }
        }
    }
}

/// A capture one way by the pawn on `s` carries the details the board
/// gives it.
proof fn lemma_capture_details(b: ChessBoard, pl: PieceList, s: int, to: int, beside: int, color: Color, allowed: bool, m: Move)
    requires
        is_inner(s),
        to == s + pawn_dir(color) + 1 || to == s + pawn_dir(color) - 1,
        beside == to - pawn_dir(color),
        to / 10 - s / 10 == 1 || s / 10 - to / 10 == 1,
        pawn_capture_moves(b, pl, s, to, beside, pawn_of(color), color, allowed).contains(m),
    ensures
        details_from_board(b, m),
        m.piece == pawn_of(color),
        m.from as int == s,
{
    let pawn = pawn_of(color);
    assert(pawn.is_piece() && pawn.kind() == PieceType::Pawn && pawn.color() == color);
    if is_enemy(b.at(to), color) {
        let ms = pawn_moves_to(b, s, to, pawn, color);
        let k = choose|k: int| 0 <= k < ms.len() && ms[k] == m;
        assert(m == pawn_move(b, s, to, pawn, m.promotion, false, None));
    } else {
        let ms = en_passant_moves(b, pl, s, to, beside, pawn, color);
        assert(ms.len() > 0);
        assert(ms[0] == m);
        assert(m == pawn_move(b, s, to, pawn, None, true, None));
    }
}

/// A pawn move from the pawn moves of `color` carries the details the board
/// gives it.
pub proof fn lemma_pawn_details(b: ChessBoard, color: Color, m: Move)
    requires
        b.wf(),
        pawn_moves(
            b,
            b.piece_list,
            b.piece_list.list(pawn_of(color)),
            pins(b.board_squares@, b.piece_list, color),
            pawn_of(color),
            color,
        ).contains(m),
    ensures
        details_from_board(b, m),
{
    let pl = b.piece_list;
    let pins = pins(b.board_squares@, pl, color);
    let pawns = pl.list(pawn_of(color));
    lemma_pawns_shape(b, pl, pawns, pins, pawn_of(color), color, m);
    let idx = choose|idx: int| 0 <= idx < pawns.len() && #[trigger] pawn_moves_for(b, pl, pins, pawns[idx] as int, pawn_of(color), color).contains(m);
    let s = pawns[idx] as int;
    assert(sorted_inner(pawns));
    assert(is_inner(s));
    lemma_pawn_for_details(b, pl, pins, s, color, m);
}

/// A capture one way by the pawn on `s` onto `to` has the shape of a pawn
/// move.
#[verifier::rlimit(30)]
proof fn lemma_capture_shape(b: ChessBoard, pl: PieceList, s: int, to: int, beside: int, color: Color, allowed: bool, m: Move)
    requires
        is_inner(s),
        to == s + pawn_dir(color) + 1 || to == s + pawn_dir(color) - 1,
        beside == to - pawn_dir(color),
        pawn_capture_moves(b, pl, s, to, beside, pawn_of(color), color, allowed).contains(m),
    ensures
        pawn_shape(b, pl, s, color, m),
{
    if is_enemy(b.at(to), color) {
        lemma_pawn_to_shape(b, s, to, color, m);
    } else {
        let ms = en_passant_moves(b, pl, s, to, beside, pawn_of(color), color);
        assert(ms.len() > 0);
        assert(ms[0] == m);
    }
}

/// The pins map every pinned square to one of the eight ray directions.
pub proof fn lemma_pins_upto_dirs(sq: Seq<Piece>, king: int, color: Color, n: int)
    requires
        n <= 8,
    ensures
        forall|q: i16| #[trigger] pins_upto(sq, king, color, n).contains_key(q) ==> is_dir(pins_upto(sq, king, color, n)[q] as int),
    decreases n,
{
    if n > 0 {
        lemma_pins_upto_dirs(sq, king, color, n - 1);
        lemma_pin_directions_valid(n - 1);
        let dn = pin_directions()[n - 1];
        let prev = pins_upto(sq, king, color, n - 1);
        match pinned_along(sq, king, dn, color) {
            Some((q0, d)) => {
                assert(d == dn as i16);
                assert forall|q: i16| #[trigger] prev.insert(q0, d).contains_key(q) implies is_dir(prev.insert(q0, d)[q] as int) by {
                    if q != q0 {
                        assert(prev.contains_key(q));
                    }
                }
            },
            None => {},
        }
    }
}

/// The move keeps its piece on the line it is pinned along, when it is
/// pinned: it goes one or two steps along that line, either way.
pub open spec fn keeps_pin_line(b: ChessBoard, color: Color, m: Move) -> bool {
    let pins = pins(b.board_squares@, b.piece_list, color);
    let pin = pins[m.from] as int;
    let step = m.to as int - m.from as int;
    pins.contains_key(m.from) ==> (step == pin || step == -pin || step == 2 * pin || step == -2 * pin)
}

/// A pawn move from the pawn moves of `color` is a move of a pawn on a
/// listed square, of the shape of a pawn move.
#[verifier::rlimit(30)]
pub proof fn lemma_pawn_source(b: ChessBoard, color: Color, m: Move) -> (s: int)
    requires
        b.wf(),
        pawn_moves(
            b,
            b.piece_list,
            b.piece_list.list(pawn_of(color)),
            pins(b.board_squares@, b.piece_list, color),
            pawn_of(color),
            color,
        ).contains(m),
    ensures
        is_inner(s),
        b.board_squares@[s] == pawn_of(color),
        pawn_shape(b, b.piece_list, s, color, m),
        keeps_pin_line(b, color, m),
{
    let pl = b.piece_list;
    let pins = pins(b.board_squares@, pl, color);
    let pawns = pl.list(pawn_of(color));
    lemma_pawns_shape(b, pl, pawns, pins, pawn_of(color), color, m);
    let idx = choose|idx: int| 0 <= idx < pawns.len() && #[trigger] pawn_moves_for(b, pl, pins, pawns[idx] as int, pawn_of(color), color).contains(m);
    let s = pawns[idx] as int;
    assert(sorted_inner(pawns));
    assert(is_inner(s));
    lemma_pawn_for_shape(b, pl, pins, s, color, m);
    if let Some(k) = king_square(pl, color) {
        lemma_pins_upto_dirs(b.board_squares@, k as int, color, 8);
    }
    assert(m.from as int == s);
    assert(s as i16 == m.from);
    lemma_pawn_for_keeps_pin(b, pl, pins, s, color, m);
    s
}

/// A pawn push or capture that keeps the pawn on its pin line keeps to
/// the pin in the sense of [`keeps_to_pin`]: one or two steps along the
/// line, the first over an empty square.
#[verifier::rlimit(30)]
pub proof fn lemma_pawn_keeps_to_pin(b: ChessBoard, color: Color, m: Move, s: int)
    requires
        b.wf(),
        is_inner(s),
        pawn_shape(b, b.piece_list, s, color, m),
        !m.en_passant,
        keeps_pin_line(b, color, m),
    ensures
        keeps_to_pin(b.board_squares@, pins(b.board_squares@, b.piece_list, color), s, m.to as int),
{
    let sq0 = b.board_squares@;
    let pins = pins(sq0, b.piece_list, color);
    let t = m.to as int;
    let dir = pawn_dir(color);
    if pins.contains_key(s as i16) {
        let k16 = king_square(b.piece_list, color)->0;
        lemma_pins_upto_dirs(sq0, k16 as int, color, 8);
        let pin = pins[s as i16] as int;
        assert(is_dir(pin));
        assert(m.from == s as i16);
        if t - s == pin {
            assert(ray_square(s, pin, 1) == t);
        } else if t - s == -pin {
            assert(ray_square(s, -pin, 1) == t);
        } else if t - s == 2 * pin {
            assert(t == s + 2 * dir);
            assert(ray_square(s, pin, 2) == t);
            assert(ray_square(s, pin, 1) == s + dir);
        } else {
            assert(t == s + 2 * dir);
            assert(ray_square(s, -pin, 2) == t);
            assert(ray_square(s, -pin, 1) == s + dir);
        }
    }
}

/// Filling a square that is not the attacker's blocks attacks and makes
/// none: an attack with `t` filled is an attack with `t` as it was.
#[verifier::rlimit(30)]
proof fn lemma_attack_after_fill(sq1: Seq<Piece>, sq2: Seq<Piece>, kind: PieceType, x: int, k: int, t: int, color: Color)
    requires
        sq1.len() == 120,
        sq2.len() == 120,
        0 <= x < 120,
        0 <= k < 120,
        forall|q: int| 0 <= q < 120 && q != t ==> sq1[q] == sq2[q],
        sq1[t] != Piece::EmptySquare,
        piece_attacks(sq1, kind, x, k, color),
    ensures
        piece_attacks(sq2, kind, x, k, color),
{
    let bd = diagonal_direction(x, k);
    let bn = abs_diff(x / 10, k / 10);
    let rd = rank_or_file_direction(x, k);
    let rn = line_steps(x, k);
    if (kind == PieceType::Bishop || kind == PieceType::Queen) && bd != 0 {
        lemma_diagonal_reaches(x, k);
        assert forall|j: int| 1 <= j < bn && sq1[ray_square(x, bd, j)] == Piece::EmptySquare implies #[trigger] sq2[ray_square(x, bd, j)]
            == Piece::EmptySquare by {
            lemma_ray_between(x, k, bd, bn, j);
        }
    }
    if (kind == PieceType::Rook || kind == PieceType::Queen) && rd != 0 {
        lemma_line_reaches(x, k);
        assert forall|j: int| 1 <= j < rn && sq1[ray_square(x, rd, j)] == Piece::EmptySquare implies #[trigger] sq2[ray_square(x, rd, j)]
            == Piece::EmptySquare by {
            lemma_ray_between(x, k, rd, rn, j);
        }
    }
}

/// After a generated en passant capture no enemy piece attacks the king: the generator tried the board with both pawns gone,
/// and the capturing pawn on its new square only blocks lines.
#[verifier::rlimit(40)]
pub proof fn lemma_en_passant_safe(b: ChessBoard, b1: ChessBoard, m: Move, color: Color, s: int)
    requires
        b.wf(),
        is_inner(s),
        b.board_squares@[s] == pawn_of(color),
        pawn_shape(b, b.piece_list, s, color, m),
        m.en_passant,
        made(b, b1, m),
    ensures
        king_square(b.piece_list, color) matches Some(k) ==> !square_attacked(
            b1.board_squares@,
            b1.piece_list,
            k as int,
            color.spec_opposite(),
        ),
{
    let pl = b.piece_list;
    let pl1 = b1.piece_list;
    let sq0 = b.board_squares@;
    let sq1 = b1.board_squares@;
    let opp = color.spec_opposite();
    let t = m.to as int;
    let dir = pawn_dir(color);
    let c = t - dir;
    let pawn = pawn_of(color);
    if let Some(k16) = king_square(pl, color) {
        let k = k16 as int;
        let king = king_of(color);
        assert(pl.list(king).len() > 0);
        assert(sorted_inner(pl.list(king)));
        assert(pl.list(king)[0] == k16);
        assert(is_inner(k));
        assert(sq0[k] == king);
        assert(0 <= t < 120);
        assert(m.en_passant_capture_square() == c);
        let sqm = sq0.update(s, Piece::EmptySquare).update(c, Piece::EmptySquare);
        assert(sq1 == sq0.update(c, Piece::EmptySquare).update(t, pawn).update(s, Piece::EmptySquare));
        if square_attacked(sq1, pl1, k, opp) {
            let (p, i) = choose|p: Piece, i: int|
                #![trigger pl1.list(p)[i]]
                p.is_piece() && p.color() == opp && 0 <= i < pl1.list(p).len() && piece_attacks(
                    sq1,
                    p.kind(),
                    pl1.list(p)[i] as int,
                    k,
                    opp,
                );
            let x = pl1.list(p)[i] as int;
            assert(sorted_inner(pl1.list(p)));
            assert(is_inner(x));
            assert(sq1[x] == p);
            assert(x != t && x != s && x != c);
            assert(sq0[x] == p);
            assert(pl.list(p).contains(x as i16));
            let j = choose|j: int| 0 <= j < pl.list(p).len() && pl.list(p)[j] == x as i16;
            assert forall|q: int| 0 <= q < 120 && q != t implies sq1[q] == sqm[q] by {}
            lemma_attack_after_fill(sq1, sqm, p.kind(), x, k, t, opp);
            assert(pl.list(p)[j] as int == x);
            assert(square_attacked(sqm, pl, k, opp));
            lemma_attacked_has_attacker(sqm, pl, k, opp);
            assert(checking_pieces(sqm, pl, color) == attackers(sqm, pl, k, opp));
        }
    }
}

} // verus!
