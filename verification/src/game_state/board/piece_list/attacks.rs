//! Attack detection: which squares a piece on a given square attacks, and
//! which pieces of a side attack a given square.

use vstd::prelude::*;

use crate::game_state::board::{is_inner, abs_diff, diagonal_direction, rank_or_file_direction, ChessBoard};
use crate::game_state::board::piece::{Color, Piece, PieceType};
use crate::game_state::board::piece_list::{sorted_inner, PieceList};

verus! {

/// The square `k` steps from `from` in direction `d`.
pub open spec fn ray_square(from: int, d: int, k: int) -> int {
    from + k * d
}

/// The squares `1 .. n - 1` steps from `from` in direction `d` are empty.
pub open spec fn ray_clear(sq: Seq<Piece>, from: int, d: int, n: int) -> bool {
    forall|k: int| 1 <= k < n ==> #[trigger] sq[ray_square(from, d, k)] == Piece::EmptySquare
}

/// The number of steps between two squares on a common rank or file.
pub open spec fn line_steps(from: int, to: int) -> int {
    if from / 10 == to / 10 {
        abs_diff(from % 10, to % 10)
    } else {
        abs_diff(from / 10, to / 10)
    }
}

/// A bishop on `from` attacks `to`: a common diagonal with nothing between.
pub open spec fn bishop_attacks(sq: Seq<Piece>, from: int, to: int) -> bool {
    let d = diagonal_direction(from, to);
    d != 0 && ray_clear(sq, from, d, abs_diff(from / 10, to / 10))
}

/// A rook on `from` attacks `to`: a common rank or file with nothing between.
pub open spec fn rook_attacks(sq: Seq<Piece>, from: int, to: int) -> bool {
    let d = rank_or_file_direction(from, to);
    d != 0 && ray_clear(sq, from, d, line_steps(from, to))
}

/// A queen on `from` attacks `to`, as a bishop or as a rook.
pub open spec fn queen_attacks(sq: Seq<Piece>, from: int, to: int) -> bool {
    bishop_attacks(sq, from, to) || rook_attacks(sq, from, to)
}

/// A king on `from` attacks `to`: a different square at most one rank and
/// one file away.
pub open spec fn king_attacks(from: int, to: int) -> bool {
    from != to && abs_diff(from / 10, to / 10) <= 1 && abs_diff(from % 10, to % 10) <= 1
}

/// A knight on `from` attacks `to`: two ranks and one file away, or one
/// rank and two files.
pub open spec fn knight_attacks(from: int, to: int) -> bool {
    let rd = abs_diff(from / 10, to / 10);
    let cd = abs_diff(from % 10, to % 10);
    from != to && ((rd == 2 && cd == 1) || (rd == 1 && cd == 2))
}

/// A pawn of `color` on `from` attacks `to`: one file aside and one rank
/// forward (upwards for white, downwards for black).
pub open spec fn pawn_attacks(from: int, to: int, color: Color) -> bool {
    &&& from != to
    &&& abs_diff(from / 10, to / 10) == 1
    &&& abs_diff(from % 10, to % 10) == 1
    &&& (color == Color::White ==> to / 10 >= from / 10)
    &&& (color == Color::Black ==> to / 10 <= from / 10)
}

/// A piece of the given kind and color on `from` attacks `to`.
pub open spec fn piece_attacks(sq: Seq<Piece>, kind: PieceType, from: int, to: int, color: Color) -> bool {
    match kind {
        PieceType::Queen => queen_attacks(sq, from, to),
        PieceType::Rook => rook_attacks(sq, from, to),
        PieceType::Bishop => bishop_attacks(sq, from, to),
        PieceType::Knight => knight_attacks(from, to),
        PieceType::Pawn => pawn_attacks(from, to, color),
        PieceType::King => king_attacks(from, to),
    }
}

/// The pieces whose attacks on a square are looked for, in the order they
/// are tried: queen, rook, bishop, knight, pawn, king of the given color.
pub open spec fn attacker_order(color: Color) -> Seq<Piece> {
    match color {
        Color::White => seq![
            Piece::WhiteQueen,
            Piece::WhiteRook,
            Piece::WhiteBishop,
            Piece::WhiteKnight,
            Piece::WhitePawn,
            Piece::WhiteKing,
        ],
        Color::Black => seq![
            Piece::BlackQueen,
            Piece::BlackRook,
            Piece::BlackBishop,
            Piece::BlackKnight,
            Piece::BlackPawn,
            Piece::BlackKing,
        ],
    }
}

/// The `i`-th listed square of piece `p` attacks `to`, and none listed
/// before it does.
pub open spec fn first_attacker_at(sq: Seq<Piece>, pl: PieceList, to: int, p: Piece, color: Color, i: int) -> bool {
    let l = pl.list(p);
    &&& 0 <= i < l.len()
    &&& piece_attacks(sq, p.kind(), l[i] as int, to, color)
    &&& forall|j: int| 0 <= j < i ==> !piece_attacks(sq, p.kind(), #[trigger] l[j] as int, to, color)
}

/// The first listed square of piece `p` that attacks `to`, with the piece.
pub open spec fn attacked_by(sq: Seq<Piece>, pl: PieceList, to: int, p: Piece, color: Color) -> Option<(Piece, i16)> {
    if exists|i: int| first_attacker_at(sq, pl, to, p, color, i) {
        let i = choose|i: int| first_attacker_at(sq, pl, to, p, color, i);
        Some((p, pl.list(p)[i]))
    } else {
        None
    }
}

/// A piece of `color` attacks the square `to`.
pub open spec fn square_attacked(sq: Seq<Piece>, pl: PieceList, to: int, color: Color) -> bool {
    exists|p: Piece, i: int|
        #![trigger pl.list(p)[i]]
        p.is_piece() && p.color() == color && 0 <= i < pl.list(p).len() && piece_attacks(
            sq,
            p.kind(),
            pl.list(p)[i] as int,
            to,
            color,
        )
}

/// The listed squares of piece `p` among the first `n` of its list that
/// attack `to`, with the piece, in list order.
pub open spec fn kind_attackers(sq: Seq<Piece>, pl: PieceList, to: int, p: Piece, color: Color, n: int) -> Seq<(Piece, i16)>
    decreases n,
{
    if n <= 0 {
        Seq::empty()
    } else {
        let prev = kind_attackers(sq, pl, to, p, color, n - 1);
        if piece_attacks(sq, p.kind(), pl.list(p)[n - 1] as int, to, color) {
            prev.push((p, pl.list(p)[n - 1]))
        } else {
            prev
        }
    }
}

/// Every attacker of `to` among the pieces of the first `k` kinds of
/// [`attacker_order`]: kind by kind, each kind's squares in list order.
pub open spec fn attackers_upto(sq: Seq<Piece>, pl: PieceList, to: int, color: Color, k: int) -> Seq<(Piece, i16)>
    decreases k,
{
    if k <= 0 {
        Seq::empty()
    } else {
        let p = attacker_order(color)[k - 1];
        attackers_upto(sq, pl, to, color, k - 1) + kind_attackers(sq, pl, to, p, color, pl.list(p).len() as int)
    }
}

/// Every piece of `color` that attacks `to`, with its square: the kinds in
/// [`attacker_order`], each kind's squares in list order.
pub open spec fn attackers(sq: Seq<Piece>, pl: PieceList, to: int, color: Color) -> Seq<(Piece, i16)> {
    attackers_upto(sq, pl, to, color, 6)
}

/// The square of the king of `color`: the first in its list.
pub open spec fn king_square(pl: PieceList, color: Color) -> Option<i16> {
    let l = pl.list(Piece::make(PieceType::King, color));
    if l.len() > 0 {
        Some(l[0])
    } else {
        None
    }
}

/// The pieces giving check to the king of `color` (none without a king).
pub open spec fn checking_pieces(sq: Seq<Piece>, pl: PieceList, color: Color) -> Seq<(Piece, i16)> {
    match king_square(pl, color) {
        Some(k) => attackers(sq, pl, k as int, color.spec_opposite()),
        None => Seq::empty(),
    }
}

/// A strictly increasing list of on-board squares has at most 78 elements.
pub proof fn lemma_sorted_len(l: Seq<i16>)
    requires
        sorted_inner(l),
    ensures
        l.len() <= 78,
{
    if l.len() > 0 {
        assert forall|i: int| 0 <= i < l.len() implies #[trigger] l[i] >= l[0] + i by {
            lemma_sorted_step(l, i);
        }
        assert(l[l.len() - 1] >= l[0] + l.len() - 1);
    }
}

proof fn lemma_sorted_step(l: Seq<i16>, i: int)
    requires
        sorted_inner(l),
        0 <= i < l.len(),
    ensures
        l[i] >= l[0] + i,
    decreases i,
{
    if i > 0 {
        lemma_sorted_step(l, i - 1);
        assert(l[i - 1] < l[i]);
    }
}

/// An attacking listed square means there is a first one.
pub proof fn lemma_first_attacker_exists(sq: Seq<Piece>, pl: PieceList, to: int, p: Piece, color: Color, i: int)
    requires
        0 <= i < pl.list(p).len(),
        piece_attacks(sq, p.kind(), pl.list(p)[i] as int, to, color),
    ensures
        exists|j: int| first_attacker_at(sq, pl, to, p, color, j),
    decreases i,
{
    let l = pl.list(p);
    if forall|j: int| 0 <= j < i ==> !piece_attacks(sq, p.kind(), #[trigger] l[j] as int, to, color) {
        assert(first_attacker_at(sq, pl, to, p, color, i));
    } else {
        let j = choose|j: int| 0 <= j < i && piece_attacks(sq, p.kind(), #[trigger] l[j] as int, to, color);
        lemma_first_attacker_exists(sq, pl, to, p, color, j);
    }
}

/// The first attacker is the only index with the first-attacker property.
proof fn lemma_first_attacker_unique(sq: Seq<Piece>, pl: PieceList, to: int, p: Piece, color: Color, i: int)
    requires
        first_attacker_at(sq, pl, to, p, color, i),
    ensures
        attacked_by(sq, pl, to, p, color) == Some((p, pl.list(p)[i])),
{
    let j = choose|j: int| first_attacker_at(sq, pl, to, p, color, j);
    let l = pl.list(p);
    if j < i {
        assert(!piece_attacks(sq, p.kind(), l[j] as int, to, color));
    } else if i < j {
        assert(!piece_attacks(sq, p.kind(), l[i] as int, to, color));
    }
}

/// The attackers of one kind: each is a listed square of the piece that
/// attacks `to`; every such square among the first `n` is there; on
/// strictly increasing lists they come in increasing order.
pub proof fn lemma_kind_attackers(sq: Seq<Piece>, pl: PieceList, to: int, p: Piece, color: Color, n: int)
    requires
        0 <= n <= pl.list(p).len(),
    ensures
        forall|i: int| 0 <= i < kind_attackers(sq, pl, to, p, color, n).len() ==> {
            let e = #[trigger] kind_attackers(sq, pl, to, p, color, n)[i];
            &&& e.0 == p
            &&& exists|j: int| 0 <= j < n && pl.list(p)[j] == e.1
            &&& piece_attacks(sq, p.kind(), e.1 as int, to, color)
        },
        forall|j: int|
            0 <= j < n && piece_attacks(sq, p.kind(), #[trigger] pl.list(p)[j] as int, to, color) ==> kind_attackers(
                sq,
                pl,
                to,
                p,
                color,
                n,
            ).contains((p, pl.list(p)[j])),
        sorted_inner(pl.list(p)) ==> forall|i: int, i2: int|
            0 <= i < i2 < kind_attackers(sq, pl, to, p, color, n).len() ==> (#[trigger] kind_attackers(sq, pl, to, p, color, n)[i]).1
                < (#[trigger] kind_attackers(sq, pl, to, p, color, n)[i2]).1,
    decreases n,
{
    if n > 0 {
        lemma_kind_attackers(sq, pl, to, p, color, n - 1);
        let prev = kind_attackers(sq, pl, to, p, color, n - 1);
        let cur = kind_attackers(sq, pl, to, p, color, n);
        let l = pl.list(p);
        if piece_attacks(sq, p.kind(), l[n - 1] as int, to, color) {
            assert(cur == prev.push((p, l[n - 1])));
            assert forall|i: int| 0 <= i < cur.len() implies {
                let e = #[trigger] cur[i];
                &&& e.0 == p
                &&& exists|j: int| 0 <= j < n && l[j] == e.1
                &&& piece_attacks(sq, p.kind(), e.1 as int, to, color)
            } by {
                if i < prev.len() {
                    assert(cur[i] == prev[i]);
                    let e = prev[i];
                    let j = choose|j: int| 0 <= j < n - 1 && l[j] == e.1;
                    assert(0 <= j < n && l[j] == e.1);
                } else {
                    assert(cur[i] == (p, l[n - 1]));
                    assert(0 <= n - 1 < n && l[n - 1] == cur[i].1);
                }
            }
            assert forall|j: int| 0 <= j < n && piece_attacks(sq, p.kind(), #[trigger] l[j] as int, to, color) implies cur.contains(
                (p, l[j]),
            ) by {
                if j < n - 1 {
                    let k = choose|k: int| 0 <= k < prev.len() && prev[k] == (p, l[j]);
                    assert(cur[k] == prev[k]);
                } else {
                    assert(cur[prev.len() as int] == (p, l[j]));
                }
            }
            if sorted_inner(l) {
                assert forall|i: int, i2: int| 0 <= i < i2 < cur.len() implies (#[trigger] cur[i]).1 < (#[trigger] cur[i2]).1 by {
                    assert(cur[i] == prev[i]);
                    if i2 < prev.len() {
                        assert(cur[i2] == prev[i2]);
                    } else {
                        let e = prev[i];
                        let j = choose|j: int| 0 <= j < n - 1 && l[j] == e.1;
                        assert(l[j] < l[n - 1]);
                    }
                }
            }
        } else {
            assert(cur == prev);
            assert forall|i: int| 0 <= i < cur.len() implies {
                let e = #[trigger] cur[i];
                &&& e.0 == p
                &&& exists|j: int| 0 <= j < n && l[j] == e.1
                &&& piece_attacks(sq, p.kind(), e.1 as int, to, color)
            } by {
                let e = prev[i];
                let j = choose|j: int| 0 <= j < n - 1 && l[j] == e.1;
                assert(0 <= j < n && l[j] == e.1);
            }
        }
    }
}

/// The attackers among the first `k` kinds: each is a piece of `color`
/// that attacks `to` from a square in its list.
pub proof fn lemma_attackers_upto_attack(sq: Seq<Piece>, pl: PieceList, to: int, color: Color, k: int)
    requires
        0 <= k <= 6,
    ensures
        forall|i: int| 0 <= i < attackers_upto(sq, pl, to, color, k).len() ==> {
            let (p, x) = #[trigger] attackers_upto(sq, pl, to, color, k)[i];
            &&& p.is_piece()
            &&& p.color() == color
            &&& pl.list(p).contains(x)
            &&& piece_attacks(sq, p.kind(), x as int, to, color)
        },
    decreases k,
{
    if k > 0 {
        lemma_attackers_upto_attack(sq, pl, to, color, k - 1);
        let p = attacker_order(color)[k - 1];
        let n = pl.list(p).len() as int;
        lemma_kind_attackers(sq, pl, to, p, color, n);
        let prev = attackers_upto(sq, pl, to, color, k - 1);
        let kind = kind_attackers(sq, pl, to, p, color, n);
        let all = attackers_upto(sq, pl, to, color, k);
        assert(all == prev + kind);
        assert(p.is_piece() && p.color() == color);
        assert forall|i: int| 0 <= i < all.len() implies {
            let (q, x) = #[trigger] all[i];
            &&& q.is_piece()
            &&& q.color() == color
            &&& pl.list(q).contains(x)
            &&& piece_attacks(sq, q.kind(), x as int, to, color)
        } by {
            if i < prev.len() {
                assert(all[i] == prev[i]);
            } else {
                assert(all[i] == kind[i - prev.len()]);
                let e = kind[i - prev.len()];
                let j = choose|j: int| 0 <= j < n && pl.list(p)[j] == e.1;
                assert(pl.list(p)[j] == e.1);
            }
        }
    }
}

/// Every attacker of `to` of the first `k` kinds is listed.
pub proof fn lemma_attackers_upto_complete(sq: Seq<Piece>, pl: PieceList, to: int, color: Color, k: int)
    requires
        0 <= k <= 6,
    ensures
        forall|idx: int, j: int|
            0 <= idx < k && 0 <= j < pl.list(attacker_order(color)[idx]).len() && piece_attacks(
                sq,
                attacker_order(color)[idx].kind(),
                #[trigger] pl.list(#[trigger] attacker_order(color)[idx])[j] as int,
                to,
                color,
            ) ==> attackers_upto(sq, pl, to, color, k).contains((attacker_order(color)[idx], pl.list(attacker_order(color)[idx])[j])),
    decreases k,
{
    if k > 0 {
        lemma_attackers_upto_complete(sq, pl, to, color, k - 1);
        let p = attacker_order(color)[k - 1];
        let n = pl.list(p).len() as int;
        lemma_kind_attackers(sq, pl, to, p, color, n);
        let prev = attackers_upto(sq, pl, to, color, k - 1);
        let kind = kind_attackers(sq, pl, to, p, color, n);
        let all = attackers_upto(sq, pl, to, color, k);
        assert(all == prev + kind);
        assert forall|idx: int, j: int|
            0 <= idx < k && 0 <= j < pl.list(attacker_order(color)[idx]).len() && piece_attacks(
                sq,
                attacker_order(color)[idx].kind(),
                #[trigger] pl.list(#[trigger] attacker_order(color)[idx])[j] as int,
                to,
                color,
            ) implies all.contains((attacker_order(color)[idx], pl.list(attacker_order(color)[idx])[j])) by {
            let e = (attacker_order(color)[idx], pl.list(attacker_order(color)[idx])[j]);
            if idx < k - 1 {
                let w = choose|w: int| 0 <= w < prev.len() && prev[w] == e;
                assert(all[w] == prev[w]);
            } else {
                assert(kind.contains(e));
                let w = choose|w: int| 0 <= w < kind.len() && kind[w] == e;
                assert(all[prev.len() + w] == kind[w]);
            }
        }
    }
}

/// The six kinds of the attack order are different pieces.
pub proof fn lemma_attacker_order_distinct(color: Color)
    ensures
        forall|i: int, j: int| 0 <= i < j < 6 ==> #[trigger] attacker_order(color)[i] != #[trigger] attacker_order(color)[j],
{
}

/// The attackers of the first `k` kinds are different entries, and none
/// is of a later kind.
pub proof fn lemma_attackers_upto_distinct(sq: Seq<Piece>, pl: PieceList, to: int, color: Color, k: int)
    requires
        pl.wf(),
        0 <= k <= 6,
    ensures
        forall|i: int, m: int|
            0 <= i < attackers_upto(sq, pl, to, color, k).len() && k <= m < 6 ==> #[trigger] attackers_upto(sq, pl, to, color, k)[i].0
                != #[trigger] attacker_order(color)[m],
        forall|i: int, i2: int|
            0 <= i < i2 < attackers_upto(sq, pl, to, color, k).len() ==> #[trigger] attackers_upto(sq, pl, to, color, k)[i]
                != #[trigger] attackers_upto(sq, pl, to, color, k)[i2],
    decreases k,
{
    lemma_attacker_order_distinct(color);
    if k > 0 {
        lemma_attackers_upto_distinct(sq, pl, to, color, k - 1);
        let p = attacker_order(color)[k - 1];
        let n = pl.list(p).len() as int;
        lemma_kind_attackers(sq, pl, to, p, color, n);
        assert(p.is_piece());
        assert(sorted_inner(pl.list(p)));
        let prev = attackers_upto(sq, pl, to, color, k - 1);
        let kind = kind_attackers(sq, pl, to, p, color, n);
        let all = attackers_upto(sq, pl, to, color, k);
        assert(all == prev + kind);
        assert forall|i: int, m: int| 0 <= i < all.len() && k <= m < 6 implies #[trigger] all[i].0 != #[trigger] attacker_order(
            color,
        )[m] by {
            if i < prev.len() {
                assert(all[i] == prev[i]);
            } else {
                assert(all[i] == kind[i - prev.len()]);
            }
        }
        assert forall|i: int, i2: int| 0 <= i < i2 < all.len() implies #[trigger] all[i] != #[trigger] all[i2] by {
            if i2 < prev.len() {
                assert(all[i] == prev[i]);
                assert(all[i2] == prev[i2]);
            } else if i < prev.len() {
                assert(all[i] == prev[i]);
                assert(all[i2] == kind[i2 - prev.len()]);
                assert(prev[i].0 != attacker_order(color)[k - 1]);
            } else {
                assert(all[i] == kind[i - prev.len()]);
                assert(all[i2] == kind[i2 - prev.len()]);
                assert(kind[i - prev.len()].1 < kind[i2 - prev.len()].1);
            }
        }
    }
}

/// Every attacker found is a real piece on an on-board square.
pub proof fn lemma_attackers_listed(sq: Seq<Piece>, pl: PieceList, to: int, color: Color, k: int)
    requires
        pl.wf(),
        0 <= k <= 6,
    ensures
        forall|i: int| 0 <= i < attackers_upto(sq, pl, to, color, k).len() ==> {
            let (p, s) = #[trigger] attackers_upto(sq, pl, to, color, k)[i];
            p.is_piece() && is_inner(s as int)
        },
{
    lemma_attackers_upto_attack(sq, pl, to, color, k);
    assert forall|i: int| 0 <= i < attackers_upto(sq, pl, to, color, k).len() implies {
        let (p, s) = #[trigger] attackers_upto(sq, pl, to, color, k)[i];
        p.is_piece() && is_inner(s as int)
    } by {
        let (p, s) = attackers_upto(sq, pl, to, color, k)[i];
        assert(sorted_inner(pl.list(p)));
        let j = choose|j: int| 0 <= j < pl.list(p).len() && pl.list(p)[j] == s;
        assert(is_inner(pl.list(p)[j] as int));
    }
}

/// Walking `n` steps of `d` from `from` reaches `to`, and every square
/// before that lies between them.
proof fn lemma_ray_reaches(from: int, to: int, d: int, n: int)
    requires
        0 <= from < 120,
        0 <= to < 120,
        d != 0,
        d == diagonal_direction(from, to) && n == abs_diff(from / 10, to / 10) || d
            == rank_or_file_direction(from, to) && n == line_steps(from, to),
    ensures
        n >= 1,
        ray_square(from, d, n) == to,
        forall|k: int| 0 <= k < n ==> 0 <= #[trigger] ray_square(from, d, k) < 120 && ray_square(from, d, k) != to,
{
    let rs: int = if to / 10 > from / 10 {
        1
    } else if to / 10 < from / 10 {
        -1
    } else {
        0
    };
    let cs: int = if to % 10 > from % 10 {
        1
    } else if to % 10 < from % 10 {
        -1
    } else {
        0
    };
    assert(from == 10 * (from / 10) + from % 10);
    assert(to == 10 * (to / 10) + to % 10);
    assert(d == 10 * rs + cs);
    assert(n * rs == to / 10 - from / 10) by (nonlinear_arith)
        requires
            rs == 1 ==> n == to / 10 - from / 10,
            rs == -1 ==> n == from / 10 - to / 10,
            rs == 0 ==> to / 10 == from / 10,
            rs == 1 || rs == -1 || rs == 0,
    ;
    assert(n * cs == to % 10 - from % 10) by (nonlinear_arith)
        requires
            cs == 1 ==> n == to % 10 - from % 10,
            cs == -1 ==> n == from % 10 - to % 10,
            cs == 0 ==> to % 10 == from % 10,
            cs == 1 || cs == -1 || cs == 0,
    ;
    assert(n * d == 10 * (n * rs) + n * cs) by (nonlinear_arith)
        requires
            d == 10 * rs + cs,
    ;
    assert forall|k: int| 0 <= k < n implies 0 <= #[trigger] ray_square(from, d, k) < 120
        && ray_square(from, d, k) != to by {
        assert(k * d != n * d) by (nonlinear_arith)
            requires
                0 <= k < n,
                d != 0,
        ;
        if d > 0 {
            assert(0 <= k * d <= n * d) by (nonlinear_arith)
                requires
                    0 <= k < n,
                    d > 0,
            ;
        } else {
            assert(n * d <= k * d <= 0) by (nonlinear_arith)
                requires
                    0 <= k < n,
                    d < 0,
            ;
        }
    }
}

impl PieceList {
    /// Walks from `from` in direction `d` and reports whether every square
    /// before `to` is empty.
    fn ray_is_clear(chess_board: &ChessBoard, from: i16, to: i16, d: i16, Ghost(n): Ghost<int>) -> (r: bool)
        requires
            0 <= from < 120,
            0 <= to < 120,
            d != 0,
            d as int == diagonal_direction(from as int, to as int) && n == abs_diff(from / 10, to / 10)
                || d as int == rank_or_file_direction(from as int, to as int) && n == line_steps(
                from as int,
                to as int,
            ),
        ensures
            r == ray_clear(chess_board.board_squares@, from as int, d as int, n),
    {
        proof {
            lemma_ray_reaches(from as int, to as int, d as int, n);
        }
        let mut position = from + d;
        let ghost mut k: int = 1;
        assert(position == ray_square(from as int, d as int, 1));
        while position != to
            invariant
                1 <= k <= n,
                position == ray_square(from as int, d as int, k),
                ray_square(from as int, d as int, n) == to,
                forall|j: int| 0 <= j < n ==> 0 <= #[trigger] ray_square(from as int, d as int, j) < 120
                    && ray_square(from as int, d as int, j) != to,
                forall|j: int| 1 <= j < k ==> #[trigger] chess_board.board_squares@[ray_square(from as int, d as int, j)]
                    == Piece::EmptySquare,
            decreases n - k,
        {
            assert(k < n);
            let piece = chess_board.get_piece_on_square(position);
            if piece.is_empty() {
                assert(ray_square(from as int, d as int, k + 1) == position + d) by (nonlinear_arith)
                    requires
                        position == from + k * d,
                ;
                position = position + d;
                proof {
                    k = k + 1;
                }
            } else {
                return false;
            }
        }
        assert(k == n);
        true
    }

    /// Checks if a bishop on `from` attacks `to`.
    pub fn bishop_attack(chess_board: &ChessBoard, from: i16, to: i16) -> (r: bool)
        requires
            chess_board.board_width == 10,
            0 <= from < 120,
            0 <= to < 120,
        ensures
            r == bishop_attacks(chess_board.board_squares@, from as int, to as int),
    {
        let direction = chess_board.get_diagonal_direction(from, to);
        if direction == 0 {
            return false;
        }
        Self::ray_is_clear(chess_board, from, to, direction, Ghost(abs_diff(from / 10, to / 10)))
    }

    /// Checks if a rook on `from` attacks `to`.
    pub fn rook_attack(chess_board: &ChessBoard, from: i16, to: i16) -> (r: bool)
        requires
            chess_board.board_width == 10,
            0 <= from < 120,
            0 <= to < 120,
        ensures
            r == rook_attacks(chess_board.board_squares@, from as int, to as int),
    {
        let direction = chess_board.get_rank_or_file_direction(from, to);
        if direction == 0 {
            return false;
        }
        Self::ray_is_clear(chess_board, from, to, direction, Ghost(line_steps(from as int, to as int)))
    }

    /// Checks if a queen on `from` attacks `to`, as a bishop or as a rook.
    pub fn queen_attack(chess_board: &ChessBoard, from: i16, to: i16) -> (r: bool)
        requires
            chess_board.board_width == 10,
            0 <= from < 120,
            0 <= to < 120,
        ensures
            r == queen_attacks(chess_board.board_squares@, from as int, to as int),
    {
        let bishop = PieceList::bishop_attack(chess_board, from, to);
        if bishop {
            return true;
        }
        let rook = PieceList::rook_attack(chess_board, from, to);
        if rook {
            return true;
        }
        false
    }

    /// Checks if a king on `from` attacks `to`.
    pub fn king_attack(chess_board: &ChessBoard, from: i16, to: i16) -> (r: bool)
        requires
            chess_board.board_width == 10,
            0 <= from,
            0 <= to,
        ensures
            r == king_attacks(from as int, to as int),
    {
        if from == to {
            return false;
        }
        let row1 = chess_board.square_rank(from);
        let row2 = chess_board.square_rank(to);
        let col1 = chess_board.square_file(from);
        let col2 = chess_board.square_file(to);
        let row_diff = if row1 >= row2 { row1 - row2 } else { row2 - row1 };
        let col_diff = if col1 >= col2 { col1 - col2 } else { col2 - col1 };
        if row_diff > 1 || col_diff > 1 {
            return false;
        }
        true
    }

    /// Checks if a knight on `from` attacks `to`.
    pub fn knight_attack(chess_board: &ChessBoard, from: i16, to: i16) -> (r: bool)
        requires
            chess_board.board_width == 10,
            0 <= from,
            0 <= to,
        ensures
            r == knight_attacks(from as int, to as int),
    {
        if from == to {
            return false;
        }
        let row1 = chess_board.square_rank(from);
        let row2 = chess_board.square_rank(to);
        let col1 = chess_board.square_file(from);
        let col2 = chess_board.square_file(to);
        let row_diff = if row1 >= row2 { row1 - row2 } else { row2 - row1 };
        let col_diff = if col1 >= col2 { col1 - col2 } else { col2 - col1 };
        if (row_diff == 2 && col_diff == 1) || (row_diff == 1 && col_diff == 2) {
            return true;
        }
        false
    }

    /// Checks if a pawn of `color` on `from` attacks `to`.
    pub fn pawn_attack(chess_board: &ChessBoard, from: i16, to: i16, color: Color) -> (r: bool)
        requires
            chess_board.board_width == 10,
            0 <= from,
            0 <= to,
        ensures
            r == pawn_attacks(from as int, to as int, color),
    {
        if from == to {
            return false;
        }
        let row1 = chess_board.square_rank(from);
        let row2 = chess_board.square_rank(to);
        let col1 = chess_board.square_file(from);
        let col2 = chess_board.square_file(to);
        let row_diff = if row1 >= row2 { row1 - row2 } else { row2 - row1 };
        let col_diff = if col1 >= col2 { col1 - col2 } else { col2 - col1 };
        if col_diff != 1 || row_diff != 1 {
            return false;
        }
        if color == Color::White {
            if row2 < row1 {
                return false;
            }
        } else {
            if row2 > row1 {
                return false;
            }
        }
        true
    }
}

impl PieceList {
    /// The list of a piece (`None` for a non-piece).
    pub fn get_list(&self, piece: Piece) -> (r: Option<&Vec<i16>>)
        ensures
            r is Some <==> piece.is_piece(),
            r matches Some(l) ==> l@ == self.list(piece),
    {
        match piece {
            Piece::WhitePawn => Some(&self.white_pawn_list),
            Piece::WhiteRook => Some(&self.white_rook_list),
            Piece::WhiteKnight => Some(&self.white_knight_list),
            Piece::WhiteBishop => Some(&self.white_bishop_list),
            Piece::WhiteQueen => Some(&self.white_queen_list),
            Piece::WhiteKing => Some(&self.white_king_list),
            Piece::BlackPawn => Some(&self.black_pawn_list),
            Piece::BlackRook => Some(&self.black_rook_list),
            Piece::BlackKnight => Some(&self.black_knight_list),
            Piece::BlackBishop => Some(&self.black_bishop_list),
            Piece::BlackQueen => Some(&self.black_queen_list),
            Piece::BlackKing => Some(&self.black_king_list),
            _ => None,
        }
    }

    /// The number of pieces of a kind on the board (`None` for a
    /// non-piece): the length of its list (which a vector's size limit
    /// keeps below `i64::MAX`).
    pub fn get_number_of_pieces(&self, piece: Piece) -> (r: Option<i64>)
        ensures
            r is Some <==> piece.is_piece(),
            r matches Some(n) ==> n == (if self.count(piece) <= i64::MAX {
                self.count(piece)
            } else {
                i64::MAX as int
            }),
    {
        if let Some(piece_list) = self.get_list(piece) {
            let n = piece_list.len();
            if n as u64 > i64::MAX as u64 {
                return Some(i64::MAX);
            }
            return Some(n as i64);
        }
        None
    }
}

impl PieceList {
    /// The first listed square of `attack_piece` that attacks `square`,
    /// with the piece (`None` when no such piece attacks it).
    pub fn is_attacked_by_piece(
        &self,
        chess_board: &ChessBoard,
        square: i16,
        attack_piece: Piece,
        by_color: Color,
    ) -> (r: Option<(Piece, i16)>)
        requires
            chess_board.board_width == 10,
            self.wf(),
            0 <= square < 120,
        ensures
            r == attacked_by(chess_board.board_squares@, *self, square as int, attack_piece, by_color),
    {
        if let Some(piece_list) = self.get_list(attack_piece) {
            let ghost l = self.list(attack_piece);
            proof {
                assert(sorted_inner(l));
            }
            let mut i: usize = 0;
            while i < piece_list.len()
                invariant
                    piece_list@ == l,
                    l == self.list(attack_piece),
                    sorted_inner(l),
                    attack_piece.is_piece(),
                    chess_board.board_width == 10,
                    0 <= square < 120,
                    i <= l.len(),
                    forall|j: int| 0 <= j < i ==> !piece_attacks(chess_board.board_squares@, attack_piece.kind(),
                        #[trigger] l[j] as int, square as int, by_color),
                decreases l.len() - i,
            {
                let piece_square = piece_list[i];
                assert(is_inner(l[i as int] as int));
                let attacks = match attack_piece.get_type() {
                    PieceType::Queen => Self::queen_attack(chess_board, piece_square, square),
                    PieceType::Rook => Self::rook_attack(chess_board, piece_square, square),
                    PieceType::Bishop => Self::bishop_attack(chess_board, piece_square, square),
                    PieceType::Knight => Self::knight_attack(chess_board, piece_square, square),
                    PieceType::Pawn => Self::pawn_attack(chess_board, piece_square, square, by_color),
                    PieceType::King => Self::king_attack(chess_board, piece_square, square),
                };
                if attacks {
                    proof {
                        assert(first_attacker_at(chess_board.board_squares@, *self, square as int, attack_piece, by_color, i as int));
                        lemma_first_attacker_unique(chess_board.board_squares@, *self, square as int, attack_piece, by_color, i as int);
                    }
                    return Some((attack_piece, piece_square));
                }
                i = i + 1;
            }
            proof {
                assert(!exists|j: int| first_attacker_at(chess_board.board_squares@, *self, square as int, attack_piece, by_color, j));
            }
        } else {
            proof {
                assert(!exists|j: int| first_attacker_at(chess_board.board_squares@, *self, square as int, attack_piece, by_color, j));
            }
        }
        None
    }

    /// The six pieces of a color in the order their attacks are looked for.
    fn attacker_pieces(by_color: Color) -> (r: [Piece; 6])
        ensures
            r@ == attacker_order(by_color),
    {
        let r = match by_color {
            Color::White => [
                Piece::WhiteQueen,
                Piece::WhiteRook,
                Piece::WhiteBishop,
                Piece::WhiteKnight,
                Piece::WhitePawn,
                Piece::WhiteKing,
            ],
            Color::Black => [
                Piece::BlackQueen,
                Piece::BlackRook,
                Piece::BlackBishop,
                Piece::BlackKnight,
                Piece::BlackPawn,
                Piece::BlackKing,
            ],
        };
        assert(r@ =~= attacker_order(by_color));
        r
    }

    /// Checks if a square is attacked by any piece of the given color.
    pub fn is_square_attacked(&self, chess_board: &ChessBoard, square: i16, by_color: Color) -> (r: bool)
        requires
            chess_board.board_width == 10,
            self.wf(),
            0 <= square < 120,
        ensures
            r == square_attacked(chess_board.board_squares@, *self, square as int, by_color),
    {
        let attacker_pieces = Self::attacker_pieces(by_color);
        let mut k: usize = 0;
        while k < 6
            invariant
                attacker_pieces@ == attacker_order(by_color),
                chess_board.board_width == 10,
                self.wf(),
                0 <= square < 120,
                k <= 6,
                forall|j: int| 0 <= j < k ==> #[trigger] attacked_by(chess_board.board_squares@, *self, square as int,
                    attacker_order(by_color)[j], by_color) is None,
            decreases 6 - k,
        {
            let attack_piece = attacker_pieces[k];
            if self.is_attacked_by_piece(chess_board, square, attack_piece, by_color).is_some() {
                proof {
                    let i = choose|i: int| first_attacker_at(chess_board.board_squares@, *self, square as int, attack_piece, by_color, i);
                    assert(attack_piece.is_piece() && attack_piece.color() == by_color);
                    assert(self.list(attack_piece)[i] == self.list(attack_piece)[i]);
                }
                return true;
            }
            k = k + 1;
        }
        proof {
            assert forall|p: Piece, i: int|
                p.is_piece() && p.color() == by_color && 0 <= i < self.list(p).len() implies !piece_attacks(
                chess_board.board_squares@,
                p.kind(),
                #[trigger] self.list(p)[i] as int,
                square as int,
                by_color,
            ) by {
                let order = attacker_order(by_color);
                let idx: int = match p.kind() {
                    PieceType::Queen => 0,
                    PieceType::Rook => 1,
                    PieceType::Bishop => 2,
                    PieceType::Knight => 3,
                    PieceType::Pawn => 4,
                    PieceType::King => 5,
                };
                assert(order[idx] == p);
                assert(attacked_by(chess_board.board_squares@, *self, square as int, order[idx], by_color) is None);
                if piece_attacks(chess_board.board_squares@, p.kind(), self.list(p)[i] as int, square as int, by_color) {
                    lemma_first_attacker_exists(chess_board.board_squares@, *self, square as int, p, by_color, i);
                }
            }
        }
        false
    }

    /// All pieces of `by_color` attacking a square: the kinds in
    /// [`attacker_order`], each kind's squares in list order.
    pub fn get_attackers(&self, chess_board: &ChessBoard, king_square: i16, by_color: Color) -> (r: Vec<(Piece, i16)>)
        requires
            chess_board.board_width == 10,
            self.wf(),
            0 <= king_square < 120,
        ensures
            r@ == attackers(chess_board.board_squares@, *self, king_square as int, by_color),
    {
        let ghost sq = chess_board.board_squares@;
        let mut attackers: Vec<(Piece, i16)> = Vec::new();
        let attacker_pieces = Self::attacker_pieces(by_color);
        let mut k: usize = 0;
        while k < 6
            invariant
                attacker_pieces@ == attacker_order(by_color),
                chess_board.board_width == 10,
                sq == chess_board.board_squares@,
                self.wf(),
                0 <= king_square < 120,
                k <= 6,
                attackers@ == attackers_upto(sq, *self, king_square as int, by_color, k as int),
            decreases 6 - k,
        {
            let attack_piece = attacker_pieces[k];
            let ghost start = attackers@;
            if let Some(piece_list) = self.get_list(attack_piece) {
                let ghost l = self.list(attack_piece);
                proof {
                    assert(sorted_inner(l));
                }
                let mut i: usize = 0;
                while i < piece_list.len()
                    invariant
                        piece_list@ == l,
                        l == self.list(attack_piece),
                        sorted_inner(l),
                        attack_piece.is_piece(),
                        chess_board.board_width == 10,
                        sq == chess_board.board_squares@,
                        0 <= king_square < 120,
                        i <= l.len(),
                        attackers@ == start + kind_attackers(sq, *self, king_square as int, attack_piece, by_color, i as int),
                    decreases l.len() - i,
                {
                    let piece_square = piece_list[i];
                    assert(is_inner(l[i as int] as int));
                    let attacks = match attack_piece.get_type() {
                        PieceType::Queen => Self::queen_attack(chess_board, piece_square, king_square),
                        PieceType::Rook => Self::rook_attack(chess_board, piece_square, king_square),
                        PieceType::Bishop => Self::bishop_attack(chess_board, piece_square, king_square),
                        PieceType::Knight => Self::knight_attack(chess_board, piece_square, king_square),
                        PieceType::Pawn => Self::pawn_attack(chess_board, piece_square, king_square, by_color),
                        PieceType::King => Self::king_attack(chess_board, piece_square, king_square),
                    };
                    if attacks {
                        attackers.push((attack_piece, piece_square));
                    }
                    i = i + 1;
                    proof {
                        assert(attackers@ =~= start + kind_attackers(sq, *self, king_square as int, attack_piece, by_color, i as int));
                    }
                }
            } else {
                assert(attack_piece.is_piece());
            }
            k = k + 1;
        }
        attackers
    }

    /// The square of the king of `color`, if there is one.
    pub fn get_king_square(&self, color: Color) -> (r: Option<i16>)
        ensures
            r == king_square(*self, color),
    {
        let king = if color == Color::White {
            Piece::WhiteKing
        } else {
            Piece::BlackKing
        };
        if let Some(king_list) = self.get_list(king) {
            if king_list.len() > 0 {
                return Some(king_list[0]);
            }
        }
        None
    }

    /// The pieces giving check to the king of `color` (empty when it is not
    /// in check or there is no king).
    pub fn is_king_in_check(&self, chess_board: &ChessBoard, color: Color) -> (r: Vec<(Piece, i16)>)
        requires
            chess_board.board_width == 10,
            self.wf(),
        ensures
            r@ == checking_pieces(chess_board.board_squares@, *self, color),
    {
        let mut attackers: Vec<(Piece, i16)> = Vec::new();
        if let Some(king) = self.get_king_square(color) {
            proof {
                assert(sorted_inner(self.list(Piece::make(PieceType::King, color))));
                assert(is_inner(king as int));
            }
            let mut found = self.get_attackers(chess_board, king, color.opposite());
            attackers.append(&mut found);
            assert(attackers@ =~= checking_pieces(chess_board.board_squares@, *self, color));
        }
        attackers
    }
}

impl PieceList {
    /// The number of pieces of a kind, 0 for a non-piece.
    pub(crate) fn count_pieces(&self, piece: Piece) -> (r: i64)
        requires
            self.wf(),
        ensures
            r == self.count(piece),
            0 <= r <= 78,
    {
        proof {
            if piece.is_piece() {
                assert(sorted_inner(self.list(piece)));
                lemma_sorted_len(self.list(piece));
            }
        }
        self.get_number_of_pieces(piece).unwrap_or(0)
    }
}

} // verus!
