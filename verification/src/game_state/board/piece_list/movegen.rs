//! Move generation from the piece lists: pseudo-legal moves of every piece
//! that respect pins, king moves that avoid attacked squares, castling, en
//! passant and promotions, and check evasions.

use std::collections::HashMap;
use vstd::prelude::*;

use crate::game_state::board::{squares_between, castle_kingside_ok, castle_queenside_ok, is_inner, lists_match_squares, CastlingInfo, ChessBoard};
use crate::game_state::board::moves::Move;
use crate::game_state::board::piece::{Color, Piece, PieceType};
use crate::game_state::board::piece_list::attacks::{lemma_attackers_listed, checking_pieces, king_square, ray_square, square_attacked};
use crate::game_state::board::piece_list::pins::{pin_directions, pins};
use crate::game_state::board::piece_list::rays::{along, ray_contents, RayList};
use crate::game_state::board::piece_list::{sorted_inner, PieceList};

verus! {

broadcast use {vstd::std_specs::hash::group_hash_axioms, vstd::seq_lib::group_filter_ensures};

/// The piece lists track the board: well formed, and listing exactly the
/// squares of each piece.
pub open spec fn tracks(pl: PieceList, b: ChessBoard) -> bool {
    pl.wf() && lists_match_squares(b.board_squares@, pl)
}

/// Every move of the list fits the board.
pub open spec fn all_fit(moves: Seq<Move>, b: ChessBoard) -> bool {
    forall|i: int| 0 <= i < moves.len() ==> #[trigger] moves[i].fits(&b)
}

/// Every direction of the list is one of the eight ray directions.
pub open spec fn valid_rays(rays: Seq<i16>) -> bool {
    forall|i: int| 0 <= i < rays.len() ==> pin_directions().contains(#[trigger] rays[i] as int)
}

/// A move of `piece` from `from` to `to` with no special metadata.
pub open spec fn plain_move(b: ChessBoard, from: int, to: int, piece: Piece) -> Move {
    Move {
        from: from as i16,
        to: to as i16,
        piece,
        captured_piece: b.at(to),
        promotion: None,
        castling: None,
        en_passant: false,
        en_passant_square: None,
        previous_en_passant: b.en_passant_target,
        previous_castling_rights: Some(b.castling_rights),
    }
}

/// A square holds an enemy of `color`.
pub open spec fn is_enemy(p: Piece, color: Color) -> bool {
    p.is_piece() && p.color() != color
}

/// Walking from `s` in direction `d`, the `n`-th square is the first one
/// that is not empty.
pub open spec fn stops_at(sq: Seq<Piece>, s: int, d: int, n: int) -> bool {
    &&& n >= 1
    &&& sq[ray_square(s, d, n)] != Piece::EmptySquare
    &&& forall|j: int| 1 <= j < n ==> #[trigger] sq[ray_square(s, d, j)] == Piece::EmptySquare
}

/// The number of steps from `s` in direction `d` to the first square that
/// is not empty.
pub open spec fn ray_stop(sq: Seq<Piece>, s: int, d: int) -> int {
    choose|n: int| stops_at(sq, s, d, n)
}

/// The moves of a slider on `s` along direction `d`: to every empty square
/// before the first occupied one, and to that one if it holds an enemy.
pub open spec fn slide_moves(b: ChessBoard, s: int, d: int, piece: Piece, color: Color) -> Seq<Move> {
    let sq = b.board_squares@;
    let n = ray_stop(sq, s, d);
    let quiet = Seq::new((n - 1) as nat, |i: int| plain_move(b, s, ray_square(s, d, i + 1), piece));
    if is_enemy(sq[ray_square(s, d, n)], color) {
        quiet.push(plain_move(b, s, ray_square(s, d, n), piece))
    } else {
        quiet
    }
}

/// The moves of a slider on `s` along each direction of `rays`, in order.
pub open spec fn moves_over_rays(b: ChessBoard, s: int, rays: Seq<i16>, piece: Piece, color: Color) -> Seq<Move>
    decreases rays.len(),
{
    if rays.len() == 0 {
        Seq::empty()
    } else {
        moves_over_rays(b, s, rays.drop_last(), piece, color) + slide_moves(
            b,
            s,
            rays.last() as int,
            piece,
            color,
        )
    }
}

/// The directions a piece on `s` may use: all of them, or only those along
/// its pin line when it is pinned.
pub open spec fn allowed_rays(rays: Seq<i16>, pins: Map<i16, i16>, s: i16) -> Seq<i16> {
    if pins.contains_key(s) {
        rays.filter(|d: i16| along(d, pins[s]))
    } else {
        rays
    }
}

/// The moves of the sliders on `squares`, in order.
pub open spec fn slider_moves(
    b: ChessBoard,
    squares: Seq<i16>,
    pins: Map<i16, i16>,
    rays: Seq<i16>,
    piece: Piece,
    color: Color,
) -> Seq<Move>
    decreases squares.len(),
{
    if squares.len() == 0 {
        Seq::empty()
    } else {
        slider_moves(b, squares.drop_last(), pins, rays, piece, color) + moves_over_rays(
            b,
            squares.last() as int,
            allowed_rays(rays, pins, squares.last()),
            piece,
            color,
        )
    }
}

/// The queen directions: -1, 1, 10, -10, 11, -9, 9, -11.
pub open spec fn queen_rays() -> Seq<i16> {
    seq![-1i16, 1i16, 10i16, -10i16, 11i16, -9i16, 9i16, -11i16]
}

/// The rook directions: 1, -1, -10, 10.
pub open spec fn rook_rays() -> Seq<i16> {
    seq![1i16, -1i16, -10i16, 10i16]
}

/// The bishop directions: 11, 9, -9, -11.
pub open spec fn bishop_rays() -> Seq<i16> {
    seq![11i16, 9i16, -9i16, -11i16]
}

/// The knight jumps: 21, 19, -19, -21, 12, 8, -8, -12.
pub open spec fn knight_offsets() -> Seq<int> {
    seq![21, 19, -19, -21, 12, 8, -8, -12]
}

/// The king steps: -1, 1, 10, -10, 11, -9, 9, -11.
pub open spec fn king_offsets() -> Seq<int> {
    seq![-1, 1, 10, -10, 11, -9, 9, -11]
}

/// The steps of a piece on `s` by each offset, in order, onto squares that
/// are empty or hold an enemy.
pub open spec fn step_moves(b: ChessBoard, s: int, offsets: Seq<int>, piece: Piece, color: Color) -> Seq<Move>
    decreases offsets.len(),
{
    if offsets.len() == 0 {
        Seq::empty()
    } else {
        let prev = step_moves(b, s, offsets.drop_last(), piece, color);
        let t = s + offsets.last();
        if b.at(t) == Piece::EmptySquare || is_enemy(b.at(t), color) {
            prev.push(plain_move(b, s, t, piece))
        } else {
            prev
        }
    }
}

/// The moves of the knights on `squares`, in order; a pinned knight has
/// none.
pub open spec fn knight_moves(b: ChessBoard, squares: Seq<i16>, pins: Map<i16, i16>, piece: Piece, color: Color) -> Seq<Move>
    decreases squares.len(),
{
    if squares.len() == 0 {
        Seq::empty()
    } else {
        let prev = knight_moves(b, squares.drop_last(), pins, piece, color);
        if pins.contains_key(squares.last()) {
            prev
        } else {
            prev + step_moves(b, squares.last() as int, knight_offsets(), piece, color)
        }
    }
}

/// The queen of a color.
pub open spec fn queen_of(color: Color) -> Piece {
    Piece::make(PieceType::Queen, color)
}

/// The rook of a color.
pub open spec fn rook_of(color: Color) -> Piece {
    Piece::make(PieceType::Rook, color)
}

/// The bishop of a color.
pub open spec fn bishop_of(color: Color) -> Piece {
    Piece::make(PieceType::Bishop, color)
}

/// The knight of a color.
pub open spec fn knight_of(color: Color) -> Piece {
    Piece::make(PieceType::Knight, color)
}

/// The king of a color.
pub open spec fn king_of(color: Color) -> Piece {
    Piece::make(PieceType::King, color)
}

/// The pawn of a color.
pub open spec fn pawn_of(color: Color) -> Piece {
    Piece::make(PieceType::Pawn, color)
}

/// A king on `s` may step to `t`: with the king lifted off `s`, no enemy
/// attacks `t`, and `t` is empty or holds an enemy.
pub open spec fn king_step_ok(b: ChessBoard, pl: PieceList, s: int, t: int, color: Color) -> bool {
    &&& !square_attacked(b.board_squares@.update(s, Piece::EmptySquare), pl, t, color.spec_opposite())
    &&& (b.at(t) == Piece::EmptySquare || is_enemy(b.at(t), color))
}

/// The steps of a king on `s` by each offset, in order, that
/// [`king_step_ok`] allows.
pub open spec fn king_steps(b: ChessBoard, pl: PieceList, s: int, offsets: Seq<int>, piece: Piece, color: Color) -> Seq<Move>
    decreases offsets.len(),
{
    if offsets.len() == 0 {
        Seq::empty()
    } else {
        let prev = king_steps(b, pl, s, offsets.drop_last(), piece, color);
        let t = s + offsets.last();
        if king_step_ok(b, pl, s, t, color) {
            prev.push(plain_move(b, s, t, piece))
        } else {
            prev
        }
    }
}

/// The moves of the kings on `squares`, in order.
pub open spec fn king_moves(b: ChessBoard, pl: PieceList, squares: Seq<i16>, piece: Piece, color: Color) -> Seq<Move>
    decreases squares.len(),
{
    if squares.len() == 0 {
        Seq::empty()
    } else {
        king_moves(b, pl, squares.drop_last(), piece, color) + king_steps(
            b,
            pl,
            squares.last() as int,
            king_offsets(),
            piece,
            color,
        )
    }
}

/// The castling move of a king from `king_from` to `king_to` with its rook
/// from `rook_from` to `rook_to`; the rook is white when the king starts on
/// e1.
pub open spec fn castle_move(b: ChessBoard, king_from: int, king_to: int, king: Piece, rook_from: int, rook_to: int) -> Move {
    Move {
        from: king_from as i16,
        to: king_to as i16,
        piece: king,
        captured_piece: Piece::EmptySquare,
        promotion: None,
        castling: Some(
            CastlingInfo {
                rook_from: rook_from as i16,
                rook_to: rook_to as i16,
                rook_piece: if king_from == 25 {
                    Piece::WhiteRook
                } else {
                    Piece::BlackRook
                },
            },
        ),
        en_passant: false,
        en_passant_square: None,
        previous_en_passant: b.en_passant_target,
        previous_castling_rights: Some(b.castling_rights),
    }
}

/// The castling moves of `color`: kingside first, then queenside, each when
/// it is allowed.
pub open spec fn castling_moves(b: ChessBoard, color: Color) -> Seq<Move> {
    let e: int = if color == Color::White { 25 } else { 95 };
    let king = king_of(color);
    let kingside = if castle_kingside_ok(b, color, e, e + 3) {
        seq![castle_move(b, e, e + 2, king, e + 3, e + 1)]
    } else {
        Seq::empty()
    };
    let queenside = if castle_queenside_ok(b, color, e, e - 4) {
        seq![castle_move(b, e, e - 2, king, e - 4, e - 1)]
    } else {
        Seq::empty()
    };
    kingside + queenside
}

/// The direction white pawns (up) or black pawns (down) move in.
pub open spec fn pawn_dir(color: Color) -> int {
    if color == Color::White {
        10
    } else {
        -10
    }
}

/// The row on which pawns of `color` promote (the 8th rank for white, the
/// 1st for black).
pub open spec fn promotion_row(color: Color) -> int {
    if color == Color::White {
        9
    } else {
        2
    }
}

/// The row from which pawns of `color` may advance two squares (the 2nd
/// rank for white, the 7th for black).
pub open spec fn double_push_row(color: Color) -> int {
    if color == Color::White {
        3
    } else {
        8
    }
}

/// The promotion choices of `color`, in order: queen, rook, bishop, knight.
pub open spec fn promotion_choices(color: Color) -> Seq<Piece> {
    seq![queen_of(color), rook_of(color), bishop_of(color), knight_of(color)]
}

/// A pawn move with the given promotion, en passant flag and en passant
/// target.
pub open spec fn pawn_move(
    b: ChessBoard,
    from: int,
    to: int,
    pawn: Piece,
    promotion: Option<Piece>,
    en_passant: bool,
    en_passant_square: Option<i16>,
) -> Move {
    Move {
        from: from as i16,
        to: to as i16,
        piece: pawn,
        captured_piece: b.at(to),
        promotion,
        castling: None,
        en_passant,
        en_passant_square,
        previous_en_passant: b.en_passant_target,
        previous_castling_rights: Some(b.castling_rights),
    }
}

/// A pawn's moves to `to`: one move, or one per promotion choice when `to`
/// is on the promotion row.
pub open spec fn pawn_moves_to(b: ChessBoard, from: int, to: int, pawn: Piece, color: Color) -> Seq<Move> {
    if to / 10 != promotion_row(color) {
        seq![pawn_move(b, from, to, pawn, None, false, None)]
    } else {
        Seq::new(4, |i: int| pawn_move(b, from, to, pawn, Some(promotion_choices(color)[i]), false, None))
    }
}

/// The en passant capture by the pawn on `s` onto the empty en passant
/// target `to`, taking the enemy pawn on `beside`, when the king of `color`
/// is not in check once both pawns have left their squares.
pub open spec fn en_passant_moves(
    b: ChessBoard,
    pl: PieceList,
    s: int,
    to: int,
    beside: int,
    pawn: Piece,
    color: Color,
) -> Seq<Move> {
    if b.en_passant_target == Some(to as i16) && b.at(to) == Piece::EmptySquare && b.at(beside)
        == pawn_of(color.spec_opposite()) && checking_pieces(
        b.board_squares@.update(s, Piece::EmptySquare).update(beside, Piece::EmptySquare),
        pl,
        color,
    ).len() == 0 {
        seq![pawn_move(b, s, to, pawn, None, true, None)]
    } else {
        Seq::empty()
    }
}

/// The captures of the pawn on `s` onto `to` (with `beside` the square of a
/// pawn taken en passant), when captures that way are `allowed`.
pub open spec fn pawn_capture_moves(
    b: ChessBoard,
    pl: PieceList,
    s: int,
    to: int,
    beside: int,
    pawn: Piece,
    color: Color,
    allowed: bool,
) -> Seq<Move> {
    if !allowed {
        Seq::empty()
    } else if is_enemy(b.at(to), color) {
        pawn_moves_to(b, s, to, pawn, color)
    } else {
        en_passant_moves(b, pl, s, to, beside, pawn, color)
    }
}

/// Whether a pawn may capture in direction `d`: it is not pinned, or pinned
/// along the line of `d`.
pub open spec fn pawn_capture_allowed(pinned: bool, pin: int, d: int) -> bool {
    !pinned || pin == d || pin == -d
}

/// The moves of the pawn on `s`: the single push, the capture to the right
/// file, the capture to the left file and the double push, in that order.
/// A pawn pinned along a rank cannot move; one pinned along its file can
/// only push; one pinned along a diagonal can only capture along it.
pub open spec fn pawn_moves_for(b: ChessBoard, pl: PieceList, pins: Map<i16, i16>, s: int, pawn: Piece, color: Color) -> Seq<Move> {
    let pinned = pins.contains_key(s as i16);
    let pin = pins[s as i16] as int;
    if pinned && (pin == 1 || pin == -1) {
        Seq::empty()
    } else {
        let forward = !(pinned && (pin == 11 || pin == -9 || pin == 9 || pin == -11));
        let right = pawn_capture_allowed(pinned, pin, pawn_dir(color) + 1);
        let left = pawn_capture_allowed(pinned, pin, pawn_dir(color) - 1);
        let f = s + pawn_dir(color);
        let t = s + 2 * pawn_dir(color);
        let single = if forward && b.at(f) == Piece::EmptySquare {
            pawn_moves_to(b, s, f, pawn, color)
        } else {
            Seq::empty()
        };
        let double = if forward && s / 10 == double_push_row(color) && b.at(f) == Piece::EmptySquare
            && b.at(t) == Piece::EmptySquare {
            seq![pawn_move(b, s, t, pawn, None, false, Some(f as i16))]
        } else {
            Seq::empty()
        };
        single + pawn_capture_moves(b, pl, s, f + 1, s + 1, pawn, color, right) + pawn_capture_moves(
            b,
            pl,
            s,
            f - 1,
            s - 1,
            pawn,
            color,
            left,
        ) + double
    }
}

/// The moves of the pawns on `squares`, in order.
pub open spec fn pawn_moves(b: ChessBoard, pl: PieceList, squares: Seq<i16>, pins: Map<i16, i16>, pawn: Piece, color: Color) -> Seq<Move>
    decreases squares.len(),
{
    if squares.len() == 0 {
        Seq::empty()
    } else {
        pawn_moves(b, pl, squares.drop_last(), pins, pawn, color) + pawn_moves_for(
            b,
            pl,
            pins,
            squares.last() as int,
            pawn,
            color,
        )
    }
}

/// A pawn move onto an empty or enemy square fits the board; so does a
/// promotion to a queen, rook, bishop or knight of the pawn's color.
proof fn lemma_pawn_move_fits(b: ChessBoard, from: int, to: int, pawn: Piece, color: Color, promotion: Option<Piece>)
    requires
        b.wf(),
        is_inner(from),
        0 <= to < 120,
        from != to,
        pawn == pawn_of(color),
        b.at(from) == pawn,
        b.at(to) == Piece::EmptySquare || is_enemy(b.at(to), color),
        promotion matches Some(p) ==> promotion_choices(color).contains(p),
    ensures
        pawn_move(b, from, to, pawn, promotion, false, None).fits(&b),
{
    assert(b.frame_ok());
    assert(b.at(to) != Piece::SentinelSquare);
    if let Some(p) = promotion {
        let k = choose|k: int| 0 <= k < 4 && promotion_choices(color)[k] == p;
    }
}

/// The pseudo-legal moves of `color`, in generation order: king moves,
/// castling, then queen, rook, bishop, knight and pawn moves, each
/// respecting pins. Moves of a king already in check are not filtered
/// further here.
pub open spec fn pseudo_legal_moves(b: ChessBoard, pl: PieceList, color: Color) -> Seq<Move> {
    let pins = pins(b.board_squares@, pl, color);
    king_moves(b, pl, pl.list(king_of(color)), king_of(color), color) + castling_moves(b, color)
        + slider_moves(b, pl.list(queen_of(color)), pins, queen_rays(), queen_of(color), color)
        + slider_moves(b, pl.list(rook_of(color)), pins, rook_rays(), rook_of(color), color)
        + slider_moves(b, pl.list(bishop_of(color)), pins, bishop_rays(), bishop_of(color), color)
        + knight_moves(b, pl.list(knight_of(color)), pins, knight_of(color), color) + pawn_moves(
        b,
        pl,
        pl.list(pawn_of(color)),
        pins,
        pawn_of(color),
        color,
    )
}

/// The non-king moves of `color` (queen, rook, bishop, knight, pawn), each
/// respecting pins.
pub open spec fn piece_moves(b: ChessBoard, pl: PieceList, color: Color) -> Seq<Move> {
    let pins = pins(b.board_squares@, pl, color);
    slider_moves(b, pl.list(queen_of(color)), pins, queen_rays(), queen_of(color), color)
        + slider_moves(b, pl.list(rook_of(color)), pins, rook_rays(), rook_of(color), color)
        + slider_moves(b, pl.list(bishop_of(color)), pins, bishop_rays(), bishop_of(color), color)
        + knight_moves(b, pl.list(knight_of(color)), pins, knight_of(color), color) + pawn_moves(
        b,
        pl,
        pl.list(pawn_of(color)),
        pins,
        pawn_of(color),
        color,
    )
}

/// The squares where a check by `attacker` can be met by a piece other
/// than the king: the attacker's square, and for a slider the squares
/// between it and the king.
pub open spec fn blocking_line(attacker: (Piece, i16), king: i16) -> Seq<i16> {
    let (p, s) = attacker;
    if p.kind() == PieceType::Queen || p.kind() == PieceType::Rook || p.kind() == PieceType::Bishop {
        seq![s] + squares_between(s as int, king as int)
    } else {
        seq![s]
    }
}

/// The moves of `color` against a single check by `attacker`: the other
/// pieces' moves that capture the attacker or block the line, then the king
/// moves.
pub open spec fn evasion_moves(b: ChessBoard, pl: PieceList, attacker: (Piece, i16), color: Color) -> Seq<Move> {
    match king_square(pl, color) {
        None => Seq::empty(),
        Some(k) => {
            let blocking = blocking_line(attacker, k);
            piece_moves(b, pl, color).filter(|m: Move| blocking.contains(m.to)) + king_moves(
                b,
                pl,
                pl.list(king_of(color)),
                king_of(color),
                color,
            )
        },
    }
}

/// The legal moves of `color`: the pseudo-legal moves when not in check,
/// the evasions of a single check, and only king moves against a double
/// check.
pub open spec fn legal_moves(b: ChessBoard, pl: PieceList, color: Color) -> Seq<Move> {
    let checks = checking_pieces(b.board_squares@, pl, color);
    if checks.len() == 0 {
        pseudo_legal_moves(b, pl, color)
    } else if checks.len() == 1 {
        evasion_moves(b, pl, checks[0], color)
    } else {
        king_moves(b, pl, pl.list(king_of(color)), king_of(color), color)
    }
}

/// The first non-empty square along a ray is found at one distance only.
pub proof fn lemma_ray_stop(sq: Seq<Piece>, s: int, d: int, n: int)
    requires
        stops_at(sq, s, d, n),
    ensures
        ray_stop(sq, s, d) == n,
{
    let m = choose|m: int| stops_at(sq, s, d, m);
    if m < n {
        assert(sq[ray_square(s, d, m)] == Piece::EmptySquare);
    } else if n < m {
        assert(sq[ray_square(s, d, n)] == Piece::EmptySquare);
    }
}

/// A move of `piece` from an on-board square holding it to a square that
/// is empty or holds an enemy fits the board.
proof fn lemma_plain_move_fits(b: ChessBoard, from: int, to: int, piece: Piece, color: Color)
    requires
        b.wf(),
        is_inner(from),
        0 <= to < 120,
        from != to,
        piece.is_piece(),
        piece.color() == color,
        b.at(from) == piece,
        b.at(to) == Piece::EmptySquare || is_enemy(b.at(to), color),
    ensures
        plain_move(b, from, to, piece).fits(&b),
{
    assert(b.frame_ok());
    assert(b.at(to) != Piece::SentinelSquare);
}

impl PieceList {
    /// Appends the moves of the slider on `square` along direction `ray`.
    fn push_ray_moves(
        chess_board: &ChessBoard,
        square: i16,
        ray: i16,
        piece: Piece,
        color: Color,
        moves: &mut Vec<Move>,
    )
        requires
            chess_board.wf(),
            is_inner(square as int),
            pin_directions().contains(ray as int),
            piece.is_piece(),
            piece.color() == color,
            chess_board.at(square as int) == piece,
            all_fit(old(moves)@, *chess_board),
        ensures
            final(moves)@ == old(moves)@ + slide_moves(*chess_board, square as int, ray as int, piece, color),
            all_fit(final(moves)@, *chess_board),
    {
        let ghost b = *chess_board;
        let ghost sq = chess_board.board_squares@;
        let ghost base = moves@;
        let ghost s = square as int;
        let ghost d = ray as int;
        let mut position = square + ray;
        let ghost mut k: int = 1;
        assert(position == ray_square(s, d, 1));
        loop
            invariant_except_break
                b == *chess_board,
                sq == chess_board.board_squares@,
                b.wf(),
                is_inner(s),
                s == square,
                d == ray,
                pin_directions().contains(d),
                piece.is_piece(),
                piece.color() == color,
                b.at(s) == piece,
                k >= 1,
                position == ray_square(s, d, k),
                0 <= position < 120,
                forall|j: int| 1 <= j < k ==> #[trigger] sq[ray_square(s, d, j)] == Piece::EmptySquare,
                moves@ == base + Seq::new((k - 1) as nat, |i: int| plain_move(b, s, ray_square(s, d, i + 1), piece)),
                all_fit(moves@, b),
            ensures
                moves@ == base + slide_moves(b, s, d, piece, color),
                all_fit(moves@, b),
            decreases if d > 0 {
                120 - position
            } else {
                position as int
            },
        {
            let target = chess_board.get_piece_on_square(position);
            assert(k * d != 0) by (nonlinear_arith)
                requires
                    k >= 1,
                    d != 0,
            ;
            let ghost quiet = Seq::new((k - 1) as nat, |i: int| plain_move(b, s, ray_square(s, d, i + 1), piece));
            if target.is_empty() {
                proof {
                    lemma_plain_move_fits(b, s, position as int, piece, color);
                }
                moves.push(Move::create_move(chess_board, square, position, piece, target));
                proof {
                    assert(b.frame_ok());
                    assert(b.at(position as int) != Piece::SentinelSquare);
                    assert(is_inner(position as int));
                    let next = Seq::new(k as nat, |i: int| plain_move(b, s, ray_square(s, d, i + 1), piece));
                    assert(moves@ =~= base + next);
                }
            } else if target.is_opponent(color) {
                proof {
                    lemma_plain_move_fits(b, s, position as int, piece, color);
                }
                moves.push(Move::create_move(chess_board, square, position, piece, target));
                proof {
                    assert(stops_at(sq, s, d, k));
                    lemma_ray_stop(sq, s, d, k);
                    assert(moves@ =~= base + slide_moves(b, s, d, piece, color));
                }
                break;
            }
            if target.is_sentinel() || target.is_friend(color) {
                proof {
                    assert(stops_at(sq, s, d, k));
                    lemma_ray_stop(sq, s, d, k);
                    assert(moves@ =~= base + slide_moves(b, s, d, piece, color));
                }
                break;
            }
            assert(ray_square(s, d, k + 1) == position + ray) by (nonlinear_arith)
                requires
                    position == s + k * d,
                    d == ray,
            ;
            position = position + ray;
            proof {
                k = k + 1;
            }
        }
    }

    /// Appends the moves of every `piece` slider: for each listed square, in
    /// order, its moves along each allowed direction of `base_rays`.
    fn push_slider_moves(
        &self,
        chess_board: &ChessBoard,
        pinned_pieces: &HashMap<i16, i16>,
        color: Color,
        piece: Piece,
        base_rays: &RayList,
        moves: &mut Vec<Move>,
    )
        requires
            chess_board.wf(),
            tracks(*self, *chess_board),
            piece.is_piece(),
            piece.color() == color,
            valid_rays(ray_contents(*base_rays)),
            all_fit(old(moves)@, *chess_board),
        ensures
            final(moves)@ == old(moves)@ + slider_moves(
                *chess_board,
                self.list(piece),
                pinned_pieces@,
                ray_contents(*base_rays),
                piece,
                color,
            ),
            all_fit(final(moves)@, *chess_board),
    {
        let ghost base = moves@;
        let ghost b = *chess_board;
        let ghost l = self.list(piece);
        let list = match self.get_list(piece) {
            Some(list) => list,
            None => {
                return;
            },
        };
        assert(sorted_inner(l));
        let mut i: usize = 0;
        while i < list.len()
            invariant
                b == *chess_board,
                b.wf(),
                tracks(*self, b),
                piece.is_piece(),
                piece.color() == color,
                valid_rays(ray_contents(*base_rays)),
                list@ == l,
                l == self.list(piece),
                sorted_inner(l),
                i <= l.len(),
                moves@ == base + slider_moves(b, l.take(i as int), pinned_pieces@, ray_contents(*base_rays), piece, color),
                all_fit(moves@, b),
            decreases l.len() - i,
        {
            let square = list[i];
            assert(is_inner(square as int));
            assert(b.at(square as int) == piece);
            let mut rays = base_rays.duplicate();
            if let Some(pin_direction) = pinned_pieces.get(&square) {
                rays.retain_along(*pin_direction);
            }
            let ghost allowed = allowed_rays(ray_contents(*base_rays), pinned_pieces@, square);
            assert(ray_contents(rays) == allowed);
            assert(valid_rays(allowed)) by {
                assert forall|j: int| 0 <= j < allowed.len() implies pin_directions().contains(#[trigger] allowed[j] as int) by {
                    if pinned_pieces@.contains_key(square) {
                        let pred = |d: i16| along(d, pinned_pieces@[square]);
                        assert(allowed.contains(allowed[j]));
                        ray_contents(*base_rays).lemma_filter_contains_rev(pred, allowed[j]);
                    }
                }
            }
            let ghost before = moves@;
            let mut j: usize = 0;
            while j < rays.len()
                invariant
                    b == *chess_board,
                    b.wf(),
                    is_inner(square as int),
                    piece.is_piece(),
                    piece.color() == color,
                    b.at(square as int) == piece,
                    ray_contents(rays) == allowed,
                    valid_rays(allowed),
                    j <= allowed.len(),
                    moves@ == before + moves_over_rays(b, square as int, allowed.take(j as int), piece, color),
                    all_fit(moves@, b),
                decreases allowed.len() - j,
            {
                let ray = rays.get(j);
                assert(pin_directions().contains(allowed[j as int] as int));
                Self::push_ray_moves(chess_board, square, ray, piece, color, moves);
                assert(allowed.take(j as int + 1).drop_last() =~= allowed.take(j as int));
                j = j + 1;
            }
            assert(allowed.take(j as int) =~= allowed);
            assert(l.take(i as int + 1).drop_last() =~= l.take(i as int));
            assert(moves@ =~= base + slider_moves(b, l.take(i as int + 1), pinned_pieces@, ray_contents(*base_rays), piece, color));
            i = i + 1;
        }
        assert(l.take(i as int) =~= l);
    }
}

impl PieceList {
    /// Generates queen moves, each along its pin line if pinned.
    pub fn generate_queen_moves(
        &mut self,
        chess_board: &mut ChessBoard,
        pinned_pieces: &HashMap<i16, i16>,
        color: Color,
    ) -> (moves: Vec<Move>)
        requires
            old(chess_board).wf(),
            tracks(*old(self), *old(chess_board)),
        ensures
            *final(self) == *old(self),
            *final(chess_board) == *old(chess_board),
            moves@ == slider_moves(*old(chess_board), old(self).list(queen_of(color)), pinned_pieces@, queen_rays(), queen_of(color), color),
            all_fit(moves@, *old(chess_board)),
    {
        let mut moves: Vec<Move> = Vec::new();
        let queen = if color == Color::White {
            Piece::WhiteQueen
        } else {
            Piece::BlackQueen
        };
        let w = chess_board.board_width;
        let directions: [i16; 8] = [-1, 1, w, -w, w + 1, -w + 1, w - 1, -w - 1];
        let queen_possible_rays = RayList::from_slice(directions.as_slice());
        assert(ray_contents(queen_possible_rays) =~= queen_rays());
        assert(valid_rays(queen_rays())) by {
            assert forall|i: int| 0 <= i < 8 implies pin_directions().contains(#[trigger] queen_rays()[i] as int) by {
                let d = queen_rays()[i] as int;
                if d == -1 { assert(pin_directions()[0] == d); }
                else if d == 1 { assert(pin_directions()[1] == d); }
                else if d == -10 { assert(pin_directions()[2] == d); }
                else if d == 10 { assert(pin_directions()[3] == d); }
                else if d == -11 { assert(pin_directions()[4] == d); }
                else if d == -9 { assert(pin_directions()[5] == d); }
                else if d == 9 { assert(pin_directions()[6] == d); }
                else { assert(pin_directions()[7] == d); }
            }
        }
        self.push_slider_moves(chess_board, pinned_pieces, color, queen, &queen_possible_rays, &mut moves);
        moves
    }

    /// Generates rook moves, each along its pin line if pinned.
    pub fn generate_rook_moves(
        &mut self,
        chess_board: &mut ChessBoard,
        pinned_pieces: &HashMap<i16, i16>,
        color: Color,
    ) -> (moves: Vec<Move>)
        requires
            old(chess_board).wf(),
            tracks(*old(self), *old(chess_board)),
        ensures
            *final(self) == *old(self),
            *final(chess_board) == *old(chess_board),
            moves@ == slider_moves(*old(chess_board), old(self).list(rook_of(color)), pinned_pieces@, rook_rays(), rook_of(color), color),
            all_fit(moves@, *old(chess_board)),
    {
        let mut moves: Vec<Move> = Vec::new();
        let rook = if color == Color::White {
            Piece::WhiteRook
        } else {
            Piece::BlackRook
        };
        let w = chess_board.board_width;
        let directions: [i16; 4] = [1, -1, -w, w];
        let rook_possible_rays = RayList::from_slice(directions.as_slice());
        assert(ray_contents(rook_possible_rays) =~= rook_rays());
        assert(valid_rays(rook_rays())) by {
            assert(pin_directions()[0] == -1);
            assert(pin_directions()[1] == 1);
            assert(pin_directions()[2] == -10);
            assert(pin_directions()[3] == 10);
        }
        self.push_slider_moves(chess_board, pinned_pieces, color, rook, &rook_possible_rays, &mut moves);
        moves
    }

    /// Generates bishop moves, each along its pin line if pinned.
    pub fn generate_bishop_moves(
        &mut self,
        chess_board: &mut ChessBoard,
        pinned_pieces: &HashMap<i16, i16>,
        color: Color,
    ) -> (moves: Vec<Move>)
        requires
            old(chess_board).wf(),
            tracks(*old(self), *old(chess_board)),
        ensures
            *final(self) == *old(self),
            *final(chess_board) == *old(chess_board),
            moves@ == slider_moves(*old(chess_board), old(self).list(bishop_of(color)), pinned_pieces@, bishop_rays(), bishop_of(color), color),
            all_fit(moves@, *old(chess_board)),
    {
        let mut moves: Vec<Move> = Vec::new();
        let bishop = if color == Color::White {
            Piece::WhiteBishop
        } else {
            Piece::BlackBishop
        };
        let w = chess_board.board_width;
        let directions: [i16; 4] = [w + 1, w - 1, -w + 1, -w - 1];
        let bishop_possible_rays = RayList::from_slice(directions.as_slice());
        assert(ray_contents(bishop_possible_rays) =~= bishop_rays());
        assert(valid_rays(bishop_rays())) by {
            assert(pin_directions()[4] == -11);
            assert(pin_directions()[5] == -9);
            assert(pin_directions()[6] == 9);
            assert(pin_directions()[7] == 11);
        }
        self.push_slider_moves(chess_board, pinned_pieces, color, bishop, &bishop_possible_rays, &mut moves);
        moves
    }

    /// Generates knight moves; a pinned knight cannot move.
    pub fn generate_knight_moves(
        &mut self,
        chess_board: &mut ChessBoard,
        pinned_pieces: &HashMap<i16, i16>,
        color: Color,
    ) -> (moves: Vec<Move>)
        requires
            old(chess_board).wf(),
            tracks(*old(self), *old(chess_board)),
        ensures
            *final(self) == *old(self),
            *final(chess_board) == *old(chess_board),
            moves@ == knight_moves(*old(chess_board), old(self).list(knight_of(color)), pinned_pieces@, knight_of(color), color),
            all_fit(moves@, *old(chess_board)),
    {
        let ghost b = *chess_board;
        let mut moves: Vec<Move> = Vec::new();
        let knight = if color == Color::White {
            Piece::WhiteKnight
        } else {
            Piece::BlackKnight
        };
        let w = chess_board.board_width;
        let knight_rays: [i16; 8] = [
            2 * w + 1,
            2 * w - 1,
            -2 * w + 1,
            -2 * w - 1,
            w * 1 + 2,
            w * 1 - 2,
            -w * 1 + 2,
            -w * 1 - 2,
        ];
        assert(forall|k: int| 0 <= k < 8 ==> #[trigger] knight_rays@[k] as int == knight_offsets()[k]);
        let ghost l = self.list(knight);
        let knight_list = match self.get_list(knight) {
            Some(list) => list,
            None => {
                return moves;
            },
        };
        assert(sorted_inner(l));
        let mut i: usize = 0;
        while i < knight_list.len()
            invariant
                b == *chess_board,
                b.wf(),
                tracks(*self, b),
                knight == knight_of(color),
                knight_list@ == l,
                l == self.list(knight),
                sorted_inner(l),
                forall|k: int| 0 <= k < 8 ==> #[trigger] knight_rays@[k] as int == knight_offsets()[k],
                i <= l.len(),
                moves@ == knight_moves(b, l.take(i as int), pinned_pieces@, knight, color),
                all_fit(moves@, b),
            decreases l.len() - i,
        {
            let square = knight_list[i];
            assert(is_inner(square as int));
            assert(b.at(square as int) == knight);
            assert(l.take(i as int + 1).drop_last() =~= l.take(i as int));
            if pinned_pieces.contains_key(&square) {
                i = i + 1;
                continue;
            }
            let ghost before = moves@;
            let mut k: usize = 0;
            while k < 8
                invariant
                    b == *chess_board,
                    b.wf(),
                    is_inner(square as int),
                    knight == knight_of(color),
                    b.at(square as int) == knight,
                    forall|k: int| 0 <= k < 8 ==> #[trigger] knight_rays@[k] as int == knight_offsets()[k],
                    k <= 8,
                    moves@ == before + step_moves(b, square as int, knight_offsets().take(k as int), knight, color),
                    all_fit(moves@, b),
                decreases 8 - k,
            {
                let ray = knight_rays[k];
                assert(knight_offsets().take(k as int + 1).drop_last() =~= knight_offsets().take(k as int));
                let target = chess_board.get_piece_on_square(square + ray);
                if target.is_empty() || target.is_opponent(color) {
                    proof {
                        lemma_plain_move_fits(b, square as int, square + ray, knight, color);
                    }
                    moves.push(Move::create_move(chess_board, square, square + ray, knight, target));
                }
                k = k + 1;
            }
            assert(knight_offsets().take(8) =~= knight_offsets());
            i = i + 1;
        }
        assert(l.take(i as int) =~= l);
        moves
    }
}

impl PieceList {
    /// Generates king moves onto squares that are not attacked once the
    /// king has left its square.
    pub fn generate_king_moves(&mut self, chess_board: &mut ChessBoard, color: Color) -> (moves: Vec<Move>)
        requires
            old(chess_board).wf(),
            tracks(*old(self), *old(chess_board)),
        ensures
            *final(self) == *old(self),
            *final(chess_board) == *old(chess_board),
            moves@ == king_moves(*old(chess_board), *old(self), old(self).list(king_of(color)), king_of(color), color),
            all_fit(moves@, *old(chess_board)),
    {
        let ghost b = *chess_board;
        let mut moves: Vec<Move> = Vec::new();
        let king = if color == Color::White {
            Piece::WhiteKing
        } else {
            Piece::BlackKing
        };
        let w = chess_board.board_width;
        let king_rays: [i16; 8] = [-1, 1, w, -w, w + 1, -w + 1, w - 1, -w - 1];
        assert(forall|k: int| 0 <= k < 8 ==> #[trigger] king_rays@[k] as int == king_offsets()[k]);
        let ghost l = self.list(king);
        let king_list = match self.get_list(king) {
            Some(list) => list,
            None => {
                return moves;
            },
        };
        assert(sorted_inner(l));
        let mut i: usize = 0;
        while i < king_list.len()
            invariant
                b == *chess_board,
                b.wf(),
                tracks(*self, b),
                king == king_of(color),
                king_list@ == l,
                l == self.list(king),
                sorted_inner(l),
                forall|k: int| 0 <= k < 8 ==> #[trigger] king_rays@[k] as int == king_offsets()[k],
                i <= l.len(),
                moves@ == king_moves(b, *self, l.take(i as int), king, color),
                all_fit(moves@, b),
            decreases l.len() - i,
        {
            let square = king_list[i];
            assert(is_inner(square as int));
            assert(b.at(square as int) == king);
            let ghost before = moves@;
            let mut k: usize = 0;
            while k < 8
                invariant
                    b == *chess_board,
                    b.wf(),
                    tracks(*self, b),
                    is_inner(square as int),
                    king == king_of(color),
                    b.at(square as int) == king,
                    forall|k: int| 0 <= k < 8 ==> #[trigger] king_rays@[k] as int == king_offsets()[k],
                    k <= 8,
                    moves@ == before + king_steps(b, *self, square as int, king_offsets().take(k as int), king, color),
                    all_fit(moves@, b),
                decreases 8 - k,
            {
                let ray = king_rays[k];
                assert(king_offsets().take(k as int + 1).drop_last() =~= king_offsets().take(k as int));
                let position = square + ray;
                chess_board.set_piece_on_square(Piece::EmptySquare, square);
                if self.is_square_attacked(chess_board, position, color.opposite()) {
                    chess_board.set_piece_on_square(king, square);
                    assert(chess_board.board_squares =~= b.board_squares);
                    k = k + 1;
                    continue;
                }
                chess_board.set_piece_on_square(king, square);
                assert(chess_board.board_squares =~= b.board_squares);
                let target = chess_board.get_piece_on_square(position);
                if target.is_empty() || target.is_opponent(color) {
                    proof {
                        lemma_plain_move_fits(b, square as int, position as int, king, color);
                    }
                    moves.push(Move::create_move(chess_board, square, position, king, target));
                }
                k = k + 1;
            }
            assert(king_offsets().take(8) =~= king_offsets());
            assert(l.take(i as int + 1).drop_last() =~= l.take(i as int));
            i = i + 1;
        }
        assert(l.take(i as int) =~= l);
        moves
    }
}

impl PieceList {
    /// Generates the castling moves that are allowed for `color`.
    pub fn generate_castling_moves(&self, chess_board: &ChessBoard, color: Color) -> (moves: Vec<Move>)
        requires
            chess_board.wf(),
        ensures
            moves@ == castling_moves(*chess_board, color),
            all_fit(moves@, *chess_board),
    {
        proof {
            reveal_strlit("e1");
            reveal_strlit("h1");
            reveal_strlit("a1");
            reveal_strlit("e8");
            reveal_strlit("h8");
            reveal_strlit("a8");
        }
        let mut moves: Vec<Move> = Vec::new();
        let (king_square, king_piece, rook_kingside, rook_queenside) = match color {
            Color::White => (
                chess_board.algebraic_to_internal("e1"),
                Piece::WhiteKing,
                chess_board.algebraic_to_internal("h1"),
                chess_board.algebraic_to_internal("a1"),
            ),
            Color::Black => (
                chess_board.algebraic_to_internal("e8"),
                Piece::BlackKing,
                chess_board.algebraic_to_internal("h8"),
                chess_board.algebraic_to_internal("a8"),
            ),
        };
        let castling_rights = &chess_board.castling_rights;
        if (color == Color::White && castling_rights.white_kingside) || (color == Color::Black
            && castling_rights.black_kingside) {
            if chess_board.can_castle_kingside(color, king_square, rook_kingside) {
                let king_to = king_square + 2;
                let rook_to = king_square + 1;
                moves.push(
                    Move::create_castling_move(
                        chess_board,
                        king_square,
                        king_to,
                        king_piece,
                        rook_kingside,
                        rook_to,
                    ),
                );
            }
        }
        let ghost kingside = moves@;
        if (color == Color::White && castling_rights.white_queenside) || (color == Color::Black
            && castling_rights.black_queenside) {
            if chess_board.can_castle_queenside(color, king_square, rook_queenside) {
                let king_to = king_square - 2;
                let rook_to = king_square - 1;
                moves.push(
                    Move::create_castling_move(
                        chess_board,
                        king_square,
                        king_to,
                        king_piece,
                        rook_queenside,
                        rook_to,
                    ),
                );
            }
        }
        assert(moves@ =~= castling_moves(*chess_board, color));
        moves
    }
}

impl PieceList {
    /// Appends a pawn's moves to `to`: one, or one per promotion choice on
    /// the promotion row.
    fn push_pawn_moves_to(
        chess_board: &ChessBoard,
        square: i16,
        to: i16,
        pawn: Piece,
        color: Color,
        promotion_rank: i16,
        promotion_pieces: &[Piece; 4],
        moves: &mut Vec<Move>,
    )
        requires
            chess_board.wf(),
            is_inner(square as int),
            0 <= to < 120,
            square != to,
            pawn == pawn_of(color),
            chess_board.at(square as int) == pawn,
            chess_board.at(to as int) == Piece::EmptySquare || is_enemy(chess_board.at(to as int), color),
            promotion_rank == promotion_row(color),
            promotion_pieces@ == promotion_choices(color),
            all_fit(old(moves)@, *chess_board),
        ensures
            final(moves)@ == old(moves)@ + pawn_moves_to(*chess_board, square as int, to as int, pawn, color),
            all_fit(final(moves)@, *chess_board),
    {
        let ghost b = *chess_board;
        let ghost base = moves@;
        let target = chess_board.get_piece_on_square(to);
        if chess_board.square_rank(to) != promotion_rank {
            proof {
                lemma_pawn_move_fits(b, square as int, to as int, pawn, color, None);
            }
            moves.push(Move::create_pawn_move(chess_board, square, to, pawn, target, None, false, None));
            assert(moves@ =~= base + pawn_moves_to(b, square as int, to as int, pawn, color));
        } else {
            let mut k: usize = 0;
            while k < 4
                invariant
                    b == *chess_board,
                    b.wf(),
                    is_inner(square as int),
                    0 <= to < 120,
                    square != to,
                    pawn == pawn_of(color),
                    b.at(square as int) == pawn,
                    target == b.at(to as int),
                    b.at(to as int) == Piece::EmptySquare || is_enemy(b.at(to as int), color),
                    promotion_pieces@ == promotion_choices(color),
                    k <= 4,
                    moves@ == base + Seq::new(k as nat, |i: int| pawn_move(b, square as int, to as int, pawn, Some(promotion_choices(color)[i]), false, None)),
                    all_fit(moves@, b),
                decreases 4 - k,
            {
                let promotion = promotion_pieces[k];
                proof {
                    assert(promotion_choices(color)[k as int] == promotion);
                    assert(promotion_choices(color).contains(promotion));
                    lemma_pawn_move_fits(b, square as int, to as int, pawn, color, Some(promotion));
                }
                moves.push(Move::create_pawn_move(chess_board, square, to, pawn, target, Some(promotion), false, None));
                assert(moves@ =~= base + Seq::new(k as nat + 1, |i: int| pawn_move(b, square as int, to as int, pawn, Some(promotion_choices(color)[i]), false, None)));
                k = k + 1;
            }
            assert(moves@ =~= base + pawn_moves_to(b, square as int, to as int, pawn, color));
        }
    }

    /// Appends the en passant capture by the pawn on `square` onto `to`,
    /// taking the enemy pawn on `beside`, when `to` is empty, an enemy pawn
    /// stands on `beside`, and the king is not in check once both pawns have
    /// left their squares. `to` is the en passant target.
    fn push_en_passant(
        &self,
        chess_board: &mut ChessBoard,
        square: i16,
        to: i16,
        beside: i16,
        pawn: Piece,
        color: Color,
        moves: &mut Vec<Move>,
    )
        requires
            old(chess_board).wf(),
            tracks(*self, *old(chess_board)),
            is_inner(square as int),
            beside == square + 1 || beside == square - 1,
            to == beside + pawn_dir(color),
            old(chess_board).en_passant_target == Some(to),
            pawn == pawn_of(color),
            old(chess_board).at(square as int) == pawn,
            all_fit(old(moves)@, *old(chess_board)),
        ensures
            *final(chess_board) == *old(chess_board),
            final(moves)@ == old(moves)@ + en_passant_moves(*old(chess_board), *self, square as int, to as int, beside as int, pawn, color),
            all_fit(final(moves)@, *old(chess_board)),
    {
        let ghost b = *chess_board;
        let ghost base = moves@;
        let target = chess_board.get_piece_on_square(to);
        let enemy = if color == Color::White {
            Piece::BlackPawn
        } else {
            Piece::WhitePawn
        };
        if !target.is_empty() || chess_board.get_piece_on_square(beside) != enemy {
            assert(moves@ =~= base + en_passant_moves(b, *self, square as int, to as int, beside as int, pawn, color));
            return;
        }
        chess_board.set_piece_on_square(Piece::EmptySquare, square);
        let enemy_pawn = chess_board.get_piece_on_square(beside);
        chess_board.set_piece_on_square(Piece::EmptySquare, beside);
        assert(chess_board.board_squares@ == b.board_squares@.update(square as int, Piece::EmptySquare).update(beside as int, Piece::EmptySquare));
        if self.is_king_in_check(chess_board, color).is_empty() {
            proof {
                assert(b.frame_ok());
                assert(b.at(to as int) != Piece::SentinelSquare);
                assert(b.at(beside as int) != Piece::SentinelSquare);
                let m = pawn_move(b, square as int, to as int, pawn, None, true, None);
                assert(m.en_passant_capture_square() == beside as int);
                assert(m.fits(&b));
            }
            moves.push(Move::create_pawn_move(chess_board, square, to, pawn, target, None, true, None));
        }
        chess_board.set_piece_on_square(pawn, square);
        chess_board.set_piece_on_square(enemy_pawn, beside);
        assert(chess_board.board_squares =~= b.board_squares);
        assert(moves@ =~= base + en_passant_moves(b, *self, square as int, to as int, beside as int, pawn, color));
    }
}

impl PieceList {
    /// Appends the double push of the pawn on `square` when it stands on its
    /// double-push row and both squares ahead are empty.
    fn push_double_push(
        chess_board: &ChessBoard,
        square: i16,
        pawn: Piece,
        color: Color,
        direction: i16,
        double_push_rank: i16,
        move_forward: bool,
        moves: &mut Vec<Move>,
    )
        requires
            chess_board.wf(),
            is_inner(square as int),
            pawn == pawn_of(color),
            chess_board.at(square as int) == pawn,
            direction == pawn_dir(color),
            double_push_rank == double_push_row(color),
            all_fit(old(moves)@, *chess_board),
        ensures
            final(moves)@ == old(moves)@ + (if move_forward && square / 10 == double_push_row(color)
                && chess_board.at(square + pawn_dir(color)) == Piece::EmptySquare && chess_board.at(
                square + 2 * pawn_dir(color),
            ) == Piece::EmptySquare {
                seq![pawn_move(*chess_board, square as int, square + 2 * pawn_dir(color), pawn, None, false, Some((square + pawn_dir(color)) as i16))]
            } else {
                Seq::empty()
            }),
            all_fit(final(moves)@, *chess_board),
    {
        let ghost b = *chess_board;
        let ghost base = moves@;
        let first_target = chess_board.get_piece_on_square(square + direction);
        let target = chess_board.get_piece_on_square(square + 2 * direction);
        if move_forward && (color == Color::White) && (chess_board.square_rank(square) == double_push_rank) {
            if first_target.is_empty() && target.is_empty() {
                proof {
                    assert(b.frame_ok());
                    assert(b.at(square + direction) != Piece::SentinelSquare);
                    assert(b.at(square + 2 * direction) != Piece::SentinelSquare);
                }
                moves.push(Move::create_pawn_move(chess_board, square, square + 2 * direction, pawn, target, None, false, Some(square + direction)));
            }
        }
        if move_forward && (color == Color::Black) && (chess_board.square_rank(square) == double_push_rank) {
            if first_target.is_empty() && target.is_empty() {
                proof {
                    assert(b.frame_ok());
                    assert(b.at(square + direction) != Piece::SentinelSquare);
                    assert(b.at(square + 2 * direction) != Piece::SentinelSquare);
                }
                moves.push(Move::create_pawn_move(chess_board, square, square + 2 * direction, pawn, target, None, false, Some(square + direction)));
            }
        }
        assert(moves@ =~= base + (if move_forward && square / 10 == double_push_row(color)
                && b.at(square + pawn_dir(color)) == Piece::EmptySquare && b.at(
                square + 2 * pawn_dir(color),
            ) == Piece::EmptySquare {
                seq![pawn_move(b, square as int, square + 2 * pawn_dir(color), pawn, None, false, Some((square + pawn_dir(color)) as i16))]
            } else {
                Seq::empty()
            }));
    }

    /// Appends the captures of the pawn on `square` onto `to` (a pawn taken
    /// en passant stands on `beside`), when `allowed`.
    fn push_pawn_captures(
        &self,
        chess_board: &mut ChessBoard,
        square: i16,
        to: i16,
        beside: i16,
        pawn: Piece,
        color: Color,
        promotion_rank: i16,
        promotion_pieces: &[Piece; 4],
        allowed: bool,
        moves: &mut Vec<Move>,
    )
        requires
            old(chess_board).wf(),
            tracks(*self, *old(chess_board)),
            is_inner(square as int),
            beside == square + 1 || beside == square - 1,
            to == beside + pawn_dir(color),
            pawn == pawn_of(color),
            old(chess_board).at(square as int) == pawn,
            promotion_rank == promotion_row(color),
            promotion_pieces@ == promotion_choices(color),
            all_fit(old(moves)@, *old(chess_board)),
        ensures
            *final(chess_board) == *old(chess_board),
            final(moves)@ == old(moves)@ + pawn_capture_moves(*old(chess_board), *self, square as int, to as int, beside as int, pawn, color, allowed),
            all_fit(final(moves)@, *old(chess_board)),
    {
        let target = chess_board.get_piece_on_square(to);
        if allowed && target.is_opponent(color) {
            Self::push_pawn_moves_to(chess_board, square, to, pawn, color, promotion_rank, promotion_pieces, moves);
        } else if allowed && (Some(to) == chess_board.get_en_passant_target()) {
            self.push_en_passant(chess_board, square, to, beside, pawn, color, moves);
        } else {
            proof {
                if allowed {
                    assert(en_passant_moves(*chess_board, *self, square as int, to as int, beside as int, pawn, color) =~= Seq::<Move>::empty());
                }
            }
            assert(moves@ =~= old(moves)@ + pawn_capture_moves(*chess_board, *self, square as int, to as int, beside as int, pawn, color, allowed));
        }
    }

    /// Appends the moves of the pawn on `square` (see [`pawn_moves_for`]).
    #[verifier::rlimit(60)]
    fn push_pawn_moves_for(
        &self,
        chess_board: &mut ChessBoard,
        pinned_pieces: &HashMap<i16, i16>,
        square: i16,
        pawn: Piece,
        color: Color,
        promotion_rank: i16,
        double_push_rank: i16,
        promotion_pieces: &[Piece; 4],
        moves: &mut Vec<Move>,
    )
        requires
            old(chess_board).wf(),
            tracks(*self, *old(chess_board)),
            is_inner(square as int),
            pawn == pawn_of(color),
            old(chess_board).at(square as int) == pawn,
            promotion_rank == promotion_row(color),
            double_push_rank == double_push_row(color),
            promotion_pieces@ == promotion_choices(color),
            all_fit(old(moves)@, *old(chess_board)),
        ensures
            *final(chess_board) == *old(chess_board),
            final(moves)@ == old(moves)@ + pawn_moves_for(*old(chess_board), *self, pinned_pieces@, square as int, pawn, color),
            all_fit(final(moves)@, *old(chess_board)),
    {
        let ghost b = *chess_board;
        let ghost s = square as int;
        let ghost before = moves@;
        let w = chess_board.board_width;
        let direction: i16 = match color {
            Color::White => chess_board.board_width,
            Color::Black => -chess_board.board_width,
        };
        let mut move_forward = true;
        let mut capture_left = true;
        let mut capture_right = true;
        if let Some(pin_direction) = pinned_pieces.get(&square) {
            let pin_direction = *pin_direction;
            if pin_direction == 1 || pin_direction == -1 {
                assert(moves@ =~= before + pawn_moves_for(b, *self, pinned_pieces@, s, pawn, color));
                return;
            }
            move_forward = !(pin_direction == w + 1 || pin_direction == -w - 1 || pin_direction == w - 1
                || pin_direction == -w + 1);
            capture_right = pin_direction == direction + 1 || pin_direction == -(direction + 1);
            capture_left = pin_direction == direction - 1 || pin_direction == -(direction - 1);
        }
        let ghost pinned = pinned_pieces@.contains_key(square);
        let ghost pin = pinned_pieces@[square] as int;
        assert(!(pinned && (pin == 1 || pin == -1)));
        assert(move_forward == !(pinned && (pin == 11 || pin == -9 || pin == 9 || pin == -11)));
        assert(capture_right == pawn_capture_allowed(pinned, pin, pawn_dir(color) + 1));
        assert(capture_left == pawn_capture_allowed(pinned, pin, pawn_dir(color) - 1));
        let first_target = chess_board.get_piece_on_square(square + direction);
        if move_forward && first_target.is_empty() {
            Self::push_pawn_moves_to(chess_board, square, square + direction, pawn, color, promotion_rank, promotion_pieces, moves);
        }
        let ghost after_single = moves@;
        self.push_pawn_captures(chess_board, square, square + direction + 1, square + 1, pawn, color, promotion_rank, promotion_pieces, capture_right, moves);
        let ghost after_right = moves@;
        self.push_pawn_captures(chess_board, square, square + direction - 1, square - 1, pawn, color, promotion_rank, promotion_pieces, capture_left, moves);
        let ghost after_left = moves@;
        Self::push_double_push(chess_board, square, pawn, color, direction, double_push_rank, move_forward, moves);
        assert(moves@ =~= before + pawn_moves_for(b, *self, pinned_pieces@, s, pawn, color));
    }

    /// Generates pawn moves: pushes, double pushes, captures, en passant
    /// captures and promotions, as far as pins allow.
    pub fn generate_pawn_moves(
        &mut self,
        chess_board: &mut ChessBoard,
        pinned_pieces: &HashMap<i16, i16>,
        color: Color,
    ) -> (moves: Vec<Move>)
        requires
            old(chess_board).wf(),
            tracks(*old(self), *old(chess_board)),
        ensures
            *final(self) == *old(self),
            *final(chess_board) == *old(chess_board),
            moves@ == pawn_moves(*old(chess_board), *old(self), old(self).list(pawn_of(color)), pinned_pieces@, pawn_of(color), color),
            all_fit(moves@, *old(chess_board)),
    {
        proof {
            reveal_strlit("e8");
            reveal_strlit("e1");
            reveal_strlit("e2");
            reveal_strlit("e7");
        }
        let ghost b = *chess_board;
        let mut moves: Vec<Move> = Vec::new();
        let pawn = if color == Color::White {
            Piece::WhitePawn
        } else {
            Piece::BlackPawn
        };
        let promotion_pieces: [Piece; 4] = match color {
            Color::White => [Piece::WhiteQueen, Piece::WhiteRook, Piece::WhiteBishop, Piece::WhiteKnight],
            Color::Black => [Piece::BlackQueen, Piece::BlackRook, Piece::BlackBishop, Piece::BlackKnight],
        };
        assert(promotion_pieces@ =~= promotion_choices(color));
        let promotion_rank = match color {
            Color::White => chess_board.square_rank(chess_board.algebraic_to_internal("e8")),
            Color::Black => chess_board.square_rank(chess_board.algebraic_to_internal("e1")),
        };
        let double_push_rank = match color {
            Color::White => chess_board.square_rank(chess_board.algebraic_to_internal("e2")),
            Color::Black => chess_board.square_rank(chess_board.algebraic_to_internal("e7")),
        };
        let ghost l = self.list(pawn);
        let pawn_list = match self.get_list(pawn) {
            Some(list) => list,
            None => {
                return moves;
            },
        };
        assert(sorted_inner(l));
        let mut i: usize = 0;
        while i < pawn_list.len()
            invariant
                b == *chess_board,
                b.wf(),
                tracks(*self, b),
                pawn == pawn_of(color),
                promotion_pieces@ == promotion_choices(color),
                promotion_rank == promotion_row(color),
                double_push_rank == double_push_row(color),
                pawn_list@ == l,
                l == self.list(pawn),
                sorted_inner(l),
                i <= l.len(),
                moves@ == pawn_moves(b, *self, l.take(i as int), pinned_pieces@, pawn, color),
                all_fit(moves@, b),
            decreases l.len() - i,
        {
            let square = pawn_list[i];
            assert(is_inner(square as int));
            assert(b.at(square as int) == pawn);
            self.push_pawn_moves_for(chess_board, pinned_pieces, square, pawn, color, promotion_rank, double_push_rank, &promotion_pieces, &mut moves);
            assert(l.take(i as int + 1).drop_last() =~= l.take(i as int));
            i = i + 1;
        }
        assert(l.take(i as int) =~= l);
        moves
    }
}
/// Checks if a list of squares holds a square.
fn holds_square(squares: &Vec<i16>, square: i16) -> (r: bool)
    ensures
        r == squares@.contains(square),
{
    let mut i: usize = 0;
    while i < squares.len()
        invariant
            i <= squares@.len(),
            forall|j: int| 0 <= j < i ==> squares@[j] != square,
        decreases squares@.len() - i,
    {
        if squares[i] == square {
            return true;
        }
        i = i + 1;
    }
    false
}

/// Keeps, in order, the moves whose destination is one of the squares.
fn keep_moves_to(moves: Vec<Move>, squares: &Vec<i16>) -> (r: Vec<Move>)
    ensures
        r@ == moves@.filter(|m: Move| squares@.contains(m.to)),
{
    let ghost pred = |m: Move| squares@.contains(m.to);
    let mut kept: Vec<Move> = Vec::new();
    let mut i: usize = 0;
    while i < moves.len()
        invariant
            i <= moves@.len(),
            pred == (|m: Move| squares@.contains(m.to)),
            kept@ == moves@.take(i as int).filter(pred),
        decreases moves@.len() - i,
    {
        let mv = moves[i];
        proof {
            reveal(Seq::filter);
            assert(moves@.take(i as int + 1).drop_last() =~= moves@.take(i as int));
        }
        if holds_square(squares, mv.to) {
            kept.push(mv);
        }
        i = i + 1;
    }
    assert(moves@.take(i as int) =~= moves@);
    kept
}

impl PieceList {
    /// Generates the pseudo-legal moves of `color` (see
    /// [`pseudo_legal_moves`]).
    pub fn generate_moves(&mut self, chess_board: &mut ChessBoard, color: Color) -> (moves: Vec<Move>)
        requires
            old(chess_board).wf(),
            tracks(*old(self), *old(chess_board)),
        ensures
            *final(self) == *old(self),
            *final(chess_board) == *old(chess_board),
            moves@ == pseudo_legal_moves(*old(chess_board), *old(self), color),
            all_fit(moves@, *old(chess_board)),
    {
        let ghost b = *chess_board;
        let pinned_pieces = self.detect_pinned_pieces(chess_board, color);
        let mut all_moves = self.generate_king_moves(chess_board, color);
        let mut castling = self.generate_castling_moves(chess_board, color);
        all_moves.append(&mut castling);
        let mut queen = self.generate_queen_moves(chess_board, &pinned_pieces, color);
        all_moves.append(&mut queen);
        let mut rook = self.generate_rook_moves(chess_board, &pinned_pieces, color);
        all_moves.append(&mut rook);
        let mut bishop = self.generate_bishop_moves(chess_board, &pinned_pieces, color);
        all_moves.append(&mut bishop);
        let mut knight = self.generate_knight_moves(chess_board, &pinned_pieces, color);
        all_moves.append(&mut knight);
        let mut pawn = self.generate_pawn_moves(chess_board, &pinned_pieces, color);
        all_moves.append(&mut pawn);
        assert(all_moves@ =~= pseudo_legal_moves(b, *self, color));
        all_moves
    }

    /// Generates the moves that meet a single check: captures of the
    /// checking piece, blocks of its line, and king moves.
    pub fn generate_attacker_captures(
        &mut self,
        chess_board: &mut ChessBoard,
        king_attackers: Vec<(Piece, i16)>,
        color: Color,
    ) -> (valid_moves: Vec<Move>)
        requires
            old(chess_board).wf(),
            tracks(*old(self), *old(chess_board)),
            king_attackers@.len() >= 1,
            king_attackers@[0].0.is_piece(),
            0 <= king_attackers@[0].1 < 120,
        ensures
            *final(self) == *old(self),
            *final(chess_board) == *old(chess_board),
            valid_moves@ == evasion_moves(*old(chess_board), *old(self), king_attackers@[0], color),
            all_fit(valid_moves@, *old(chess_board)),
    {
        let ghost b = *chess_board;
        let valid_moves: Vec<Move> = Vec::new();
        let king_square = match self.get_king_square(color) {
            Some(k) => k,
            None => {
                return valid_moves;
            },
        };
        proof {
            assert(sorted_inner(self.list(Piece::make(PieceType::King, color))));
        }
        let (attacker_piece, attacker_square) = king_attackers[0];
        let mut blocking_squares: Vec<i16> = Vec::new();
        blocking_squares.push(attacker_square);
        match attacker_piece.get_type() {
            PieceType::Queen | PieceType::Rook | PieceType::Bishop => {
                let mut squares = chess_board.get_squares_between(attacker_square, king_square);
                blocking_squares.append(&mut squares);
            },
            _ => {},
        }
        assert(blocking_squares@ =~= blocking_line(king_attackers@[0], king_square));
        let pinned_pieces = self.detect_pinned_pieces(chess_board, color);
        let mut candidates = self.generate_queen_moves(chess_board, &pinned_pieces, color);
        let mut rook = self.generate_rook_moves(chess_board, &pinned_pieces, color);
        candidates.append(&mut rook);
        let mut bishop = self.generate_bishop_moves(chess_board, &pinned_pieces, color);
        candidates.append(&mut bishop);
        let mut knight = self.generate_knight_moves(chess_board, &pinned_pieces, color);
        candidates.append(&mut knight);
        let mut pawn = self.generate_pawn_moves(chess_board, &pinned_pieces, color);
        candidates.append(&mut pawn);
        assert(candidates@ =~= piece_moves(b, *self, color));
        let ghost cands = candidates@;
        let mut valid_moves = keep_moves_to(candidates, &blocking_squares);
        proof {
            let pred = |m: Move| blocking_squares@.contains(m.to);
            assert forall|i: int| 0 <= i < valid_moves@.len() implies #[trigger] valid_moves@[i].fits(&b) by {
                assert(cands.filter(pred).contains(valid_moves@[i]));
                cands.lemma_filter_contains_rev(pred, valid_moves@[i]);
                let j = choose|j: int| 0 <= j < cands.len() && cands[j] == valid_moves@[i];
                assert(cands[j].fits(&b));
            }
        }
        let mut king_moves = self.generate_king_moves(chess_board, color);
        valid_moves.append(&mut king_moves);
        assert(valid_moves@ =~= evasion_moves(b, *self, king_attackers@[0], color));
        valid_moves
    }

    /// Generates the legal moves of `color`, considering checks and pins
    /// (see [`legal_moves`]).
    pub fn generate_legal_moves(&mut self, chess_board: &mut ChessBoard, color: Color) -> (moves: Vec<Move>)
        requires
            old(chess_board).wf(),
            tracks(*old(self), *old(chess_board)),
        ensures
            *final(self) == *old(self),
            *final(chess_board) == *old(chess_board),
            moves@ == legal_moves(*old(chess_board), *old(self), color),
            all_fit(moves@, *old(chess_board)),
    {
        let king_attackers = self.is_king_in_check(chess_board, color);
        if king_attackers.len() == 0 {
            return self.generate_moves(chess_board, color);
        } else if king_attackers.len() == 1 {
            proof {
                let k = king_square(*self, color)->0;
                assert(sorted_inner(self.list(Piece::make(PieceType::King, color))));
                lemma_attackers_listed(chess_board.board_squares@, *self, k as int, color.spec_opposite(), 6);
            }
            return self.generate_attacker_captures(chess_board, king_attackers, color);
        } else {
            return self.generate_king_moves(chess_board, color);
        }
    }
}

} // verus!
