//! The incremental Zobrist hash: making a move changes the hash by the
//! keys of what the move changes, which brings a full hash of the position
//! before to the full hash of the position after.

use vstd::prelude::*;

use crate::game_state::board::{
    delta_moves, delta_pieces, delta_squares, en_passant_key, hash_delta, inner_of, is_inner, made, piece_key, right_change_key,
    squares_after_make, standard_of, CastlingRights, ChessBoard,
};
use crate::game_state::board::moves::Move;
use crate::game_state::board::piece::{Color, Piece};
use crate::game_state::board::piece_list::safety::lemma_row_column;
use crate::game_state::board::position::{pieces_hash, position_hash};
use crate::game_state::board::transposition_table::Zobrist;

verus! {

/// The key that the content of standard square `k` adds to the hash: none
/// for an empty square.
pub open spec fn content_key(z: Zobrist, k: int, p: Piece) -> u64 {
    if p == Piece::EmptySquare {
        0
    } else {
        piece_key(z, k, p)
    }
}

/// An on-board mailbox square is the mailbox square of its standard square.
pub proof fn lemma_standard_inner(x: int)
    requires
        is_inner(x),
    ensures
        0 <= standard_of(x) < 64,
        inner_of(standard_of(x)) == x,
{
    lemma_row_column(x);
    let r = x / 10;
    let c = x % 10;
    let s = standard_of(x);
    assert(s == (r - 2) * 8 + (c - 1));
    vstd::arithmetic::div_mod::lemma_fundamental_div_mod_converse(s, 8, r - 2, c - 1);
}

/// Different standard squares have different mailbox squares.
proof fn lemma_inner_of_injective(i: int, k: int)
    requires
        0 <= i < 64,
        0 <= k < 64,
        i != k,
    ensures
        inner_of(i) != inner_of(k),
        21 <= inner_of(i) < 99,
{
    lemma_row_column(i);
    vstd::arithmetic::div_mod::lemma_fundamental_div_mod(i, 8);
    vstd::arithmetic::div_mod::lemma_fundamental_div_mod(k, 8);
    if inner_of(i) == inner_of(k) {
        let a = i / 8;
        let b = i % 8;
        let c = k / 8;
        let d = k % 8;
        assert(10 * a + b == 10 * c + d);
        vstd::arithmetic::div_mod::lemma_fundamental_div_mod_converse(10 * a + b, 10, a, b);
        vstd::arithmetic::div_mod::lemma_fundamental_div_mod_converse(10 * c + d, 10, c, d);
    }
}

/// One step of the pieces hash adds the key of one square's content.
proof fn lemma_pieces_hash_step(z: Zobrist, sq: Seq<Piece>, n: int)
    requires
        n > 0,
    ensures
        pieces_hash(z, sq, n) == pieces_hash(z, sq, n - 1) ^ content_key(z, n - 1, sq[inner_of(n - 1)]),
{
    let h = pieces_hash(z, sq, n - 1);
    assert(h == h ^ 0u64) by (bit_vector);
}

/// Changing the content of one on-board square changes the pieces hash by
/// the keys of the old and the new content.
#[verifier::rlimit(30)]
pub proof fn lemma_pieces_hash_update(z: Zobrist, sq: Seq<Piece>, x: int, p: Piece, n: int)
    requires
        sq.len() == 120,
        is_inner(x),
        0 <= n <= 64,
    ensures
        n <= standard_of(x) ==> pieces_hash(z, sq.update(x, p), n) == pieces_hash(z, sq, n),
        n > standard_of(x) ==> pieces_hash(z, sq.update(x, p), n) == (pieces_hash(z, sq, n) ^ content_key(
            z,
            standard_of(x),
            sq[x],
        )) ^ content_key(z, standard_of(x), p),
    decreases n,
{
    let k = standard_of(x);
    let sq1 = sq.update(x, p);
    lemma_standard_inner(x);
    if n > 0 {
        lemma_pieces_hash_update(z, sq, x, p, n - 1);
        lemma_pieces_hash_step(z, sq, n);
        lemma_pieces_hash_step(z, sq1, n);
        let h0 = pieces_hash(z, sq, n - 1);
        let h1 = pieces_hash(z, sq1, n - 1);
        let ko = content_key(z, k, sq[x]);
        let kp = content_key(z, k, p);
        if n - 1 == k {
            assert(sq1[inner_of(n - 1)] == p);
            assert(sq[inner_of(n - 1)] == sq[x]);
            assert(h0 ^ kp == ((h0 ^ ko) ^ ko) ^ kp) by (bit_vector);
        } else {
            lemma_inner_of_injective(n - 1, k);
            let q = inner_of(n - 1);
            assert(sq1[q] == sq[q]);
            let c = content_key(z, n - 1, sq[q]);
            if n - 1 > k {
                assert(((h0 ^ ko) ^ kp) ^ c == ((h0 ^ c) ^ ko) ^ kp) by (bit_vector);
            }
        }
    }
}

/// The key of black to move, none for white.
pub open spec fn side_key(z: Zobrist, side: Color) -> u64 {
    if side == Color::Black {
        z.side_to_move
    } else {
        0
    }
}

/// The key of the `i`-th castling right when it is held, otherwise none.
pub open spec fn right_key(z: Zobrist, i: int, held: bool) -> u64 {
    if held {
        z.castling_rights[i]
    } else {
        0
    }
}

/// The keys of the castling rights held.
pub open spec fn rights_key(z: Zobrist, r: CastlingRights) -> u64 {
    ((right_key(z, 0, r.white_queenside) ^ right_key(z, 1, r.white_kingside)) ^ right_key(z, 2, r.black_queenside)) ^ right_key(
        z,
        3,
        r.black_kingside,
    )
}

/// The key of the file of an en passant target, none without one.
pub open spec fn passant_key(z: Zobrist, target: Option<i16>) -> u64 {
    match target {
        Some(t) => en_passant_key(z, t as int),
        None => 0,
    }
}

/// The keys of the pieces a move takes off squares and puts on squares:
/// the moving piece off its origin and, as it ends up, onto its
/// destination, a captured piece, a castling rook from and to its squares,
/// and a pawn taken en passant.
pub open spec fn move_piece_keys(z: Zobrist, mv: Move) -> u64 {
    let from = standard_of(mv.from as int);
    let to = standard_of(mv.to as int);
    let base = (piece_key(z, from, mv.piece) ^ content_key(z, to, mv.captured_piece)) ^ piece_key(z, to, mv.final_piece());
    let with_rook = match mv.castling {
        Some(c) => (base ^ piece_key(z, standard_of(c.rook_from as int), c.rook_piece)) ^ piece_key(
            z,
            standard_of(c.rook_to as int),
            c.rook_piece,
        ),
        None => base,
    };
    if mv.en_passant {
        with_rook ^ piece_key(z, standard_of(mv.en_passant_capture_square()), mv.en_passant_pawn())
    } else {
        with_rook
    }
}

/// XOR with an optional key is XOR with the key or with zero.
proof fn lemma_xor_opt(x: u64, y: u64, cond: bool)
    ensures
        (if cond { x ^ y } else { x }) == x ^ (if cond { y } else { 0u64 }),
{
    assert(x == x ^ 0u64) by (bit_vector);
}

/// The full hash splits into the pieces, the side to move, the castling
/// rights and the en passant file.
pub proof fn lemma_position_hash_parts(b: ChessBoard, side: Color)
    ensures
        position_hash(b, side) == ((pieces_hash(*b.zobrist, b.board_squares@, 64) ^ side_key(*b.zobrist, side)) ^ rights_key(
            *b.zobrist,
            b.castling_rights,
        )) ^ passant_key(*b.zobrist, b.en_passant_target),
{
    let z = *b.zobrist;
    let r = b.castling_rights;
    let h1 = pieces_hash(z, b.board_squares@, 64);
    let s = side_key(z, side);
    let a = right_key(z, 0, r.white_queenside);
    let c = right_key(z, 1, r.white_kingside);
    let d = right_key(z, 2, r.black_queenside);
    let e = right_key(z, 3, r.black_kingside);
    let p = passant_key(z, b.en_passant_target);
    lemma_xor_opt(h1, z.side_to_move, side == Color::Black);
    let h2 = h1 ^ s;
    lemma_xor_opt(h2, z.castling_rights[0], r.white_queenside);
    lemma_xor_opt(h2 ^ a, z.castling_rights[1], r.white_kingside);
    lemma_xor_opt((h2 ^ a) ^ c, z.castling_rights[2], r.black_queenside);
    lemma_xor_opt(((h2 ^ a) ^ c) ^ d, z.castling_rights[3], r.black_kingside);
    let h6 = (((h2 ^ a) ^ c) ^ d) ^ e;
    assert(h6 ^ 0u64 == h6) by (bit_vector);
    assert((((h2 ^ a) ^ c) ^ d) ^ e == h2 ^ (((a ^ c) ^ d) ^ e)) by (bit_vector);
}

/// The key of a castling right that changed is the XOR of the keys of
/// that right held before and after.
proof fn lemma_right_change(z: Zobrist, i: int, before: bool, after: bool)
    ensures
        right_change_key(z, i, before, after) == right_key(z, i, before) ^ right_key(z, i, after),
{
    let k = z.castling_rights[i];
    assert(k ^ 0u64 == k && 0u64 ^ k == k && k ^ k == 0u64 && 0u64 ^ 0u64 == 0u64) by (bit_vector);
}

/// The keys of a castling rook leaving its square and entering its new
/// one, none without castling.
spec fn rook_keys(z: Zobrist, mv: Move) -> u64 {
    match mv.castling {
        Some(c) => piece_key(z, standard_of(c.rook_from as int), c.rook_piece) ^ piece_key(z, standard_of(c.rook_to as int), c.rook_piece),
        None => 0,
    }
}

/// The key of a pawn taken en passant, none without en passant.
spec fn captured_pawn_key(z: Zobrist, mv: Move) -> u64 {
    if mv.en_passant {
        piece_key(z, standard_of(mv.en_passant_capture_square()), mv.en_passant_pawn())
    } else {
        0
    }
}

/// XOR with two keys one after the other is XOR with their XOR.
proof fn lemma_xor_pair(x: u64, a: u64, b: u64)
    ensures
        (x ^ a) ^ b == x ^ (a ^ b),
{
    assert((x ^ a) ^ b == x ^ (a ^ b)) by (bit_vector);
}

/// The castling rook's keys added to `x`, as [`delta_squares`] and
/// [`move_piece_keys`] add them.
proof fn lemma_rook_keys(z: Zobrist, mv: Move, x: u64)
    ensures
        match mv.castling {
            Some(c) => (x ^ piece_key(z, standard_of(c.rook_from as int), c.rook_piece)) ^ piece_key(
                z,
                standard_of(c.rook_to as int),
                c.rook_piece,
            ),
            None => x,
        } == x ^ rook_keys(z, mv),
{
    lemma_xor_opt(x, 0, false);
    if let Some(c) = mv.castling {
        lemma_xor_pair(
            x,
            piece_key(z, standard_of(c.rook_from as int), c.rook_piece),
            piece_key(z, standard_of(c.rook_to as int), c.rook_piece),
        );
    }
}

/// The piece keys of a move in terms of its parts.
proof fn lemma_move_piece_keys_parts(z: Zobrist, mv: Move)
    ensures
        move_piece_keys(z, mv) == (((piece_key(z, standard_of(mv.from as int), mv.piece) ^ content_key(
            z,
            standard_of(mv.to as int),
            mv.captured_piece,
        )) ^ piece_key(z, standard_of(mv.to as int), mv.final_piece())) ^ rook_keys(z, mv)) ^ captured_pawn_key(z, mv),
{
    let to = standard_of(mv.to as int);
    let base = (piece_key(z, standard_of(mv.from as int), mv.piece) ^ content_key(z, to, mv.captured_piece)) ^ piece_key(
        z,
        to,
        mv.final_piece(),
    );
    lemma_rook_keys(z, mv, base);
    lemma_xor_opt(base ^ rook_keys(z, mv), piece_key(z, standard_of(mv.en_passant_capture_square()), mv.en_passant_pawn()), mv.en_passant);
}

/// The change that [`delta_moves`] makes, in terms of the move's parts.
#[verifier::rlimit(30)]
proof fn lemma_delta_moves_parts(z: Zobrist, mv: Move)
    requires
        mv.captured_piece == Piece::EmptySquare || mv.captured_piece.is_piece(),
    ensures
        delta_moves(z, mv) == (move_piece_keys(z, mv) ^ z.side_to_move) ^ (passant_key(z, mv.en_passant_square) ^ passant_key(
            z,
            mv.previous_en_passant,
        )),
{
    let from = standard_of(mv.from as int);
    let to = standard_of(mv.to as int);
    let kf = piece_key(z, from, mv.piece);
    let kc = content_key(z, to, mv.captured_piece);
    let kt = piece_key(z, to, mv.piece);
    let kfin = piece_key(z, to, mv.final_piece());
    let st = z.side_to_move;
    let kr = rook_keys(z, mv);
    let ken = passant_key(z, mv.en_passant_square);
    let kep = passant_key(z, mv.previous_en_passant);
    let kx = captured_pawn_key(z, mv);
    lemma_xor_opt(kf, piece_key(z, to, mv.captured_piece), mv.captured_piece.is_piece());
    let d4 = ((kf ^ kc) ^ kt) ^ st;
    assert(delta_pieces(z, mv) == d4);
    lemma_rook_keys(z, mv, d4);
    let d5 = d4 ^ kr;
    lemma_xor_opt(d5, en_passant_key(z, mv.en_passant_square->0 as int), mv.en_passant_square is Some);
    let d6 = d5 ^ ken;
    lemma_xor_opt(d6, en_passant_key(z, mv.previous_en_passant->0 as int), mv.previous_en_passant is Some);
    let d7 = d6 ^ kep;
    assert(delta_squares(z, mv) == d7);
    lemma_xor_opt(d7, piece_key(z, standard_of(mv.en_passant_capture_square()), mv.en_passant_pawn()), mv.en_passant);
    let d8 = d7 ^ kx;
    let kpr: u64 = match mv.promotion {
        Some(pp) => kt ^ piece_key(z, to, pp),
        None => 0,
    };
    lemma_xor_opt(d8, 0, false);
    if let Some(pp) = mv.promotion {
        lemma_xor_pair(d8, kt, piece_key(z, to, pp));
    }
    let dm = d8 ^ kpr;
    assert(delta_moves(z, mv) == dm);
    assert(kt ^ kpr == kfin) by {
        lemma_xor_opt(kt, 0, false);
        if let Some(pp) = mv.promotion {
            let kq = piece_key(z, to, pp);
            assert(kt ^ (kt ^ kq) == kq) by (bit_vector);
        }
    }
    lemma_move_piece_keys_parts(z, mv);
    let mk = move_piece_keys(z, mv);
    assert(dm == (mk ^ st) ^ (ken ^ kep)) by (bit_vector)
        requires
            dm == (((((((kf ^ kc) ^ kt) ^ st) ^ kr) ^ ken) ^ kep) ^ kx) ^ kpr,
            mk == (((kf ^ kc) ^ kfin) ^ kr) ^ kx,
            kt ^ kpr == kfin,
    ;
}

/// The hash change of a move is the change of its piece keys and of the
/// side to move, of the en passant files and of the castling rights.
#[verifier::rlimit(30)]
proof fn lemma_hash_delta_parts(z: Zobrist, mv: Move, r0: CastlingRights, r1: CastlingRights)
    requires
        mv.previous_castling_rights == Some(r0),
        mv.captured_piece == Piece::EmptySquare || mv.captured_piece.is_piece(),
    ensures
        hash_delta(z, mv, r1) == (((move_piece_keys(z, mv) ^ z.side_to_move) ^ (passant_key(z, mv.en_passant_square) ^ passant_key(
            z,
            mv.previous_en_passant,
        ))) ^ (rights_key(z, r0) ^ rights_key(z, r1))),
{
    lemma_delta_moves_parts(z, mv);
    let dm = delta_moves(z, mv);
    lemma_right_change(z, 0, r0.white_queenside, r1.white_queenside);
    lemma_right_change(z, 1, r0.white_kingside, r1.white_kingside);
    lemma_right_change(z, 2, r0.black_queenside, r1.black_queenside);
    lemma_right_change(z, 3, r0.black_kingside, r1.black_kingside);
    let a0 = right_key(z, 0, r0.white_queenside);
    let a1 = right_key(z, 1, r0.white_kingside);
    let a2 = right_key(z, 2, r0.black_queenside);
    let a3 = right_key(z, 3, r0.black_kingside);
    let b0 = right_key(z, 0, r1.white_queenside);
    let b1 = right_key(z, 1, r1.white_kingside);
    let b2 = right_key(z, 2, r1.black_queenside);
    let b3 = right_key(z, 3, r1.black_kingside);
    assert((((dm ^ (a0 ^ b0)) ^ (a1 ^ b1)) ^ (a2 ^ b2)) ^ (a3 ^ b3) == dm ^ ((((a0 ^ a1) ^ a2) ^ a3) ^ (((b0 ^ b1) ^ b2) ^ b3)))
        by (bit_vector);
}

/// Changing one on-board square changes the full pieces hash by the keys
/// of the old and the new content.
proof fn lemma_update_hash(z: Zobrist, sq: Seq<Piece>, x: int, p: Piece)
    requires
        sq.len() == 120,
        is_inner(x),
    ensures
        pieces_hash(z, sq.update(x, p), 64) == pieces_hash(z, sq, 64) ^ (content_key(z, standard_of(x), sq[x]) ^ content_key(
            z,
            standard_of(x),
            p,
        )),
{
    lemma_standard_inner(x);
    lemma_pieces_hash_update(z, sq, x, p, 64);
    lemma_xor_pair(pieces_hash(z, sq, 64), content_key(z, standard_of(x), sq[x]), content_key(z, standard_of(x), p));
}

/// The squares after a move that fits the board hash to the squares before
/// it with the move's piece keys added.
#[verifier::rlimit(30)]
proof fn lemma_squares_hash_after_make(z: Zobrist, b: ChessBoard, mv: Move)
    requires
        b.wf(),
        mv.fits(&b),
    ensures
        pieces_hash(z, squares_after_make(b.board_squares@, mv), 64) == pieces_hash(z, b.board_squares@, 64) ^ move_piece_keys(
            z,
            mv,
        ),
{
    let sq0 = b.board_squares@;
    let from = mv.from as int;
    let to = mv.to as int;
    let e = Piece::EmptySquare;
    let p0 = pieces_hash(z, sq0, 64);
    let kf = piece_key(z, standard_of(from), mv.piece);
    let kc = content_key(z, standard_of(to), mv.captured_piece);
    let kfin = piece_key(z, standard_of(to), mv.final_piece());
    let kr = rook_keys(z, mv);
    let kx = captured_pawn_key(z, mv);
    let c = mv.en_passant_capture_square();
    let s1 = if mv.en_passant {
        sq0.update(c, e)
    } else {
        sq0
    };
    let h1 = pieces_hash(z, s1, 64);
    assert(h1 == p0 ^ kx) by {
        if mv.en_passant {
            lemma_update_hash(z, sq0, c, e);
            lemma_xor_opt(kx, 0, false);
        } else {
            lemma_xor_opt(p0, 0, false);
        }
    }
    let s2 = match mv.castling {
        Some(cs) => s1.update(cs.rook_from as int, e).update(cs.rook_to as int, cs.rook_piece),
        None => s1,
    };
    let h2 = pieces_hash(z, s2, 64);
    assert(h2 == h1 ^ kr) by {
        if let Some(cs) = mv.castling {
            let rf = cs.rook_from as int;
            let rt = cs.rook_to as int;
            let sa = s1.update(rf, e);
            lemma_update_hash(z, s1, rf, e);
            lemma_update_hash(z, sa, rt, cs.rook_piece);
            let ka = piece_key(z, standard_of(rf), cs.rook_piece);
            let kb = piece_key(z, standard_of(rt), cs.rook_piece);
            assert(s1[rf] == cs.rook_piece);
            assert(sa[rt] == e);
            assert(((h1 ^ (ka ^ 0u64)) ^ (0u64 ^ kb)) == h1 ^ (ka ^ kb)) by (bit_vector);
        } else {
            lemma_xor_opt(h1, 0, false);
        }
    }
    let s3 = s2.update(to, mv.final_piece());
    assert(s2[to] == mv.captured_piece);
    lemma_update_hash(z, s2, to, mv.final_piece());
    let h3 = pieces_hash(z, s3, 64);
    assert(s3[from] == mv.piece);
    lemma_update_hash(z, s3, from, e);
    let h4 = pieces_hash(z, s3.update(from, e), 64);
    assert(squares_after_make(sq0, mv) == s3.update(from, e));
    lemma_move_piece_keys_parts(z, mv);
    assert(h4 == p0 ^ ((((kf ^ kc) ^ kfin) ^ kr) ^ kx)) by (bit_vector)
        requires
            h1 == p0 ^ kx,
            h2 == h1 ^ kr,
            h3 == h2 ^ (kc ^ kfin),
            h4 == h3 ^ (kf ^ 0u64),
    ;
}

/// Making a move that fits the board keeps the hash equal to the full
/// Zobrist hash of the position: when the hash was the full hash of the
/// board before with one side to move, it is the full hash of the board
/// after with the other side to move.
#[verifier::rlimit(30)]
pub proof fn lemma_make_move_full_hash(b0: ChessBoard, b1: ChessBoard, mv: Move, side: Color)
    requires
        b0.wf(),
        mv.fits(&b0),
        made(b0, b1, mv),
        b0.hash == position_hash(b0, side),
    ensures
        b1.hash == position_hash(b1, side.spec_opposite()),
{
    let z = *b0.zobrist;
    let p0 = pieces_hash(z, b0.board_squares@, 64);
    let p1 = pieces_hash(z, b1.board_squares@, 64);
    let mk = move_piece_keys(z, mv);
    let st = z.side_to_move;
    let s0 = side_key(z, side);
    let s1 = side_key(z, side.spec_opposite());
    let r0 = rights_key(z, b0.castling_rights);
    let r1 = rights_key(z, b1.castling_rights);
    let e0 = passant_key(z, b0.en_passant_target);
    let e1 = passant_key(z, b1.en_passant_target);
    lemma_position_hash_parts(b0, side);
    lemma_position_hash_parts(b1, side.spec_opposite());
    lemma_squares_hash_after_make(z, b0, mv);
    assert(b0.at(mv.to as int) != Piece::SentinelSquare);
    lemma_hash_delta_parts(z, mv, b0.castling_rights, b1.castling_rights);
    assert(s1 == s0 ^ st) by {
        assert(st == 0u64 ^ st && st ^ st == 0u64) by (bit_vector);
    }
    let h0 = b0.hash;
    let h1 = b1.hash;
    assert(h1 == ((p1 ^ s1) ^ r1) ^ e1) by (bit_vector)
        requires
            h1 == h0 ^ (((mk ^ st) ^ (e1 ^ e0)) ^ (r0 ^ r1)),
            h0 == ((p0 ^ s0) ^ r0) ^ e0,
            p1 == p0 ^ mk,
            s1 == s0 ^ st,
    ;
}

} // verus!
