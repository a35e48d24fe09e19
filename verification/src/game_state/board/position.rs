//! Copying a board, setting up a position and computing its Zobrist hash.

use std::sync::Arc;
use vstd::prelude::*;

use crate::game_state::board::{en_passant_key, inner_of, is_inner, lists_match_squares, piece_key, standard_of, CastlingRights, ChessBoard};
use crate::game_state::board::piece::{Color, Piece};
use crate::game_state::board::piece_list::{sorted_inner, PieceList};
use crate::game_state::board::piece_list::congruence::same_view;
use crate::game_state::board::transposition_table::{TranspositionTable, Zobrist};

verus! {

/// Calls `Arc::clone`: a new pointer to the same allocation, so to the same
/// value.
#[verifier::external_body]
pub(crate) fn share<T>(a: &Arc<T>) -> (r: Arc<T>)
    ensures
        r == *a,
{
    Arc::clone(a)
}

/// Copies a list of squares.
fn copy_squares(list: &Vec<i16>) -> (r: Vec<i16>)
    ensures
        r@ == list@,
{
    let mut r: Vec<i16> = Vec::new();
    let mut i: usize = 0;
    while i < list.len()
        invariant
            i <= list@.len(),
            r@ == list@.take(i as int),
        decreases list@.len() - i,
    {
        r.push(list[i]);
        i = i + 1;
        assert(r@ =~= list@.take(i as int));
    }
    assert(list@.take(i as int) =~= list@);
    r
}

impl Clone for PieceList {
    /// Copies every list.
    fn clone(&self) -> (r: Self)
        ensures
            r.same_lists(self),
    {
        let r = PieceList {
            white_king_list: copy_squares(&self.white_king_list),
            white_queen_list: copy_squares(&self.white_queen_list),
            white_rook_list: copy_squares(&self.white_rook_list),
            white_bishop_list: copy_squares(&self.white_bishop_list),
            white_knight_list: copy_squares(&self.white_knight_list),
            white_pawn_list: copy_squares(&self.white_pawn_list),
            black_king_list: copy_squares(&self.black_king_list),
            black_queen_list: copy_squares(&self.black_queen_list),
            black_rook_list: copy_squares(&self.black_rook_list),
            black_bishop_list: copy_squares(&self.black_bishop_list),
            black_knight_list: copy_squares(&self.black_knight_list),
            black_pawn_list: copy_squares(&self.black_pawn_list),
        };
        assert forall|p: Piece| #[trigger] r.list(p) == self.list(p) by {}
        r
    }
}

/// A copy of a board: the same squares, rights, en passant target, keys,
/// hash and table, and piece lists with the same contents.
pub open spec fn copied(r: ChessBoard, b: ChessBoard) -> bool {
    &&& same_view(r, b)
    &&& r.board_squares == b.board_squares
    &&& r.board_width == b.board_width
    &&& r.board_height == b.board_height
    &&& r.zobrist == b.zobrist
    &&& r.hash == b.hash
    &&& r.transposition_table == b.transposition_table
}

impl Clone for ChessBoard {
    /// Copies the board; the keys and the table are shared.
    fn clone(&self) -> (r: Self)
        ensures
            copied(r, *self),
    {
        ChessBoard {
            board_width: self.board_width,
            board_height: self.board_height,
            board_squares: self.board_squares,
            en_passant_target: self.en_passant_target,
            castling_rights: self.castling_rights,
            piece_list: self.piece_list.clone(),
            zobrist: share(&self.zobrist),
            hash: self.hash,
            transposition_table: share(&self.transposition_table),
        }
    }
}

/// A copy keeps the board's invariant.
pub proof fn lemma_copy_wf(r: ChessBoard, b: ChessBoard)
    requires
        copied(r, b),
        b.wf(),
    ensures
        r.wf(),
{
    assert forall|p: Piece| #[trigger] sorted_inner(r.piece_list.list(p)) by {
        assert(r.piece_list.list(p) == b.piece_list.list(p));
        assert(sorted_inner(b.piece_list.list(p)));
    }
    assert forall|s: int| 0 <= s < 120 implies (is_inner(s) <==> #[trigger] r.at(s) != Piece::SentinelSquare) by {
        assert(r.at(s) == b.at(s));
    }
    assert forall|p: Piece, i: int|
        p.is_piece() && 0 <= i < r.piece_list.list(p).len() implies r.board_squares@[#[trigger] r.piece_list.list(p)[i] as int] == p by {
        assert(r.piece_list.list(p) == b.piece_list.list(p));
    }
    assert forall|s: int| 0 <= s < 120 && (#[trigger] r.board_squares@[s]).is_piece() implies r.piece_list.list(r.board_squares@[s]).contains(s as i16) by {
        assert(r.piece_list.list(r.board_squares@[s]) == b.piece_list.list(b.board_squares@[s]));
    }
}

/// The squares below `n` that hold `p`, in increasing order.
pub open spec fn squares_of(sq: Seq<Piece>, p: Piece, n: int) -> Seq<i16>
    decreases n,
{
    if n <= 0 {
        Seq::empty()
    } else if sq[n - 1] == p {
        squares_of(sq, p, n - 1).push((n - 1) as i16)
    } else {
        squares_of(sq, p, n - 1)
    }
}

/// [`squares_of`] lists, in increasing order, exactly the squares below `n`
/// that hold `p`.
pub proof fn lemma_squares_of(sq: Seq<Piece>, p: Piece, n: int)
    requires
        0 <= n <= 120,
    ensures
        forall|i: int, j: int| 0 <= i < j < squares_of(sq, p, n).len() ==> squares_of(sq, p, n)[i] < squares_of(sq, p, n)[j],
        forall|i: int| 0 <= i < squares_of(sq, p, n).len() ==> 0 <= #[trigger] squares_of(sq, p, n)[i] < n && sq[squares_of(sq, p, n)[i] as int] == p,
        forall|s: int| 0 <= s < n && sq[s] == p ==> #[trigger] squares_of(sq, p, n).contains(s as i16),
    decreases n,
{
    if n > 0 {
        lemma_squares_of(sq, p, n - 1);
        let prev = squares_of(sq, p, n - 1);
        if sq[n - 1] == p {
            let cur = prev.push((n - 1) as i16);
            assert forall|s: int| 0 <= s < n && sq[s] == p implies #[trigger] cur.contains(s as i16) by {
                if s < n - 1 {
                    assert(prev.contains(s as i16));
                    let k = choose|k: int| 0 <= k < prev.len() && prev[k] == s as i16;
                    assert(cur[k] == s as i16);
                } else {
                    assert(cur[prev.len() as int] == s as i16);
                }
            }
        }
    }
}

/// The board squares of a position given on the 64 standard squares:
/// sentinels off the board.
pub open spec fn board_from(position: Seq<Piece>) -> Seq<Piece> {
    Seq::new(120, |s: int| if is_inner(s) { position[standard_of(s)] } else { Piece::SentinelSquare })
}

/// The Zobrist keys of the pieces on the first `n` standard squares.
pub open spec fn pieces_hash(z: Zobrist, sq: Seq<Piece>, n: int) -> u64
    decreases n,
{
    if n <= 0 {
        0
    } else {
        let p = sq[inner_of(n - 1)];
        let h = pieces_hash(z, sq, n - 1);
        if p == Piece::EmptySquare {
            h
        } else {
            h ^ piece_key(z, n - 1, p)
        }
    }
}

/// The full Zobrist hash of a board with a side to move: the keys of every
/// piece on its square, of black to move, of each castling right held, and
/// of the en passant file.
pub open spec fn position_hash(b: ChessBoard, side: Color) -> u64 {
    let z = *b.zobrist;
    let r = b.castling_rights;
    let h1 = pieces_hash(z, b.board_squares@, 64);
    let h2 = if side == Color::Black { h1 ^ z.side_to_move } else { h1 };
    let h3 = if r.white_queenside { h2 ^ z.castling_rights[0] } else { h2 };
    let h4 = if r.white_kingside { h3 ^ z.castling_rights[1] } else { h3 };
    let h5 = if r.black_queenside { h4 ^ z.castling_rights[2] } else { h4 };
    let h6 = if r.black_kingside { h5 ^ z.castling_rights[3] } else { h5 };
    match b.en_passant_target {
        Some(t) => h6 ^ en_passant_key(z, t as int),
        None => h6,
    }
}

proof fn lemma_xor_swap(x: u64, s: u64, y: u64)
    ensures
        (x ^ s) ^ y == (x ^ y) ^ s,
{
    assert((x ^ s) ^ y == (x ^ y) ^ s) by (bit_vector);
}

/// The hashes of one position with black and with white to move differ by
/// exactly the side-to-move key.
pub proof fn lemma_side_to_move_hash(b: ChessBoard)
    ensures
        position_hash(b, Color::Black) == position_hash(b, Color::White) ^ b.zobrist.side_to_move,
{
    let z = *b.zobrist;
    let s = z.side_to_move;
    let h1 = pieces_hash(z, b.board_squares@, 64);
    lemma_xor_swap(h1, s, z.castling_rights[0]);
    lemma_xor_swap(h1 ^ z.castling_rights[0], s, z.castling_rights[1]);
    lemma_xor_swap(h1, s, z.castling_rights[1]);
    let r = b.castling_rights;
    let w3 = if r.white_queenside { h1 ^ z.castling_rights[0] } else { h1 };
    let w4 = if r.white_kingside { w3 ^ z.castling_rights[1] } else { w3 };
    let w5 = if r.black_queenside { w4 ^ z.castling_rights[2] } else { w4 };
    let w6 = if r.black_kingside { w5 ^ z.castling_rights[3] } else { w5 };
    lemma_xor_swap(w3, s, z.castling_rights[1]);
    lemma_xor_swap(w4, s, z.castling_rights[2]);
    lemma_xor_swap(w5, s, z.castling_rights[3]);
    if let Some(t) = b.en_passant_target {
        lemma_xor_swap(w6, s, en_passant_key(z, t as int));
    }
}

impl PieceList {
    /// Appends a square to the list of a piece (nothing for a non-piece).
    fn push_square(&mut self, piece: Piece, square: i16)
        ensures
            piece.is_piece() ==> final(self).list(piece) == old(self).list(piece).push(square),
            forall|p: Piece| p != piece ==> #[trigger] final(self).list(p) == old(self).list(p),
    {
        match piece {
            Piece::WhitePawn => self.white_pawn_list.push(square),
            Piece::WhiteRook => self.white_rook_list.push(square),
            Piece::WhiteKnight => self.white_knight_list.push(square),
            Piece::WhiteBishop => self.white_bishop_list.push(square),
            Piece::WhiteQueen => self.white_queen_list.push(square),
            Piece::WhiteKing => self.white_king_list.push(square),
            Piece::BlackPawn => self.black_pawn_list.push(square),
            Piece::BlackRook => self.black_rook_list.push(square),
            Piece::BlackKnight => self.black_knight_list.push(square),
            Piece::BlackBishop => self.black_bishop_list.push(square),
            Piece::BlackQueen => self.black_queen_list.push(square),
            Piece::BlackKing => self.black_king_list.push(square),
            _ => {},
        }
    }

    /// Rebuilds every list from the board: each piece's squares in
    /// increasing order.
    pub fn update_lists(&mut self, board_position: &[Piece; 120])
        ensures
            forall|p: Piece| p.is_piece() ==> #[trigger] final(self).list(p) == squares_of(board_position@, p, 120),
    {
        self.white_pawn_list.clear();
        self.white_rook_list.clear();
        self.white_knight_list.clear();
        self.white_bishop_list.clear();
        self.white_queen_list.clear();
        self.white_king_list.clear();
        self.black_pawn_list.clear();
        self.black_rook_list.clear();
        self.black_knight_list.clear();
        self.black_bishop_list.clear();
        self.black_queen_list.clear();
        self.black_king_list.clear();
        let mut square: usize = 0;
        while square < 120
            invariant
                square <= 120,
                forall|p: Piece| p.is_piece() ==> #[trigger] self.list(p) == squares_of(board_position@, p, square as int),
            decreases 120 - square,
        {
            let piece = board_position[square];
            let i16_square = square as i16;
            self.push_square(piece, i16_square);
            square = square + 1;
        }
    }
}

/// Lists built from the squares track them and are well formed when every
/// piece stands on the board.
pub proof fn lemma_rebuilt_lists(sq: Seq<Piece>, pl: PieceList)
    requires
        sq.len() == 120,
        forall|p: Piece| p.is_piece() ==> #[trigger] pl.list(p) == squares_of(sq, p, 120),
        forall|s: int| 0 <= s < 120 && (#[trigger] sq[s]).is_piece() ==> is_inner(s),
    ensures
        pl.wf(),
        lists_match_squares(sq, pl),
{
    assert forall|p: Piece| #[trigger] sorted_inner(pl.list(p)) by {
        if p.is_piece() {
            lemma_squares_of(sq, p, 120);
            assert forall|i: int| 0 <= i < pl.list(p).len() implies is_inner(#[trigger] pl.list(p)[i] as int) by {
                assert(sq[pl.list(p)[i] as int] == p);
            }
        }
    }
    assert forall|p: Piece, i: int| p.is_piece() && 0 <= i < pl.list(p).len() implies sq[#[trigger] pl.list(p)[i] as int] == p by {
        lemma_squares_of(sq, p, 120);
    }
    assert forall|s: int| 0 <= s < 120 && (#[trigger] sq[s]).is_piece() implies pl.list(sq[s]).contains(s as i16) by {
        lemma_squares_of(sq, sq[s], 120);
    }
}

impl ChessBoard {
    /// Creates an empty board (all sentinels, no rights, no lists) with the
    /// given Zobrist keys and transposition table.
    pub fn new(zobrist_keys: Arc<Zobrist>, transposition_table: Arc<TranspositionTable>) -> (r: Self)
        ensures
            r.board_width == 10,
            r.board_height == 12,
            forall|s: int| 0 <= s < 120 ==> r.board_squares@[s] == Piece::SentinelSquare,
            r.en_passant_target is None,
            r.castling_rights == (CastlingRights {
                white_queenside: false,
                white_kingside: false,
                black_queenside: false,
                black_kingside: false,
            }),
            forall|p: Piece| #[trigger] r.piece_list.list(p) == Seq::<i16>::empty(),
            r.zobrist == zobrist_keys,
            r.hash == 0,
            r.transposition_table == transposition_table,
    {
        ChessBoard {
            board_width: 10,
            board_height: 12,
            board_squares: [Piece::SentinelSquare; 120],
            en_passant_target: None,
            castling_rights: CastlingRights {
                white_kingside: false,
                white_queenside: false,
                black_kingside: false,
                black_queenside: false,
            },
            piece_list: PieceList::new_empty(),
            zobrist: zobrist_keys,
            hash: 0,
            transposition_table,
        }
    }

    /// The full Zobrist hash of the board with the given side to move (see
    /// [`position_hash`]).
    pub fn zobrist_hash(&self, side_to_move: Color) -> (r: u64)
        requires
            self.board_width == 10,
            self.board_height == 12,
            forall|k: int| 0 <= k < 64 ==> #[trigger] self.board_squares@[inner_of(k)] != Piece::SentinelSquare,
            self.en_passant_target matches Some(t) ==> is_inner(t as int),
        ensures
            r == position_hash(*self, side_to_move),
    {
        let ghost z = *self.zobrist;
        let mut hash: u64 = 0;
        let mut square_idx: i16 = 0;
        while square_idx < 64
            invariant
                0 <= square_idx <= 64,
                self.board_width == 10,
                self.board_height == 12,
                z == *self.zobrist,
                forall|k: int| 0 <= k < 64 ==> #[trigger] self.board_squares@[inner_of(k)] != Piece::SentinelSquare,
                hash == pieces_hash(z, self.board_squares@, square_idx as int),
            decreases 64 - square_idx,
        {
            let piece = self.get_piece_on_square(self.map_inner_to_outer_board(square_idx));
            assert(self.board_squares@[inner_of(square_idx as int)] != Piece::SentinelSquare);
            if !piece.is_empty() {
                hash = hash ^ self.piece_key(square_idx as usize, piece);
            }
            square_idx = square_idx + 1;
        }
        if side_to_move == Color::Black {
            hash = hash ^ self.zobrist.side_to_move;
        }
        if self.castling_rights.white_queenside {
            hash = hash ^ self.zobrist.castling_rights[0];
        }
        if self.castling_rights.white_kingside {
            hash = hash ^ self.zobrist.castling_rights[1];
        }
        if self.castling_rights.black_queenside {
            hash = hash ^ self.zobrist.castling_rights[2];
        }
        if self.castling_rights.black_kingside {
            hash = hash ^ self.zobrist.castling_rights[3];
        }
        if let Some(square) = self.get_en_passant_target() {
            hash = hash ^ self.en_passant_key(square);
        }
        hash
    }

    /// Sets up the board from the 64 standard squares (0 = a1 .. 63 = h8):
    /// sentinels around them, piece lists rebuilt, and the hash computed for
    /// the given side to move. Rights and en passant target stay as they
    /// were.
    pub fn set_board(&mut self, board_position: &[Piece; 64], side_to_move: Color)
        requires
            old(self).board_width == 10,
            old(self).board_height == 12,
            forall|k: int| 0 <= k < 64 ==> #[trigger] board_position@[k] != Piece::SentinelSquare,
            old(self).en_passant_target matches Some(t) ==> is_inner(t as int),
        ensures
            final(self).board_squares@ == board_from(board_position@),
            forall|p: Piece| p.is_piece() ==> #[trigger] final(self).piece_list.list(p) == squares_of(board_from(board_position@), p, 120),
            final(self).hash == position_hash(*final(self), side_to_move),
            final(self).board_width == old(self).board_width,
            final(self).board_height == old(self).board_height,
            final(self).en_passant_target == old(self).en_passant_target,
            final(self).castling_rights == old(self).castling_rights,
            final(self).zobrist == old(self).zobrist,
            final(self).transposition_table == old(self).transposition_table,
            old(self).transposition_table.wf() ==> final(self).wf(),
    {
        let mut i: usize = 0;
        while i < 120
            invariant
                i <= 120,
                self.board_width == 10,
                self.board_height == 12,
                self.en_passant_target == old(self).en_passant_target,
                self.castling_rights == old(self).castling_rights,
                self.zobrist == old(self).zobrist,
                self.transposition_table == old(self).transposition_table,
                forall|s: int| 0 <= s < i ==> self.board_squares@[s] == Piece::SentinelSquare,
            decreases 120 - i,
        {
            self.board_squares[i] = Piece::SentinelSquare;
            i = i + 1;
        }
        let ghost pos = board_position@;
        let mut square: i16 = 0;
        while square < 64
            invariant
                0 <= square <= 64,
                self.board_width == 10,
                self.board_height == 12,
                pos == board_position@,
                self.en_passant_target == old(self).en_passant_target,
                self.castling_rights == old(self).castling_rights,
                self.zobrist == old(self).zobrist,
                self.transposition_table == old(self).transposition_table,
                forall|s: int| 0 <= s < 120 ==> #[trigger] self.board_squares@[s] == (if is_inner(s) && standard_of(s) < square {
                    pos[standard_of(s)]
                } else {
                    Piece::SentinelSquare
                }),
            decreases 64 - square,
        {
            let inner_square = self.map_inner_to_outer_board(square);
            self.set_piece_on_square(board_position[square as usize], inner_square);
            square = square + 1;
        }
        assert(self.board_squares@ =~= board_from(pos));
        let squares = self.board_squares;
        self.piece_list.update_lists(&squares);
        proof {
            assert forall|k: int| 0 <= k < 64 implies #[trigger] self.board_squares@[inner_of(k)] != Piece::SentinelSquare by {
                assert(is_inner(inner_of(k)));
                assert(standard_of(inner_of(k)) == k);
            }
        }
        self.hash = self.zobrist_hash(side_to_move);
        proof {
            if self.transposition_table.wf() {
                lemma_rebuilt_lists(self.board_squares@, self.piece_list);
                assert forall|s: int| 0 <= s < 120 implies (is_inner(s) <==> #[trigger] self.at(s) != Piece::SentinelSquare) by {
                    if is_inner(s) {
                        assert(0 <= standard_of(s) < 64);
                        assert(pos[standard_of(s)] != Piece::SentinelSquare);
                    }
                }
            }
        }
    }

    /// Sets the en passant target from a standard square (0-63).
    pub fn set_en_passant_square(&mut self, square: i16)
        requires
            old(self).board_width == 10,
            old(self).board_height == 12,
            0 <= square < 64,
        ensures
            final(self).en_passant_target == Some(inner_of(square as int) as i16),
            is_inner(inner_of(square as int)),
            final(self).same_but_en_passant(old(self)),
    {
        self.en_passant_target = Some(self.map_inner_to_outer_board(square));
    }

    /// Sets the castling rights.
    pub fn set_castling_rights(&mut self, castling_rights: &CastlingRights)
        ensures
            final(self).castling_rights == *castling_rights,
            final(self).same_but_rights(old(self)),
    {
        self.castling_rights.white_queenside = castling_rights.white_queenside;
        self.castling_rights.white_kingside = castling_rights.white_kingside;
        self.castling_rights.black_queenside = castling_rights.black_queenside;
        self.castling_rights.black_kingside = castling_rights.black_kingside;
    }

    /// Every field but the en passant target is the same.
    pub open spec fn same_but_en_passant(&self, other: &ChessBoard) -> bool {
        &&& self.board_width == other.board_width
        &&& self.board_height == other.board_height
        &&& self.board_squares == other.board_squares
        &&& self.castling_rights == other.castling_rights
        &&& self.piece_list == other.piece_list
        &&& self.zobrist == other.zobrist
        &&& self.hash == other.hash
        &&& self.transposition_table == other.transposition_table
    }

    /// Every field but the castling rights is the same.
    pub open spec fn same_but_rights(&self, other: &ChessBoard) -> bool {
        &&& self.board_width == other.board_width
        &&& self.board_height == other.board_height
        &&& self.board_squares == other.board_squares
        &&& self.en_passant_target == other.en_passant_target
        &&& self.piece_list == other.piece_list
        &&& self.zobrist == other.zobrist
        &&& self.hash == other.hash
        &&& self.transposition_table == other.transposition_table
    }
}

} // verus!
