//! Chess board representation and game state management.
//!
//! The board uses a 12x10 mailbox: the 8x8 board sits in rows 2-9 and
//! columns 1-8 of a 120-square array whose other squares are sentinels, so
//! that move generation can walk off the board without bounds checks.

use std::sync::Arc;
use vstd::prelude::*;

pub mod moves;
pub mod piece;
pub mod piece_list;
pub mod position;
pub mod analysis;
pub mod evaluation;
pub mod search;
pub mod transposition_table;
pub mod incremental_hash;
pub mod uci_roundtrip;

use moves::Move;
use piece::{Color, Piece, PieceType};
use piece_list::{sorted_inner, PieceList};
use piece_list::attacks::square_attacked;
use transposition_table::{TranspositionTable, Zobrist};

verus! {

/// An on-board square of the 12x10 mailbox: rows 2-9, columns 1-8.
pub open spec fn is_inner(s: int) -> bool {
    21 <= s <= 98 && 1 <= s % 10 <= 8
}

/// The mailbox square of a standard square (0 = a1 .. 63 = h8).
pub open spec fn inner_of(sq: int) -> int {
    10 * (sq / 8) + sq % 8 + 21
}

/// The standard square (0 = a1 .. 63 = h8) of an on-board mailbox square.
pub open spec fn standard_of(s: int) -> int {
    (s / 10 - 2) * 8 + (s % 10 - 1)
}

/// The piece lists list exactly the squares of `sq` that hold each piece.
pub open spec fn lists_match_squares(sq: Seq<Piece>, pl: PieceList) -> bool {
    &&& forall|p: Piece, i: int|
        p.is_piece() && 0 <= i < pl.list(p).len() ==> sq[#[trigger] pl.list(p)[i] as int] == p
    &&& forall|s: int|
        0 <= s < 120 && (#[trigger] sq[s]).is_piece() ==> pl.list(sq[s]).contains(s as i16)
}

/// Castling rights of both players.
#[derive(Copy, Clone, Debug, PartialEq, Eq, Structural)]
pub struct CastlingRights {
    /// Whether white can still castle queenside
    pub white_queenside: bool,
    /// Whether white can still castle kingside
    pub white_kingside: bool,
    /// Whether black can still castle queenside
    pub black_queenside: bool,
    /// Whether black can still castle kingside
    pub black_kingside: bool,
}

/// The rook's part of a castling move.
#[derive(Copy, Clone, Debug, PartialEq, Eq, Structural)]
pub struct CastlingInfo {
    /// The rook's starting square
    pub rook_from: i16,
    /// The rook's destination square after castling
    pub rook_to: i16,
    /// The rook piece being moved
    pub rook_piece: Piece,
}

/// Main chess board representation using a 12x10 mailbox.
pub struct ChessBoard {
    /// Width of the internal board representation (including sentinels)
    pub board_width: i16,
    /// Height of the internal board representation (including sentinels)
    pub board_height: i16,
    /// Square contents, sentinel squares around the 8x8 board
    pub board_squares: [Piece; 120],
    /// The en passant target square, if any
    pub en_passant_target: Option<i16>,
    /// Current castling rights for both players
    pub castling_rights: CastlingRights,
    /// Piece lists for piece tracking and move generation
    pub piece_list: PieceList,
    /// Zobrist keys
    pub zobrist: Arc<Zobrist>,
    /// Hash value of this position
    pub hash: u64,
    /// Shared transposition table
    pub transposition_table: Arc<TranspositionTable>,
}

/// The squares strictly between two squares on a common rank, file or
/// diagonal, in order from `from` (empty when they share no line).
pub open spec fn squares_between(from: int, to: int) -> Seq<i16> {
    let rank_diff = to / 10 - from / 10;
    let file_diff = to % 10 - from % 10;
    let rank_step = if rank_diff > 0 {
        1int
    } else if rank_diff < 0 {
        -1int
    } else {
        0int
    };
    let file_step = if file_diff > 0 {
        1int
    } else if file_diff < 0 {
        -1int
    } else {
        0int
    };
    let rank_abs = if rank_diff < 0 {
        -rank_diff
    } else {
        rank_diff
    };
    let file_abs = if file_diff < 0 {
        -file_diff
    } else {
        file_diff
    };
    let steps = if rank_abs > file_abs {
        rank_abs
    } else {
        file_abs
    };
    if (rank_diff == 0 || file_diff == 0 || rank_abs == file_abs) && steps >= 1 {
        Seq::new(
            (steps - 1) as nat,
            |k: int|
                ((from / 10 + (k + 1) * rank_step) * 10 + (from % 10 + (k + 1) * file_step)) as i16,
        )
    } else {
        Seq::empty()
    }
}

/// The step along a rank or file that leads from `from` to `to`, or 0 when
/// they are equal or share neither rank nor file.
pub open spec fn rank_or_file_direction(from: int, to: int) -> int {
    if from == to {
        0
    } else if from / 10 == to / 10 {
        if to - from > 0 {
            1
        } else {
            -1
        }
    } else if from % 10 == to % 10 {
        if to - from > 0 {
            10
        } else {
            -10
        }
    } else {
        0
    }
}

/// The absolute difference of two integers.
pub open spec fn abs_diff(a: int, b: int) -> int {
    if a >= b {
        a - b
    } else {
        b - a
    }
}

/// The diagonal step that leads from `from` to `to`, or 0 when they are
/// equal or share no diagonal.
pub open spec fn diagonal_direction(from: int, to: int) -> int {
    if from == to || abs_diff(from / 10, to / 10) != abs_diff(from % 10, to % 10) {
        0
    } else {
        (if to / 10 > from / 10 {
            10int
        } else {
            -10int
        }) + (if to % 10 > from % 10 {
            1int
        } else {
            -1int
        })
    }
}

/// The castling rights after a move: a king move or a castling move loses
/// both rights of the mover, a rook leaving its home corner loses that
/// corner's right, and a rook captured on its home corner loses that
/// corner's right for its side.
pub open spec fn rights_after(r: CastlingRights, mv: Move) -> CastlingRights {
    let color = mv.piece.color();
    let clear_all = mv.piece.kind() == PieceType::King || mv.castling is Some;
    let captured_rook = mv.captured_piece != Piece::EmptySquare && mv.captured_piece.kind()
        == PieceType::Rook;
    let cap_color = mv.captured_piece.color();
    CastlingRights {
        white_queenside: r.white_queenside && !(color == Color::White && (clear_all || mv.from
            == 21)) && !(captured_rook && cap_color == Color::White && mv.to == 21),
        white_kingside: r.white_kingside && !(color == Color::White && (clear_all || mv.from
            == 28)) && !(captured_rook && cap_color == Color::White && mv.to == 28),
        black_queenside: r.black_queenside && !(color == Color::Black && (clear_all || mv.from
            == 91)) && !(captured_rook && cap_color == Color::Black && mv.to == 91),
        black_kingside: r.black_kingside && !(color == Color::Black && (clear_all || mv.from
            == 98)) && !(captured_rook && cap_color == Color::Black && mv.to == 98),
    }
}

/// The squares after a move: an en passant pawn is removed, a castling rook
/// moves, the destination gets the final piece and the origin is emptied.
pub open spec fn squares_after_make(sq: Seq<Piece>, mv: Move) -> Seq<Piece> {
    let s1 = if mv.en_passant {
        sq.update(mv.en_passant_capture_square(), Piece::EmptySquare)
    } else {
        sq
    };
    let s2 = match mv.castling {
        Some(c) => s1.update(c.rook_from as int, Piece::EmptySquare).update(
            c.rook_to as int,
            c.rook_piece,
        ),
        None => s1,
    };
    s2.update(mv.to as int, mv.final_piece()).update(mv.from as int, Piece::EmptySquare)
}

/// The squares after a move is reverted: the captured piece returns to the
/// destination, an en passant pawn returns, a castling rook moves back and
/// the moving piece returns to the origin.
pub open spec fn squares_after_unmake(sq: Seq<Piece>, mv: Move) -> Seq<Piece> {
    let s1 = sq.update(mv.to as int, mv.captured_piece);
    let s2 = if mv.en_passant {
        s1.update(mv.en_passant_capture_square(), mv.en_passant_pawn())
    } else {
        s1
    };
    let s3 = match mv.castling {
        Some(c) => s2.update(c.rook_from as int, c.rook_piece).update(
            c.rook_to as int,
            Piece::EmptySquare,
        ),
        None => s2,
    };
    s3.update(mv.from as int, mv.piece)
}

/// The Zobrist key of a piece on a standard square.
pub open spec fn piece_key(z: Zobrist, sq: int, p: Piece) -> u64 {
    z.pieces[sq][p.code() - 1]
}

/// The Zobrist key of the file of an on-board en passant square.
pub open spec fn en_passant_key(z: Zobrist, square: int) -> u64 {
    z.en_passant[square % 10 - 1]
}

/// The key of one castling right when it changes, otherwise zero.
pub open spec fn right_change_key(z: Zobrist, i: int, before: bool, after: bool) -> u64 {
    if before != after {
        z.castling_rights[i]
    } else {
        0
    }
}

/// The XOR of the Zobrist keys that a move changes, given the castling
/// rights after it: the moving piece leaves its origin and enters its
/// destination, a captured piece leaves, the side to move flips, a castling
/// rook moves, the new and the previous en passant files, an en passant
/// pawn, a promotion, and every castling right that changed.
pub open spec fn hash_delta(z: Zobrist, mv: Move, rights: CastlingRights) -> u64 {
    match mv.previous_castling_rights {
        Some(old) => delta_moves(z, mv) ^ right_change_key(
            z,
            0,
            old.white_queenside,
            rights.white_queenside,
        ) ^ right_change_key(z, 1, old.white_kingside, rights.white_kingside) ^ right_change_key(
            z,
            2,
            old.black_queenside,
            rights.black_queenside,
        ) ^ right_change_key(z, 3, old.black_kingside, rights.black_kingside),
        None => delta_moves(z, mv),
    }
}

/// The keys of the moving piece, a captured piece and the side to move.
pub open spec fn delta_pieces(z: Zobrist, mv: Move) -> u64 {
    let from = standard_of(mv.from as int);
    let to = standard_of(mv.to as int);
    let d1 = piece_key(z, from, mv.piece);
    let d2 = if mv.captured_piece.is_piece() {
        d1 ^ piece_key(z, to, mv.captured_piece)
    } else {
        d1
    };
    (d2 ^ piece_key(z, to, mv.piece)) ^ z.side_to_move
}

/// [`delta_pieces`] with the keys of a castling rook and the en passant
/// files.
pub open spec fn delta_squares(z: Zobrist, mv: Move) -> u64 {
    let d4 = delta_pieces(z, mv);
    let d5 = match mv.castling {
        Some(c) => (d4 ^ piece_key(z, standard_of(c.rook_from as int), c.rook_piece))
            ^ piece_key(z, standard_of(c.rook_to as int), c.rook_piece),
        None => d4,
    };
    let d6 = match mv.en_passant_square {
        Some(e) => d5 ^ en_passant_key(z, e as int),
        None => d5,
    };
    match mv.previous_en_passant {
        Some(e) => d6 ^ en_passant_key(z, e as int),
        None => d6,
    }
}

/// [`delta_squares`] with the keys of an en passant pawn and a promotion.
pub open spec fn delta_moves(z: Zobrist, mv: Move) -> u64 {
    let to = standard_of(mv.to as int);
    let d7 = delta_squares(z, mv);
    let d8 = if mv.en_passant {
        d7 ^ piece_key(z, standard_of(mv.en_passant_capture_square()), mv.en_passant_pawn())
    } else {
        d7
    };
    match mv.promotion {
        Some(pp) => (d8 ^ piece_key(z, to, mv.piece)) ^ piece_key(z, to, pp),
        None => d8,
    }
}

/// XOR with the same value twice is the identity.
pub proof fn lemma_xor_twice(h: u64, d: u64)
    ensures
        (h ^ d) ^ d == h,
{
    assert((h ^ d) ^ d == h) by (bit_vector);
}

impl ChessBoard {
    /// The content of a square.
    pub open spec fn at(&self, s: int) -> Piece {
        self.board_squares@[s]
    }

    /// Sentinel squares are exactly the squares off the 8x8 board.
    pub open spec fn frame_ok(&self) -> bool {
        forall|s: int| 0 <= s < 120 ==> (is_inner(s) <==> #[trigger] self.at(s) != Piece::SentinelSquare)
    }

    /// The piece lists list exactly the squares that hold each piece.
    pub open spec fn lists_match(&self) -> bool {
        lists_match_squares(self.board_squares@, self.piece_list)
    }

    /// The board's invariant: the mailbox shape, the sentinel frame, an
    /// on-board en passant target, sorted piece lists that match the board,
    /// and a well-formed transposition table.
    pub open spec fn wf(&self) -> bool {
        &&& self.board_width == 10
        &&& self.board_height == 12
        &&& self.frame_ok()
        &&& (self.en_passant_target matches Some(t) ==> is_inner(t as int))
        &&& self.piece_list.wf()
        &&& self.lists_match()
        &&& self.transposition_table.wf()
    }

    /// All fields but the squares are the same.
    pub open spec fn same_but_squares(&self, other: &ChessBoard) -> bool {
        &&& self.board_width == other.board_width
        &&& self.board_height == other.board_height
        &&& self.en_passant_target == other.en_passant_target
        &&& self.castling_rights == other.castling_rights
        &&& self.piece_list == other.piece_list
        &&& self.zobrist == other.zobrist
        &&& self.hash == other.hash
        &&& self.transposition_table == other.transposition_table
    }

    /// Gets the piece on a given square.
    pub fn get_piece_on_square(&self, square: i16) -> (r: Piece)
        requires
            0 <= square < 120,
        ensures
            r == self.at(square as int),
    {
        self.board_squares[square as usize]
    }

    /// Sets a piece on a given square.
    pub fn set_piece_on_square(&mut self, piece: Piece, square: i16)
        requires
            0 <= square < 120,
        ensures
            final(self).board_squares@ == old(self).board_squares@.update(square as int, piece),
            final(self).same_but_squares(old(self)),
    {
        self.board_squares[square as usize] = piece;
    }

    /// Checks if two squares are on the same rank (row).
    pub fn are_on_the_same_rank(&self, square1: i16, square2: i16) -> (r: bool)
        requires
            self.board_width == 10,
            0 <= square1,
            0 <= square2,
        ensures
            r == (square1 / 10 == square2 / 10),
    {
        square1 / self.board_width == square2 / self.board_width
    }

    /// Checks if two squares are on the same file (column).
    pub fn are_on_the_same_file(&self, square1: i16, square2: i16) -> (r: bool)
        requires
            self.board_width == 10,
            0 <= square1,
            0 <= square2,
        ensures
            r == (square1 % 10 == square2 % 10),
    {
        square1 % self.board_width == square2 % self.board_width
    }

    /// Checks if two squares are on the same diagonal.
    pub fn are_on_the_same_diagonal(&self, square1: i16, square2: i16) -> (r: bool)
        requires
            self.board_width == 10,
            0 <= square1,
            0 <= square2,
        ensures
            r == (abs_diff(square1 / 10, square2 / 10) == abs_diff((square1 % 10) as int, (square2 % 10) as int)),
    {
        let row1 = square1 / self.board_width;
        let col1 = square1 % self.board_width;
        let row2 = square2 / self.board_width;
        let col2 = square2 % self.board_width;
        let row_diff = if row1 >= row2 {
            row1 - row2
        } else {
            row2 - row1
        };
        let col_diff = if col1 >= col2 {
            col1 - col2
        } else {
            col2 - col1
        };
        row_diff == col_diff
    }

    /// Gets all squares strictly between two squares that share a rank, a
    /// file or a diagonal (empty otherwise).
    pub fn get_squares_between(&self, from: i16, to: i16) -> (r: Vec<i16>)
        requires
            self.board_width == 10,
            0 <= from < 120,
            0 <= to < 120,
        ensures
            r@ == squares_between(from as int, to as int),
    {
        let mut squares: Vec<i16> = Vec::new();
        let from_rank = self.square_rank(from);
        let from_file = self.square_file(from);
        let to_rank = self.square_rank(to);
        let to_file = self.square_file(to);
        let rank_diff = to_rank - from_rank;
        let file_diff = to_file - from_file;
        let rank_abs = if rank_diff < 0 {
            -rank_diff
        } else {
            rank_diff
        };
        let file_abs = if file_diff < 0 {
            -file_diff
        } else {
            file_diff
        };
        if rank_diff == 0 || file_diff == 0 || rank_abs == file_abs {
            let rank_step: i16 = if rank_diff > 0 {
                1
            } else if rank_diff < 0 {
                -1
            } else {
                0
            };
            let file_step: i16 = if file_diff > 0 {
                1
            } else if file_diff < 0 {
                -1
            } else {
                0
            };
            let steps = if rank_abs > file_abs {
                rank_abs
            } else {
                file_abs
            };
            let ghost expected = squares_between(from as int, to as int);
            let mut i: i16 = 1;
            while i < steps
                invariant
                    1 <= i,
                    i <= steps || steps < 1,
                    steps <= 11,
                    self.board_width == 10,
                    0 <= from_rank <= 11,
                    0 <= from_file <= 9,
                    -1 <= rank_step <= 1,
                    -1 <= file_step <= 1,
                    steps >= 1 ==> squares@.len() == i - 1,
                    steps < 1 ==> squares@.len() == 0,
                    forall|k: int|
                        0 <= k < squares@.len() ==> squares@[k] == ((from_rank + (k + 1)
                            * rank_step) * 10 + (from_file + (k + 1) * file_step)) as i16,
                decreases steps - i,
            {
                assert(-11 <= i * rank_step <= 11) by (nonlinear_arith)
                    requires
                        1 <= i <= 11,
                        -1 <= rank_step <= 1,
                ;
                assert(-11 <= i * file_step <= 11) by (nonlinear_arith)
                    requires
                        1 <= i <= 11,
                        -1 <= file_step <= 1,
                ;
                let rank = from_rank + i * rank_step;
                let file = from_file + i * file_step;
                squares.push(rank * self.board_width + file);
                i = i + 1;
            }
            assert(squares@ =~= expected);
        } else {
            assert(squares@ =~= squares_between(from as int, to as int));
        }
        squares
    }

    /// The step along a rank or file that leads from one square to another,
    /// or 0 if there is no such straight line.
    pub fn get_rank_or_file_direction(&self, from: i16, to: i16) -> (r: i16)
        requires
            self.board_width == 10,
            0 <= from,
            0 <= to,
        ensures
            r == rank_or_file_direction(from as int, to as int),
    {
        if from == to {
            return 0;
        }
        let same_rank = self.are_on_the_same_rank(from, to);
        let same_file = self.are_on_the_same_file(from, to);
        if !same_file && !same_rank {
            return 0;
        }
        let distance = to - from;
        if same_rank {
            if distance > 0 {
                1
            } else {
                -1
            }
        } else if distance > 0 {
            self.board_width
        } else {
            -self.board_width
        }
    }

    /// The diagonal step that leads from one square to another, or 0 if
    /// there is no such diagonal.
    pub fn get_diagonal_direction(&self, from: i16, to: i16) -> (r: i16)
        requires
            self.board_width == 10,
            0 <= from,
            0 <= to,
        ensures
            r == diagonal_direction(from as int, to as int),
    {
        if from == to {
            return 0;
        }
        let same_diagonal = self.are_on_the_same_diagonal(from, to);
        if !same_diagonal {
            return 0;
        }
        let row1 = self.square_rank(from);
        let row2 = self.square_rank(to);
        let row_dir: i16 = if row2 > row1 {
            1
        } else {
            -1
        };
        let col1 = self.square_file(from);
        let col2 = self.square_file(to);
        let col_dir: i16 = if col2 > col1 {
            1
        } else {
            -1
        };
        row_dir * self.board_width + col_dir
    }

    /// Gets the current en passant target square.
    pub fn get_en_passant_target(&self) -> (r: Option<i16>)
        ensures
            r == self.en_passant_target,
    {
        self.en_passant_target
    }

    /// Sets the en passant target square.
    pub fn set_en_passant_target(&mut self, square: Option<i16>)
        ensures
            final(self).en_passant_target == square,
            final(self).board_squares == old(self).board_squares,
            final(self).castling_rights == old(self).castling_rights,
            final(self).piece_list == old(self).piece_list,
            final(self).zobrist == old(self).zobrist,
            final(self).hash == old(self).hash,
            final(self).transposition_table == old(self).transposition_table,
            final(self).board_width == old(self).board_width,
            final(self).board_height == old(self).board_height,
    {
        self.en_passant_target = square;
    }

    /// Gets the rank (row) of a square of the mailbox.
    pub fn square_rank(&self, square: i16) -> (r: i16)
        requires
            self.board_width == 10,
            0 <= square,
        ensures
            r == square / 10,
    {
        square / self.board_width
    }

    /// Gets the file (column) of a square of the mailbox.
    pub fn square_file(&self, square: i16) -> (r: i16)
        requires
            self.board_width == 10,
            0 <= square,
        ensures
            r == square % 10,
    {
        square % self.board_width
    }

    /// Maps a standard chess square (0-63) to its mailbox square.
    pub fn map_inner_to_outer_board(&self, square: i16) -> (r: i16)
        requires
            self.board_width == 10,
            self.board_height == 12,
            0 <= square < 64,
        ensures
            r == inner_of(square as int),
            is_inner(r as int),
    {
        let vertical_padding = (self.board_height - 8) / 2;
        let horizontal_padding = (self.board_width - 8) / 2;
        let board_offset = vertical_padding * self.board_width + horizontal_padding;
        let chess_rank = square / 8;
        let chess_file = square % 8;
        self.board_width * chess_rank + chess_file + board_offset
    }

    /// Maps an on-board mailbox square to its standard square (0-63).
    pub fn map_to_standard_chess_board(&self, square: i16) -> (r: usize)
        requires
            self.board_width == 10,
            is_inner(square as int),
        ensures
            r == standard_of(square as int),
            r < 64,
            inner_of(r as int) == square,
    {
        let board_width = self.board_width;
        let rank = square / board_width;
        let file = square % board_width;
        let chess_rank = rank - 2;
        let chess_file = file - 1;
        (chess_rank * 8 + chess_file) as usize
    }
}

impl ChessBoard {
    /// Every field but the hash is the same.
    pub open spec fn same_but_hash(&self, other: &ChessBoard) -> bool {
        &&& self.board_width == other.board_width
        &&& self.board_height == other.board_height
        &&& self.board_squares == other.board_squares
        &&& self.en_passant_target == other.en_passant_target
        &&& self.castling_rights == other.castling_rights
        &&& self.piece_list == other.piece_list
        &&& self.zobrist == other.zobrist
        &&& self.transposition_table == other.transposition_table
    }

    /// The Zobrist key of a piece on a standard square.
    fn piece_key(&self, square: usize, piece: Piece) -> (r: u64)
        requires
            square < 64,
            piece.is_piece(),
        ensures
            r == piece_key(*self.zobrist, square as int, piece),
    {
        let index = (piece.to_code() - 1) as usize;
        self.zobrist.pieces[square][index]
    }

    /// The Zobrist key of the file of an on-board en passant square.
    fn en_passant_key(&self, square: i16) -> (r: u64)
        requires
            self.board_width == 10,
            is_inner(square as int),
        ensures
            r == en_passant_key(*self.zobrist, square as int),
    {
        let file = self.square_file(square) - (self.board_width - 8) / 2;
        self.zobrist.en_passant[file as usize]
    }

    /// The keys of the moving piece, a captured piece and the side to move.
    fn delta_for_pieces(&self, mv: &Move) -> (r: u64)
        requires
            self.board_width == 10,
            is_inner(mv.from as int),
            is_inner(mv.to as int),
            mv.piece.is_piece(),
        ensures
            r == delta_pieces(*self.zobrist, *mv),
    {
        let from_square = self.map_to_standard_chess_board(mv.from);
        let to_square = self.map_to_standard_chess_board(mv.to);
        let mut d = self.piece_key(from_square, mv.piece);
        if mv.captured_piece.is_valid_piece() {
            d = d ^ self.piece_key(to_square, mv.captured_piece);
        }
        d = d ^ self.piece_key(to_square, mv.piece);
        d ^ self.zobrist.side_to_move
    }

    /// Adds the keys of a castling rook and of the en passant files.
    fn delta_for_squares(&self, mv: &Move, d: u64) -> (r: u64)
        requires
            self.board_width == 10,
            d == delta_pieces(*self.zobrist, *mv),
            mv.castling matches Some(c) ==> is_inner(c.rook_from as int) && is_inner(
                c.rook_to as int,
            ) && c.rook_piece.is_piece(),
            mv.en_passant_square matches Some(e) ==> is_inner(e as int),
            mv.previous_en_passant matches Some(e) ==> is_inner(e as int),
        ensures
            r == delta_squares(*self.zobrist, *mv),
    {
        let mut d = d;
        if let Some(castling) = &mv.castling {
            let rook_from = self.map_to_standard_chess_board(castling.rook_from);
            let rook_to = self.map_to_standard_chess_board(castling.rook_to);
            d = d ^ self.piece_key(rook_from, castling.rook_piece);
            d = d ^ self.piece_key(rook_to, castling.rook_piece);
        }
        if let Some(square) = mv.en_passant_square {
            d = d ^ self.en_passant_key(square);
        }
        if let Some(square) = mv.previous_en_passant {
            d = d ^ self.en_passant_key(square);
        }
        d
    }

    /// Adds the keys of an en passant pawn and of a promotion.
    fn delta_for_moves(&self, mv: &Move, d: u64) -> (r: u64)
        requires
            self.board_width == 10,
            d == delta_squares(*self.zobrist, *mv),
            is_inner(mv.to as int),
            mv.piece.is_piece(),
            mv.en_passant ==> is_inner(mv.en_passant_capture_square()),
            mv.promotion matches Some(p) ==> p.is_piece(),
        ensures
            r == delta_moves(*self.zobrist, *mv),
    {
        let mut d = d;
        let to_square = self.map_to_standard_chess_board(mv.to);
        if mv.en_passant {
            let capture_square = if mv.piece.is_white() {
                self.map_to_standard_chess_board(mv.to - self.board_width)
            } else {
                self.map_to_standard_chess_board(mv.to + self.board_width)
            };
            let captured_pawn = if mv.piece.is_white() {
                Piece::BlackPawn
            } else {
                Piece::WhitePawn
            };
            d = d ^ self.piece_key(capture_square, captured_pawn);
        }
        if let Some(promoted_piece) = mv.promotion {
            d = d ^ self.piece_key(to_square, mv.piece);
            d = d ^ self.piece_key(to_square, promoted_piece);
        }
        d
    }

    /// Adds the key of every castling right that the move changed.
    fn delta_for_rights(&self, mv: &Move, d: u64) -> (r: u64)
        requires
            d == delta_moves(*self.zobrist, *mv),
        ensures
            r == hash_delta(*self.zobrist, *mv, self.castling_rights),
    {
        let mut d = d;
        if let Some(old_rights) = &mv.previous_castling_rights {
            let new_rights = &self.castling_rights;
            let mut k0: u64 = 0;
            if old_rights.white_queenside != new_rights.white_queenside {
                k0 = self.zobrist.castling_rights[0];
            }
            let mut k1: u64 = 0;
            if old_rights.white_kingside != new_rights.white_kingside {
                k1 = self.zobrist.castling_rights[1];
            }
            let mut k2: u64 = 0;
            if old_rights.black_queenside != new_rights.black_queenside {
                k2 = self.zobrist.castling_rights[2];
            }
            let mut k3: u64 = 0;
            if old_rights.black_kingside != new_rights.black_kingside {
                k3 = self.zobrist.castling_rights[3];
            }
            d = d ^ k0 ^ k1 ^ k2 ^ k3;
        }
        d
    }

    /// Updates the hash for a move: XORs in every key that the move changes
    /// (see [`hash_delta`]), with the board's current castling rights as the
    /// rights after the move. Applying it twice with the same rights gives
    /// back the hash.
    pub fn update_hash(&mut self, mv: &Move)
        requires
            old(self).board_width == 10,
            is_inner(mv.from as int),
            is_inner(mv.to as int),
            mv.piece.is_piece(),
            mv.castling matches Some(c) ==> is_inner(c.rook_from as int) && is_inner(
                c.rook_to as int,
            ) && c.rook_piece.is_piece(),
            mv.en_passant_square matches Some(e) ==> is_inner(e as int),
            mv.previous_en_passant matches Some(e) ==> is_inner(e as int),
            mv.en_passant ==> is_inner(mv.en_passant_capture_square()),
            mv.promotion matches Some(p) ==> p.is_piece(),
        ensures
            final(self).hash == old(self).hash ^ hash_delta(
                *old(self).zobrist,
                *mv,
                old(self).castling_rights,
            ),
            final(self).same_but_hash(old(self)),
    {
        let d = self.delta_for_pieces(mv);
        let d = self.delta_for_squares(mv, d);
        let d = self.delta_for_moves(mv, d);
        let d = self.delta_for_rights(mv, d);
        self.hash = self.hash ^ d;
    }
}

/// Updating the hash for the same move twice, with the castling rights
/// unchanged in between, gives back the hash.
pub proof fn lemma_update_hash_twice(b0: ChessBoard, b1: ChessBoard, b2: ChessBoard, mv: Move)
    requires
        b1.hash == b0.hash ^ hash_delta(*b0.zobrist, mv, b0.castling_rights),
        b1.same_but_hash(&b0),
        b2.hash == b1.hash ^ hash_delta(*b1.zobrist, mv, b1.castling_rights),
    ensures
        b2.hash == b0.hash,
{
    lemma_xor_twice(b0.hash, hash_delta(*b0.zobrist, mv, b0.castling_rights));
}

/// The effect of [`ChessBoard::make_move`]: the board stays well formed,
/// the squares, castling rights, en passant target and hash change as the
/// move says, and nothing else changes.
pub open spec fn made(b0: ChessBoard, b1: ChessBoard, mv: Move) -> bool {
    &&& b1.wf()
    &&& b1.board_squares@ == squares_after_make(b0.board_squares@, mv)
    &&& b1.castling_rights == rights_after(b0.castling_rights, mv)
    &&& b1.en_passant_target == mv.en_passant_square
    &&& b1.hash == b0.hash ^ hash_delta(*b0.zobrist, mv, b1.castling_rights)
    &&& b1.zobrist == b0.zobrist
    &&& b1.transposition_table == b0.transposition_table
    &&& b1.board_width == b0.board_width
    &&& b1.board_height == b0.board_height
}

/// The effect of [`ChessBoard::unmake_move`]: the board stays well formed,
/// the squares change back, the recorded castling rights and en passant
/// target return, the hash takes the same keys out again, and nothing else
/// changes.
pub open spec fn unmade(b1: ChessBoard, b2: ChessBoard, mv: Move) -> bool {
    &&& b2.wf()
    &&& b2.board_squares@ == squares_after_unmake(b1.board_squares@, mv)
    &&& b2.castling_rights == match mv.previous_castling_rights {
        Some(r) => r,
        None => b1.castling_rights,
    }
    &&& b2.en_passant_target == mv.previous_en_passant
    &&& b2.hash == b1.hash ^ hash_delta(*b1.zobrist, mv, b1.castling_rights)
    &&& b2.zobrist == b1.zobrist
    &&& b2.transposition_table == b1.transposition_table
    &&& b2.board_width == b1.board_width
    &&& b2.board_height == b1.board_height
}

/// Two boards hold the same position: the same squares, castling rights,
/// en passant target, piece lists, keys, hash and table.
pub open spec fn same_position(a: ChessBoard, b: ChessBoard) -> bool {
    &&& a.board_width == b.board_width
    &&& a.board_height == b.board_height
    &&& a.board_squares@ == b.board_squares@
    &&& a.en_passant_target == b.en_passant_target
    &&& a.castling_rights == b.castling_rights
    &&& a.piece_list.same_lists(&b.piece_list)
    &&& a.zobrist == b.zobrist
    &&& a.hash == b.hash
    &&& a.transposition_table == b.transposition_table
}

/// Piece lists that match the same squares are the same lists.
proof fn lemma_lists_determined(sq: Seq<Piece>, pl1: PieceList, pl2: PieceList)
    requires
        sq.len() == 120,
        pl1.wf(),
        pl2.wf(),
        lists_match_squares(sq, pl1),
        lists_match_squares(sq, pl2),
    ensures
        pl1.same_lists(&pl2),
{
    assert forall|p: Piece| #[trigger] pl1.list(p) == pl2.list(p) by {
        if p.is_piece() {
            assert(sorted_inner(pl1.list(p)));
            assert(sorted_inner(pl2.list(p)));
            assert forall|x: i16| pl1.list(p).contains(x) <==> pl2.list(p).contains(x) by {
                if pl1.list(p).contains(x) {
                    let i = choose|i: int| 0 <= i < pl1.list(p).len() && pl1.list(p)[i] == x;
                    assert(sq[pl1.list(p)[i] as int] == p);
                    assert(is_inner(x as int));
                    assert(sq[x as int] == p);
                }
                if pl2.list(p).contains(x) {
                    let i = choose|i: int| 0 <= i < pl2.list(p).len() && pl2.list(p)[i] == x;
                    assert(sq[pl2.list(p)[i] as int] == p);
                    assert(is_inner(x as int));
                    assert(sq[x as int] == p);
                }
            }
            piece_list::lemma_sorted_same_elements(pl1.list(p), pl2.list(p));
        } else {
            assert(pl1.list(p) =~= pl2.list(p));
        }
    }
}

/// Making the same move on the same position gives the same position.
pub proof fn lemma_made_unique(b0: ChessBoard, b1: ChessBoard, b2: ChessBoard, mv: Move)
    requires
        made(b0, b1, mv),
        made(b0, b2, mv),
    ensures
        same_position(b1, b2),
{
    lemma_lists_determined(b1.board_squares@, b1.piece_list, b2.piece_list);
}

/// A move made on two boards in the same position has the same effect on
/// both.
pub proof fn lemma_made_same_position(b0: ChessBoard, c0: ChessBoard, b1: ChessBoard, mv: Move)
    requires
        made(b0, b1, mv),
        same_position(b0, c0),
    ensures
        made(c0, b1, mv),
{
}

/// Making a move and then unmaking it gives back the position it was made
/// on: the same squares, castling rights, en passant target, piece lists
/// and hash.
pub proof fn lemma_make_unmake_restores(b0: ChessBoard, b1: ChessBoard, b2: ChessBoard, mv: Move)
    requires
        b0.wf(),
        mv.fits(&b0),
        made(b0, b1, mv),
        unmade(b1, b2, mv),
    ensures
        same_position(b2, b0),
{
    let sq0 = b0.board_squares@;
    let sq2 = b2.board_squares@;
    assert forall|s: int| 0 <= s < 120 implies sq2[s] == sq0[s] by {
        assert(b0.frame_ok());
        assert(b0.at(s) != Piece::SentinelSquare <==> is_inner(s));
    }
    assert(sq2 =~= sq0);
    lemma_xor_twice(b0.hash, hash_delta(*b0.zobrist, mv, b1.castling_rights));
    lemma_lists_determined(sq0, b2.piece_list, b0.piece_list);
}

/// Making a move, doing anything that leaves the position as it was made,
/// and unmaking the move gives back the position the move was made on.
pub proof fn lemma_make_visit_unmake(b0: ChessBoard, b1: ChessBoard, b1p: ChessBoard, b2: ChessBoard, mv: Move)
    requires
        b0.wf(),
        mv.fits(&b0),
        made(b0, b1, mv),
        same_position(b1p, b1),
        unmade(b1p, b2, mv),
    ensures
        same_position(b2, b0),
{
    let sq0 = b0.board_squares@;
    let sq2 = b2.board_squares@;
    assert forall|s: int| 0 <= s < 120 implies sq2[s] == sq0[s] by {
        assert(b0.frame_ok());
        assert(b0.at(s) != Piece::SentinelSquare <==> is_inner(s));
    }
    assert(sq2 =~= sq0);
    lemma_xor_twice(b0.hash, hash_delta(*b0.zobrist, mv, b1.castling_rights));
    lemma_lists_determined(sq0, b2.piece_list, b0.piece_list);
}

/// The number of pieces on the first `n` squares.
pub open spec fn piece_count(sq: Seq<Piece>, n: int) -> int
    decreases n,
{
    if n <= 0 {
        0
    } else {
        piece_count(sq, n - 1) + if sq[n - 1].is_piece() {
            1int
        } else {
            0int
        }
    }
}

/// A piece count is never negative.
pub proof fn lemma_piece_count_nonneg(sq: Seq<Piece>, n: int)
    ensures
        piece_count(sq, n) >= 0,
    decreases n,
{
    if n > 0 {
        lemma_piece_count_nonneg(sq, n - 1);
    }
}

/// Writing one square changes the piece count by what left and what came.
proof fn lemma_piece_count_update(sq: Seq<Piece>, i: int, v: Piece, n: int)
    requires
        0 <= i < n <= sq.len(),
    ensures
        piece_count(sq.update(i, v), n) == piece_count(sq, n) - (if sq[i].is_piece() {
            1int
        } else {
            0int
        }) + (if v.is_piece() {
            1int
        } else {
            0int
        }),
    decreases n,
{
    if n - 1 > i {
        lemma_piece_count_update(sq, i, v, n - 1);
    } else {
        lemma_piece_count_prefix(sq, i, v, i);
        assert(sq.update(i, v)[i] == v);
    }
}

/// Squares before the one written keep their count.
proof fn lemma_piece_count_prefix(sq: Seq<Piece>, i: int, v: Piece, k: int)
    requires
        0 <= k <= i < sq.len(),
    ensures
        piece_count(sq.update(i, v), k) == piece_count(sq, k),
    decreases k,
{
    if k > 0 {
        lemma_piece_count_prefix(sq, i, v, k - 1);
    }
}

/// A capture, en passant included, removes one piece from the board.
pub proof fn lemma_capture_removes_piece(b0: ChessBoard, mv: Move)
    requires
        b0.wf(),
        mv.fits(&b0),
        mv.removes_piece(),
    ensures
        piece_count(squares_after_make(b0.board_squares@, mv), 120) == piece_count(b0.board_squares@, 120) - 1,
{
    let sq = b0.board_squares@;
    if mv.en_passant {
        let cap = mv.en_passant_capture_square();
        let s1 = sq.update(cap, Piece::EmptySquare);
        let s3 = s1.update(mv.to as int, mv.final_piece());
        lemma_piece_count_update(sq, cap, Piece::EmptySquare, 120);
        lemma_piece_count_update(s1, mv.to as int, mv.final_piece(), 120);
        lemma_piece_count_update(s3, mv.from as int, Piece::EmptySquare, 120);
    } else {
        match mv.castling {
            Some(c) => {
                let s1 = sq.update(c.rook_from as int, Piece::EmptySquare);
                let s2 = s1.update(c.rook_to as int, c.rook_piece);
                let s3 = s2.update(mv.to as int, mv.final_piece());
                lemma_piece_count_update(sq, c.rook_from as int, Piece::EmptySquare, 120);
                lemma_piece_count_update(s1, c.rook_to as int, c.rook_piece, 120);
                lemma_piece_count_update(s2, mv.to as int, mv.final_piece(), 120);
                lemma_piece_count_update(s3, mv.from as int, Piece::EmptySquare, 120);
            },
            None => {
                let s3 = sq.update(mv.to as int, mv.final_piece());
                lemma_piece_count_update(sq, mv.to as int, mv.final_piece(), 120);
                lemma_piece_count_update(s3, mv.from as int, Piece::EmptySquare, 120);
            },
        }
    }
}

/// After [`PieceList::make_move`] of a move that fits the board, the lists
/// match the squares after the move.
proof fn lemma_make_lists_match(b0: ChessBoard, pl1: PieceList, mv: Move)
    requires
        b0.wf(),
        mv.fits(&b0),
        pl1.wf(),
        forall|p: Piece, s: i16|
            p.is_piece() ==> (#[trigger] pl1.list(p).contains(s) <==> piece_list::made_has(
                b0.piece_list,
                mv,
                p,
                s,
            )),
    ensures
        lists_match_squares(squares_after_make(b0.board_squares@, mv), pl1),
{
    let sq0 = b0.board_squares@;
    let sq1 = squares_after_make(sq0, mv);
    assert(sq0.len() == 120);
    assert forall|p: Piece, i: int| p.is_piece() && 0 <= i < pl1.list(p).len() implies sq1[#[trigger] pl1.list(p)[i] as int] == p by {
        let s = pl1.list(p)[i];
        assert(sorted_inner(pl1.list(p)));
        assert(is_inner(s as int));
        assert(pl1.list(p).contains(s));
        assert(sorted_inner(b0.piece_list.list(p)));
        if b0.piece_list.list(p).contains(s) {
            let j = choose|j: int| 0 <= j < b0.piece_list.list(p).len() && b0.piece_list.list(p)[j] == s;
            assert(sq0[b0.piece_list.list(p)[j] as int] == p);
        }
    }
    assert forall|s: int| 0 <= s < 120 && (#[trigger] sq1[s]).is_piece() implies pl1.list(sq1[s]).contains(s as i16) by {
        let p = sq1[s];
        if sq0[s] == p {
            assert(b0.piece_list.list(sq0[s]).contains(s as i16));
        }
        assert(piece_list::made_has(b0.piece_list, mv, p, s as i16));
    }
}

/// After [`PieceList::unmake_move`] of a move that can be undone on the
/// board, the lists match the squares after the move is reverted.
proof fn lemma_unmake_lists_match(b1: ChessBoard, pl2: PieceList, mv: Move)
    requires
        b1.wf(),
        mv.undoable(&b1),
        pl2.wf(),
        forall|p: Piece, s: i16|
            p.is_piece() ==> (#[trigger] pl2.list(p).contains(s) <==> piece_list::unmade_has(
                b1.piece_list,
                mv,
                p,
                s,
            )),
    ensures
        lists_match_squares(squares_after_unmake(b1.board_squares@, mv), pl2),
{
    let sq1 = b1.board_squares@;
    let sq2 = squares_after_unmake(sq1, mv);
    assert(sq1.len() == 120);
    assert forall|p: Piece, i: int| p.is_piece() && 0 <= i < pl2.list(p).len() implies sq2[#[trigger] pl2.list(p)[i] as int] == p by {
        let s = pl2.list(p)[i];
        assert(sorted_inner(pl2.list(p)));
        assert(is_inner(s as int));
        assert(pl2.list(p).contains(s));
        assert(sorted_inner(b1.piece_list.list(p)));
        if b1.piece_list.list(p).contains(s) {
            let j = choose|j: int| 0 <= j < b1.piece_list.list(p).len() && b1.piece_list.list(p)[j] == s;
            assert(sq1[b1.piece_list.list(p)[j] as int] == p);
        }
    }
    assert forall|s: int| 0 <= s < 120 && (#[trigger] sq2[s]).is_piece() implies pl2.list(sq2[s]).contains(s as i16) by {
        let p = sq2[s];
        if sq1[s] == p {
            assert(b1.piece_list.list(sq1[s]).contains(s as i16));
        }
        assert(piece_list::unmade_has(b1.piece_list, mv, p, s as i16));
    }
}

impl ChessBoard {
    /// Updates castling rights for a move (see [`rights_after`]).
    pub fn update_castling_rights(&mut self, mv: &Move)
        requires
            old(self).board_width == 10,
            old(self).board_height == 12,
            mv.piece.is_piece(),
            mv.captured_piece != Piece::EmptySquare ==> mv.captured_piece.is_piece(),
        ensures
            final(self).castling_rights == rights_after(old(self).castling_rights, *mv),
            final(self).board_squares == old(self).board_squares,
            final(self).en_passant_target == old(self).en_passant_target,
            final(self).piece_list == old(self).piece_list,
            final(self).zobrist == old(self).zobrist,
            final(self).hash == old(self).hash,
            final(self).transposition_table == old(self).transposition_table,
            final(self).board_width == old(self).board_width,
            final(self).board_height == old(self).board_height,
    {
        proof {
            reveal_strlit("a1");
            reveal_strlit("h1");
            reveal_strlit("a8");
            reveal_strlit("h8");
        }
        let color = mv.piece.get_color();
        if mv.piece.get_type() == PieceType::King {
            if color == Color::White {
                self.castling_rights.white_kingside = false;
                self.castling_rights.white_queenside = false;
            } else {
                self.castling_rights.black_kingside = false;
                self.castling_rights.black_queenside = false;
            }
        }
        let white_rook_queenside = self.algebraic_to_internal("a1");
        let white_rook_kingside = self.algebraic_to_internal("h1");
        let black_rook_queenside = self.algebraic_to_internal("a8");
        let black_rook_kingside = self.algebraic_to_internal("h8");
        if color == Color::White && mv.from == white_rook_queenside {
            self.castling_rights.white_queenside = false;
        } else if color == Color::White && mv.from == white_rook_kingside {
            self.castling_rights.white_kingside = false;
        } else if color == Color::Black && mv.from == black_rook_queenside {
            self.castling_rights.black_queenside = false;
        } else if color == Color::Black && mv.from == black_rook_kingside {
            self.castling_rights.black_kingside = false;
        }
        if (mv.captured_piece != Piece::EmptySquare) && (mv.captured_piece.get_type()
            == PieceType::Rook) {
            let captured_color = mv.captured_piece.get_color();
            if captured_color == Color::White && mv.to == white_rook_queenside {
                self.castling_rights.white_queenside = false;
            } else if captured_color == Color::White && mv.to == white_rook_kingside {
                self.castling_rights.white_kingside = false;
            } else if captured_color == Color::Black && mv.to == black_rook_queenside {
                self.castling_rights.black_queenside = false;
            } else if captured_color == Color::Black && mv.to == black_rook_kingside {
                self.castling_rights.black_kingside = false;
            }
        }
        if mv.castling.is_some() {
            if color == Color::White {
                self.castling_rights.white_kingside = false;
                self.castling_rights.white_queenside = false;
            } else {
                self.castling_rights.black_kingside = false;
                self.castling_rights.black_queenside = false;
            }
        }
    }

    /// Executes a move on the board: castling rights, squares, en passant
    /// target, piece lists, and then the hash.
    ///
    /// The move must fit the board (see [`Move::fits`]): besides on-board
    /// squares, the moving piece stands on `from`, the captured piece on
    /// `to`, the rook of a castling move on its square and the pawn taken en
    /// passant beside the target, and a promotion is a pawn's. These are what
    /// keep the piece lists and the hash describing the squares after the
    /// move; a move that does not fit, such as one from a square to itself,
    /// would leave the piece lists listing a piece the board no longer holds.
    /// Moves from [`ChessBoard::generate_moves`] and from
    /// [`ChessBoard::from_uci`] checked with [`Move::fits_board`] fit.
    pub fn make_move(&mut self, mv: &Move)
        requires
            old(self).wf(),
            mv.fits(old(self)),
        ensures
            made(*old(self), *final(self), *mv),
            mv.undoable(final(self)),
    {
        self.update_castling_rights(mv);
        let piece = mv.piece;
        if mv.en_passant {
            let capture_square = if mv.piece.is_white() {
                mv.to - self.board_width
            } else {
                mv.to + self.board_width
            };
            self.set_piece_on_square(Piece::EmptySquare, capture_square);
        }
        if let Some(castling) = &mv.castling {
            self.set_piece_on_square(Piece::EmptySquare, castling.rook_from);
            self.set_piece_on_square(castling.rook_piece, castling.rook_to);
        }
        if let Some(piece_promotion) = mv.promotion {
            self.set_piece_on_square(piece_promotion, mv.to);
        } else {
            self.set_piece_on_square(piece, mv.to);
        }
        self.set_piece_on_square(Piece::EmptySquare, mv.from);
        self.set_en_passant_target(mv.en_passant_square);
        let ghost pl0 = self.piece_list;
        self.piece_list.make_move(mv);
        proof {
            lemma_make_lists_match(*old(self), self.piece_list, *mv);
            assert(self.board_squares@ =~= squares_after_make(old(self).board_squares@, *mv));
            assert forall|s: int| 0 <= s < 120 implies (is_inner(s) <==> #[trigger] self.at(s)
                != Piece::SentinelSquare) by {
                assert(old(self).at(s) != Piece::SentinelSquare <==> is_inner(s));
            }
        }
        let ghost before_hash = *self;
        self.update_hash(mv);
        proof {
            assert forall|s: int| 0 <= s < 120 implies (is_inner(s) <==> #[trigger] self.at(s)
                != Piece::SentinelSquare) by {
                assert(self.at(s) == before_hash.at(s));
            }
        }
    }

    /// Reverts a move on the board: the hash first, then the squares,
    /// castling rights, en passant target and piece lists.
    pub fn unmake_move(&mut self, mv: &Move)
        requires
            old(self).wf(),
            mv.undoable(old(self)),
        ensures
            unmade(*old(self), *final(self), *mv),
    {
        self.update_hash(mv);
        self.set_piece_on_square(mv.captured_piece, mv.to);
        if mv.en_passant {
            let capture_square = if mv.piece.is_white() {
                mv.to - self.board_width
            } else {
                mv.to + self.board_width
            };
            let captured_pawn = if mv.piece.is_white() {
                Piece::BlackPawn
            } else {
                Piece::WhitePawn
            };
            self.set_piece_on_square(captured_pawn, capture_square);
        }
        if let Some(castling) = &mv.castling {
            self.set_piece_on_square(castling.rook_piece, castling.rook_from);
            self.set_piece_on_square(Piece::EmptySquare, castling.rook_to);
        }
        if let Some(previous_castling_rights) = mv.previous_castling_rights {
            self.castling_rights = previous_castling_rights;
        }
        self.set_piece_on_square(mv.piece, mv.from);
        self.set_en_passant_target(mv.previous_en_passant);
        self.piece_list.unmake_move(mv);
        proof {
            lemma_unmake_lists_match(*old(self), self.piece_list, *mv);
            assert(self.board_squares@ =~= squares_after_unmake(old(self).board_squares@, *mv));
            assert forall|s: int| 0 <= s < 120 implies (is_inner(s) <==> #[trigger] self.at(s)
                != Piece::SentinelSquare) by {
                assert(old(self).at(s) != Piece::SentinelSquare <==> is_inner(s));
            }
        }
    }
}


/// Castling on the kingside is allowed for `color`: the right is still
/// there, the king and rook stand on the given squares, the f- and
/// g-squares are empty, and no enemy attacks the e-, f- or g-square.
pub open spec fn castle_kingside_ok(b: ChessBoard, color: Color, king_square: int, rook_square: int) -> bool {
    let white = color == Color::White;
    let e: int = if white { 25 } else { 95 };
    let enemy = color.spec_opposite();
    &&& (if white { b.castling_rights.white_kingside } else { b.castling_rights.black_kingside })
    &&& b.at(king_square) == Piece::make(PieceType::King, color)
    &&& b.at(rook_square) == Piece::make(PieceType::Rook, color)
    &&& b.at(e + 1) == Piece::EmptySquare
    &&& b.at(e + 2) == Piece::EmptySquare
    &&& !square_attacked(b.board_squares@, b.piece_list, e, enemy)
    &&& !square_attacked(b.board_squares@, b.piece_list, e + 1, enemy)
    &&& !square_attacked(b.board_squares@, b.piece_list, e + 2, enemy)
}

/// Castling on the queenside is allowed for `color`: the right is still
/// there, the king and rook stand on the given squares, the b-, c- and
/// d-squares are empty, and no enemy attacks the e-, d- or c-square.
pub open spec fn castle_queenside_ok(b: ChessBoard, color: Color, king_square: int, rook_square: int) -> bool {
    let white = color == Color::White;
    let e: int = if white { 25 } else { 95 };
    let enemy = color.spec_opposite();
    &&& (if white { b.castling_rights.white_queenside } else { b.castling_rights.black_queenside })
    &&& b.at(king_square) == Piece::make(PieceType::King, color)
    &&& b.at(rook_square) == Piece::make(PieceType::Rook, color)
    &&& b.at(e - 3) == Piece::EmptySquare
    &&& b.at(e - 2) == Piece::EmptySquare
    &&& b.at(e - 1) == Piece::EmptySquare
    &&& !square_attacked(b.board_squares@, b.piece_list, e, enemy)
    &&& !square_attacked(b.board_squares@, b.piece_list, e - 1, enemy)
    &&& !square_attacked(b.board_squares@, b.piece_list, e - 2, enemy)
}

impl ChessBoard {
    /// Checks if kingside castling is legal for `color` with the king and
    /// rook on the given squares.
    pub fn can_castle_kingside(&self, color: Color, king_square: i16, rook_square: i16) -> (r: bool)
        requires
            self.wf(),
            0 <= king_square < 120,
            0 <= rook_square < 120,
        ensures
            r == castle_kingside_ok(*self, color, king_square as int, rook_square as int),
    {
        if (color == Color::White) && (!self.castling_rights.white_kingside) {
            return false;
        }
        if (color == Color::Black) && (!self.castling_rights.black_kingside) {
            return false;
        }
        let king = if color == Color::White {
            Piece::WhiteKing
        } else {
            Piece::BlackKing
        };
        if self.get_piece_on_square(king_square) != king {
            return false;
        }
        let rook = if color == Color::White {
            Piece::WhiteRook
        } else {
            Piece::BlackRook
        };
        if self.get_piece_on_square(rook_square) != rook {
            return false;
        }
        let squares_between: [i16; 2] = match color {
            Color::White => [26, 27],
            Color::Black => [96, 97],
        };
        let mut i: usize = 0;
        while i < 2
            invariant
                i <= 2,
                squares_between@ == (if color == Color::White { [26i16, 27] } else { [96i16, 97] })@,
                forall|j: int| 0 <= j < i ==> self.at(#[trigger] squares_between@[j] as int) == Piece::EmptySquare,
            decreases 2 - i,
        {
            if self.get_piece_on_square(squares_between[i]) != Piece::EmptySquare {
                return false;
            }
            i = i + 1;
        }
        let check_squares: [i16; 3] = match color {
            Color::White => [25, 26, 27],
            Color::Black => [95, 96, 97],
        };
        let opposite_color = if color == Color::White {
            Color::Black
        } else {
            Color::White
        };
        let mut i: usize = 0;
        while i < 3
            invariant
                self.wf(),
                opposite_color == color.spec_opposite(),
                i <= 3,
                check_squares@ == (if color == Color::White { [25i16, 26, 27] } else { [95i16, 96, 97] })@,
                forall|j: int| 0 <= j < i ==> !square_attacked(self.board_squares@, self.piece_list, #[trigger] check_squares@[j] as int, opposite_color),
            decreases 3 - i,
        {
            if self.piece_list.is_square_attacked(self, check_squares[i], opposite_color) {
                return false;
            }
            i = i + 1;
        }
        true
    }

    /// Checks if queenside castling is legal for `color` with the king and
    /// rook on the given squares.
    pub fn can_castle_queenside(&self, color: Color, king_square: i16, rook_square: i16) -> (r: bool)
        requires
            self.wf(),
            0 <= king_square < 120,
            0 <= rook_square < 120,
        ensures
            r == castle_queenside_ok(*self, color, king_square as int, rook_square as int),
    {
        if (color == Color::White) && (!self.castling_rights.white_queenside) {
            return false;
        }
        if (color == Color::Black) && (!self.castling_rights.black_queenside) {
            return false;
        }
        let king = if color == Color::White {
            Piece::WhiteKing
        } else {
            Piece::BlackKing
        };
        if self.get_piece_on_square(king_square) != king {
            return false;
        }
        let rook = if color == Color::White {
            Piece::WhiteRook
        } else {
            Piece::BlackRook
        };
        if self.get_piece_on_square(rook_square) != rook {
            return false;
        }
        let squares_between: [i16; 3] = match color {
            Color::White => [22, 23, 24],
            Color::Black => [92, 93, 94],
        };
        let mut i: usize = 0;
        while i < 3
            invariant
                i <= 3,
                squares_between@ == (if color == Color::White { [22i16, 23, 24] } else { [92i16, 93, 94] })@,
                forall|j: int| 0 <= j < i ==> self.at(#[trigger] squares_between@[j] as int) == Piece::EmptySquare,
            decreases 3 - i,
        {
            if self.get_piece_on_square(squares_between[i]) != Piece::EmptySquare {
                return false;
            }
            i = i + 1;
        }
        let check_squares: [i16; 3] = match color {
            Color::White => [25, 24, 23],
            Color::Black => [95, 94, 93],
        };
        let opposite_color = if color == Color::White {
            Color::Black
        } else {
            Color::White
        };
        let mut i: usize = 0;
        while i < 3
            invariant
                self.wf(),
                opposite_color == color.spec_opposite(),
                i <= 3,
                check_squares@ == (if color == Color::White { [25i16, 24, 23] } else { [95i16, 94, 93] })@,
                forall|j: int| 0 <= j < i ==> !square_attacked(self.board_squares@, self.piece_list, #[trigger] check_squares@[j] as int, opposite_color),
            decreases 3 - i,
        {
            if self.piece_list.is_square_attacked(self, check_squares[i], opposite_color) {
                return false;
            }
            i = i + 1;
        }
        true
    }
}

} // verus!
