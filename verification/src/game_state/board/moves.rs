//! Chess move representation and conversion between notations.
//!
//! This module provides the [`Move`] struct and the conversion functions
//! between moves, UCI strings, algebraic squares and the compact 16-bit
//! encoding stored in the transposition table.

use vstd::prelude::*;

use crate::game_state::board::{inner_of, is_inner, standard_of, CastlingInfo, CastlingRights, ChessBoard};
use crate::game_state::board::piece::{Color, Piece, PieceType};

verus! {

/// A chess move with all the metadata needed to make and unmake it.
#[derive(Clone, Copy, Debug, PartialEq, Eq, Structural)]
pub struct Move {
    /// Starting square of the moving piece
    pub from: i16,
    /// Destination square of the moving piece
    pub to: i16,
    /// The piece being moved
    pub piece: Piece,
    /// Piece captured by this move (EmptySquare if no capture)
    pub captured_piece: Piece,
    /// Promotion piece if this move promotes a pawn
    pub promotion: Option<Piece>,
    /// Castling information if this is a castling move
    pub castling: Option<CastlingInfo>,
    /// Whether this is an en passant capture
    pub en_passant: bool,
    /// En passant target square set by double pawn moves
    pub en_passant_square: Option<i16>,
    /// Previous en passant target for move unmaking
    pub previous_en_passant: Option<i16>,
    /// Previous castling rights for move unmaking
    pub previous_castling_rights: Option<CastlingRights>,
}

/// Calls `String::push`: appends one character to the string.
#[verifier::external_body]
fn push_char(s: &mut String, c: char)
    ensures
        final(s)@ == old(s)@.push(c),
{
    s.push(c);
}

/// The standard square (0 = a1 .. 63 = h8) named by a two-character
/// algebraic square such as `e4`.
pub open spec fn notation_value(s: Seq<char>) -> Option<int> {
    if s.len() == 2 && 'a' as int <= s[0] as int <= 'h' as int && '1' as int <= s[1] as int <= '8' as int {
        Some((s[1] as int - '1' as int) * 8 + (s[0] as int - 'a' as int))
    } else {
        None
    }
}

/// The two characters of the algebraic name of a standard square.
pub open spec fn square_name(sq: int) -> Seq<char> {
    seq![(97 + sq % 8) as char, (49 + sq / 8) as char]
}

/// The UCI suffix letter of a promotion piece.
pub open spec fn promotion_suffix(p: Option<Piece>) -> Seq<char> {
    match p {
        Some(q) => match q.kind() {
            PieceType::Queen => seq!['q'],
            PieceType::Rook => seq!['r'],
            PieceType::Bishop => seq!['b'],
            PieceType::Knight => seq!['n'],
            _ => Seq::empty(),
        },
        None => Seq::empty(),
    }
}

/// The promotion piece that a UCI promotion letter asks for, in the color of
/// the moving piece.
pub open spec fn promotion_for_letter(c: char, moving: Piece) -> Option<Piece> {
    let color = if moving.is_piece() && moving.color() == Color::White {
        Color::White
    } else {
        Color::Black
    };
    if c == 'q' {
        Some(Piece::make(PieceType::Queen, color))
    } else if c == 'r' {
        Some(Piece::make(PieceType::Rook, color))
    } else if c == 'n' {
        Some(Piece::make(PieceType::Knight, color))
    } else if c == 'b' {
        Some(Piece::make(PieceType::Bishop, color))
    } else {
        None
    }
}

/// The rook part of a king move from a king's home square to its castling
/// destination (e1-g1, e8-g8, e1-c1, e8-c8), if the move is one.
pub open spec fn castling_for(piece: Piece, from: int, to: int) -> Option<CastlingInfo> {
    let rook = if piece.is_piece() && piece.color() == Color::White {
        Piece::WhiteRook
    } else {
        Piece::BlackRook
    };
    if piece.kind() != PieceType::King {
        None
    } else if (from == 25 && to == 27) || (from == 95 && to == 97) {
        if from == 25 {
            Some(CastlingInfo { rook_from: 28, rook_to: 26, rook_piece: rook })
        } else {
            Some(CastlingInfo { rook_from: 98, rook_to: 96, rook_piece: rook })
        }
    } else if (from == 25 && to == 23) || (from == 95 && to == 93) {
        if from == 25 {
            Some(CastlingInfo { rook_from: 21, rook_to: 24, rook_piece: rook })
        } else {
            Some(CastlingInfo { rook_from: 91, rook_to: 94, rook_piece: rook })
        }
    } else {
        None
    }
}

/// Whether a pawn move onto an empty en passant target counts as an en
/// passant capture: the pawn moves diagonally onto the target, from one of
/// the two squares one rank behind it (below it for white, above it for
/// black).
pub open spec fn en_passant_for(board: ChessBoard, piece: Piece, from: int, to: int, captured: Piece) -> bool {
    piece.kind() == PieceType::Pawn && captured == Piece::EmptySquare && match board.en_passant_target {
        Some(t) => {
            let behind = if piece.is_piece() && piece.color() == Color::White {
                t - 10
            } else {
                t + 10
            };
            (from == behind - 1 || from == behind + 1) && to == t
        },
        None => false,
    }
}

/// The en passant target that a pawn's two-rank move leaves behind.
pub open spec fn double_push_target(piece: Piece, from: int, to: int) -> Option<i16> {
    if piece.kind() == PieceType::Pawn && (to / 10 - from / 10 == 2 || from / 10 - to / 10 == 2) {
        if piece.is_piece() && piece.color() == Color::White {
            Some((to - 10) as i16)
        } else {
            Some((to + 10) as i16)
        }
    } else {
        None
    }
}

/// The move that a board gives to a piece's move from `from` to `to` with
/// the given promotion: the metadata comes from the board.
pub open spec fn move_on_board(board: ChessBoard, from: int, to: int, promotion: Option<Piece>) -> Move {
    let piece = board.at(from);
    let captured = board.at(to);
    Move {
        from: from as i16,
        to: to as i16,
        piece,
        captured_piece: captured,
        promotion,
        castling: castling_for(piece, from, to),
        en_passant: en_passant_for(board, piece, from, to, captured),
        en_passant_square: double_push_target(piece, from, to),
        previous_en_passant: board.en_passant_target,
        previous_castling_rights: Some(board.castling_rights),
    }
}

/// The piece that a promotion flag set of the 16-bit move encoding asks for,
/// in the color of the moving piece (queen 1, rook 2, bishop 4, knight 8).
pub open spec fn promotion_for_flags(flags: int, moving: Piece) -> Option<Piece> {
    if flags == 1 {
        promotion_for_letter('q', moving)
    } else if flags == 2 {
        promotion_for_letter('r', moving)
    } else if flags == 4 {
        promotion_for_letter('b', moving)
    } else if flags == 8 {
        promotion_for_letter('n', moving)
    } else {
        None
    }
}

/// The promotion flag of a promotion piece in the 16-bit move encoding.
pub open spec fn promotion_flags(p: Option<Piece>) -> int {
    match p {
        Some(q) => match q.kind() {
            PieceType::Queen => 1,
            PieceType::Rook => 2,
            PieceType::Bishop => 4,
            PieceType::Knight => 8,
            _ => 0,
        },
        None => 0,
    }
}

/// The move that a UCI string names on a board: `<from><to>[<promotion>]`,
/// with the metadata from the board; `None` when the string is shorter than
/// four characters, names no squares, or the origin is empty.
pub open spec fn parsed_uci(board: ChessBoard, s: Seq<char>) -> Option<Move> {
    if s.len() < 4 {
        None
    } else {
        match (notation_value(s.subrange(0, 2)), notation_value(s.subrange(2, 4))) {
            (Some(f), Some(t)) => {
                let from = inner_of(f);
                let to = inner_of(t);
                if board.at(from) == Piece::EmptySquare {
                    None
                } else {
                    let promotion = if s.len() == 5 {
                        promotion_for_letter(s[4], board.at(from))
                    } else {
                        None
                    };
                    Some(move_on_board(board, from, to, promotion))
                }
            },
            _ => None,
        }
    }
}

/// The algebraic name of the standard square a square name reads as is
/// that name.
pub proof fn lemma_square_name_roundtrip(s: Seq<char>)
    requires
        notation_value(s) is Some,
    ensures
        square_name(standard_of(inner_of(notation_value(s).unwrap()))) == s,
{
    let f = notation_value(s).unwrap();
    let file = s[0] as int - 'a' as int;
    let rank = s[1] as int - '1' as int;
    assert(0 <= file < 8 && 0 <= rank < 8);
    assert(f == rank * 8 + file);
    assert(f / 8 == rank && f % 8 == file) by (nonlinear_arith)
        requires
            f == rank * 8 + file,
            0 <= file < 8,
            0 <= rank < 8,
    ;
    let m = 10 * rank + file + 21;
    assert(inner_of(f) == m);
    assert(m / 10 == rank + 2 && m % 10 == file + 1) by (nonlinear_arith)
        requires
            m == 10 * rank + file + 21,
            0 <= file < 8,
            0 <= rank < 8,
    ;
    assert(standard_of(m) == f);
    assert(square_name(f) =~= s);
}

/// Reading a UCI move on a board and writing it back in UCI notation gives
/// the same text, for a text of two squares and, optionally, a promotion
/// letter `q`, `r`, `b` or `n`.
pub proof fn lemma_uci_roundtrip(b: ChessBoard, s: Seq<char>)
    requires
        parsed_uci(b, s) is Some,
        s.len() == 4 || (s.len() == 5 && (s[4] == 'q' || s[4] == 'r' || s[4] == 'b' || s[4] == 'n')),
    ensures
        parsed_uci(b, s).unwrap().uci() == s,
{
    let m = parsed_uci(b, s).unwrap();
    lemma_square_name_roundtrip(s.subrange(0, 2));
    lemma_square_name_roundtrip(s.subrange(2, 4));
    if s.len() == 5 {
        assert(promotion_suffix(m.promotion) =~= s.subrange(4, 5));
        assert(s =~= s.subrange(0, 2) + s.subrange(2, 4) + s.subrange(4, 5));
    } else {
        assert(promotion_suffix(m.promotion) =~= Seq::<char>::empty());
        assert(s =~= s.subrange(0, 2) + s.subrange(2, 4));
    }
}

/// The 16-bit encoding of a move: origin and destination as standard
/// squares (6 bits each) and the promotion flag above them.
pub open spec fn encoded(m: Move) -> int {
    standard_of(m.from as int) + 64 * standard_of(m.to as int) + 4096 * promotion_flags(m.promotion)
}

/// The move that a 16-bit encoding names on a board, `None` when its origin
/// is empty.
pub open spec fn decoded(data: int, board: ChessBoard) -> Option<Move> {
    let from = inner_of(data % 64);
    let to = inner_of((data / 64) % 64);
    if board.at(from) == Piece::EmptySquare {
        None
    } else {
        Some(move_on_board(board, from, to, promotion_for_flags(data / 4096, board.at(from))))
    }
}

impl Move {
    /// The square of the pawn that an en passant capture removes: one rank
    /// behind the destination from the mover's side.
    pub open spec fn en_passant_capture_square(&self) -> int {
        if self.piece.is_piece() && self.piece.color() == Color::White {
            self.to - 10
        } else {
            self.to + 10
        }
    }

    /// The pawn that an en passant capture removes.
    pub open spec fn en_passant_pawn(&self) -> Piece {
        if self.piece.is_piece() && self.piece.color() == Color::White {
            Piece::BlackPawn
        } else {
            Piece::WhitePawn
        }
    }

    /// The piece that stands on the destination after the move.
    pub open spec fn final_piece(&self) -> Piece {
        match self.promotion {
            Some(p) => p,
            None => self.piece,
        }
    }

    /// The move is consistent with the board it is made on: the moving
    /// piece stands on the origin, the captured piece on the destination,
    /// a promotion turns a pawn into a queen, rook, bishop or knight of its
    /// color, an en passant capture removes an enemy pawn, a castling rook
    /// stands on its square and moves to an empty one, every square is on
    /// the board, and the move records the board's en passant target and
    /// castling rights.
    pub open spec fn fits(&self, b: &ChessBoard) -> bool {
        &&& is_inner(self.from as int)
        &&& is_inner(self.to as int)
        &&& self.from != self.to
        &&& self.piece.is_piece()
        &&& b.at(self.from as int) == self.piece
        &&& b.at(self.to as int) == self.captured_piece
        &&& (self.promotion matches Some(p) ==> {
            &&& p.is_piece()
            &&& self.piece.kind() == PieceType::Pawn
            &&& p.color() == self.piece.color()
            &&& p.kind() != PieceType::King
            &&& p.kind() != PieceType::Pawn
        })
        &&& (self.en_passant ==> {
            &&& self.piece.kind() == PieceType::Pawn
            &&& self.captured_piece == Piece::EmptySquare
            &&& is_inner(self.en_passant_capture_square())
            &&& self.en_passant_capture_square() != self.from as int
            &&& b.at(self.en_passant_capture_square()) == self.en_passant_pawn()
            &&& self.castling is None
        })
        &&& (self.castling matches Some(c) ==> {
            &&& is_inner(c.rook_from as int)
            &&& is_inner(c.rook_to as int)
            &&& c.rook_from != self.from && c.rook_from != self.to
            &&& c.rook_to != self.from && c.rook_to != self.to
            &&& c.rook_from != c.rook_to
            &&& c.rook_piece.is_piece()
            &&& b.at(c.rook_from as int) == c.rook_piece
            &&& b.at(c.rook_to as int) == Piece::EmptySquare
            &&& self.promotion is None
        })
        &&& (self.en_passant_square matches Some(e) ==> is_inner(e as int))
        &&& self.previous_en_passant == b.en_passant_target
        &&& self.previous_castling_rights == Some(b.castling_rights)
    }

    /// The move can be taken back on the board: the final piece stands on
    /// the destination, the origin is empty, an en passant square and a
    /// castling rook's origin are empty, the castling rook stands on its
    /// destination, and every square is on the board.
    pub open spec fn undoable(&self, b: &ChessBoard) -> bool {
        &&& is_inner(self.from as int)
        &&& is_inner(self.to as int)
        &&& self.from != self.to
        &&& self.piece.is_piece()
        &&& self.captured_piece != Piece::SentinelSquare
        &&& b.at(self.to as int) == self.final_piece()
        &&& b.at(self.from as int) == Piece::EmptySquare
        &&& (self.promotion matches Some(p) ==> p.is_piece())
        &&& (self.en_passant ==> {
            &&& self.captured_piece == Piece::EmptySquare
            &&& is_inner(self.en_passant_capture_square())
            &&& self.en_passant_capture_square() != self.from as int
            &&& b.at(self.en_passant_capture_square()) == Piece::EmptySquare
            &&& self.castling is None
        })
        &&& (self.castling matches Some(c) ==> {
            &&& is_inner(c.rook_from as int)
            &&& is_inner(c.rook_to as int)
            &&& c.rook_from != self.from && c.rook_from != self.to
            &&& c.rook_to != self.from && c.rook_to != self.to
            &&& c.rook_from != c.rook_to
            &&& c.rook_piece.is_piece()
            &&& b.at(c.rook_to as int) == c.rook_piece
            &&& b.at(c.rook_from as int) == Piece::EmptySquare
            &&& self.promotion is None
        })
        &&& (self.en_passant_square matches Some(e) ==> is_inner(e as int))
        &&& (self.previous_en_passant matches Some(e) ==> is_inner(e as int))
    }

    /// The move captures a piece: one on its destination, or a pawn taken
    /// en passant.
    pub open spec fn removes_piece(&self) -> bool {
        self.captured_piece.is_piece() || self.en_passant
    }

    /// The UCI string of the move: origin, destination, promotion letter.
    pub open spec fn uci(&self) -> Seq<char> {
        square_name(standard_of(self.from as int)) + square_name(standard_of(self.to as int))
            + promotion_suffix(self.promotion)
    }

    /// Creates a pawn move with pawn-specific metadata.
    pub fn create_pawn_move(
        chess_board: &ChessBoard,
        from: i16,
        to: i16,
        piece: Piece,
        captured: Piece,
        promotion: Option<Piece>,
        en_passant: bool,
        en_passant_square: Option<i16>,
    ) -> (r: Self)
        ensures
            r == (Move {
                from,
                to,
                piece,
                captured_piece: captured,
                promotion,
                castling: None,
                en_passant,
                en_passant_square,
                previous_en_passant: chess_board.en_passant_target,
                previous_castling_rights: Some(chess_board.castling_rights),
            }),
    {
        Self {
            from,
            to,
            piece,
            captured_piece: captured,
            promotion,
            castling: None,
            en_passant,
            en_passant_square,
            previous_en_passant: chess_board.get_en_passant_target(),
            previous_castling_rights: Some(chess_board.castling_rights),
        }
    }

    /// Creates a standard move for non-pawn pieces.
    pub fn create_move(chess_board: &ChessBoard, from: i16, to: i16, piece: Piece, captured: Piece) -> (r: Self)
        ensures
            r == (Move {
                from,
                to,
                piece,
                captured_piece: captured,
                promotion: None,
                castling: None,
                en_passant: false,
                en_passant_square: None,
                previous_en_passant: chess_board.en_passant_target,
                previous_castling_rights: Some(chess_board.castling_rights),
            }),
    {
        Self {
            from,
            to,
            piece,
            captured_piece: captured,
            promotion: None,
            castling: None,
            en_passant: false,
            en_passant_square: None,
            previous_en_passant: chess_board.get_en_passant_target(),
            previous_castling_rights: Some(chess_board.castling_rights),
        }
    }

    /// Creates a castling move with king and rook movement information. The
    /// rook is white when the king starts from e1, black otherwise.
    pub fn create_castling_move(
        chess_board: &ChessBoard,
        king_from: i16,
        king_to: i16,
        king_piece: Piece,
        rook_from: i16,
        rook_to: i16,
    ) -> (r: Self)
        requires
            chess_board.board_width == 10,
            chess_board.board_height == 12,
        ensures
            r == (Move {
                from: king_from,
                to: king_to,
                piece: king_piece,
                captured_piece: Piece::EmptySquare,
                promotion: None,
                castling: Some(
                    CastlingInfo {
                        rook_from,
                        rook_to,
                        rook_piece: if king_from == 25 {
                            Piece::WhiteRook
                        } else {
                            Piece::BlackRook
                        },
                    },
                ),
                en_passant: false,
                en_passant_square: None,
                previous_en_passant: chess_board.en_passant_target,
                previous_castling_rights: Some(chess_board.castling_rights),
            }),
    {
        proof {
            reveal_strlit("e1");
        }
        let color = if king_from == chess_board.algebraic_to_internal("e1") {
            Color::White
        } else {
            Color::Black
        };
        Self {
            from: king_from,
            to: king_to,
            piece: king_piece,
            captured_piece: Piece::EmptySquare,
            promotion: None,
            castling: Some(
                CastlingInfo {
                    rook_from,
                    rook_to,
                    rook_piece: if color == Color::White {
                        Piece::WhiteRook
                    } else {
                        Piece::BlackRook
                    },
                },
            ),
            en_passant: false,
            en_passant_square: None,
            previous_en_passant: chess_board.get_en_passant_target(),
            previous_castling_rights: Some(chess_board.castling_rights),
        }
    }

    /// Detects a castling move from the king's squares: e1-g1 / e8-g8 moves
    /// the h-rook to the f-file, e1-c1 / e8-c8 moves the a-rook to the
    /// d-file.
    pub fn detect_castling(chess_board: &ChessBoard, piece: Piece, from: i16, to: i16) -> (r: Option<CastlingInfo>)
        requires
            chess_board.board_width == 10,
            chess_board.board_height == 12,
            piece.is_piece(),
        ensures
            r == castling_for(piece, from as int, to as int),
    {
        proof {
            reveal_strlit("e1");
            reveal_strlit("g1");
            reveal_strlit("e8");
            reveal_strlit("g8");
            reveal_strlit("h1");
            reveal_strlit("f1");
            reveal_strlit("h8");
            reveal_strlit("f8");
            reveal_strlit("c1");
            reveal_strlit("c8");
            reveal_strlit("a1");
            reveal_strlit("d1");
            reveal_strlit("a8");
            reveal_strlit("d8");
        }
        if piece.get_type() == PieceType::King {
            let white_king_from = chess_board.algebraic_to_internal("e1");
            let white_king_to = chess_board.algebraic_to_internal("g1");
            let black_king_from = chess_board.algebraic_to_internal("e8");
            let black_king_to = chess_board.algebraic_to_internal("g8");
            if (from == white_king_from && to == white_king_to) || (from == black_king_from && to
                == black_king_to) {
                let (rook_from, rook_to) = if from == white_king_from {
                    (chess_board.algebraic_to_internal("h1"), chess_board.algebraic_to_internal("f1"))
                } else {
                    (chess_board.algebraic_to_internal("h8"), chess_board.algebraic_to_internal("f8"))
                };
                let rook_piece = if piece.is_white() {
                    Piece::WhiteRook
                } else {
                    Piece::BlackRook
                };
                return Some(CastlingInfo { rook_from, rook_to, rook_piece });
            }
            let white_king_to = chess_board.algebraic_to_internal("c1");
            let black_king_to = chess_board.algebraic_to_internal("c8");
            if (from == white_king_from && to == white_king_to) || (from == black_king_from && to
                == black_king_to) {
                let (rook_from, rook_to) = if from == white_king_from {
                    (chess_board.algebraic_to_internal("a1"), chess_board.algebraic_to_internal("d1"))
                } else {
                    (chess_board.algebraic_to_internal("a8"), chess_board.algebraic_to_internal("d8"))
                };
                let rook_piece = if piece.is_white() {
                    Piece::WhiteRook
                } else {
                    Piece::BlackRook
                };
                return Some(CastlingInfo { rook_from, rook_to, rook_piece });
            }
        }
        None
    }

    /// Detects an en passant capture: a pawn moving to the empty en passant
    /// target from the square one rank behind it.
    pub fn detect_en_passant(chess_board: &ChessBoard, piece: Piece, from: i16, to: i16, captured: Piece) -> (r: bool)
        requires
            chess_board.wf(),
            piece.is_piece(),
        ensures
            r == en_passant_for(*chess_board, piece, from as int, to as int, captured),
    {
        if piece.get_type() == PieceType::Pawn && captured == Piece::EmptySquare {
            if let Some(ep_target) = chess_board.get_en_passant_target() {
                let behind = if piece.is_white() {
                    ep_target - chess_board.board_width
                } else {
                    ep_target + chess_board.board_width
                };
                return (from == behind - 1 || from == behind + 1) && to == ep_target;
            }
        }
        false
    }

    /// Converts an on-board square to its algebraic name (e.g. "e4").
    pub fn square_to_notation(chess_board: &ChessBoard, square: i16) -> (r: String)
        requires
            chess_board.board_width == 10,
            is_inner(square as int),
        ensures
            r@ == square_name(standard_of(square as int)),
    {
        let chess_square = chess_board.map_to_standard_chess_board(square);
        let file = (chess_square % 8) as u8;
        let rank = (chess_square / 8) as u8;
        let file_char = (97u8 + file) as char;
        let rank_char = (49u8 + rank) as char;
        let mut s = String::new();
        push_char(&mut s, file_char);
        push_char(&mut s, rank_char);
        s
    }

    /// Converts a two-character algebraic square (e.g. "e4") to a standard
    /// square index (0 = a1 .. 63 = h8).
    pub fn notation_to_square(square_notation: &str) -> (r: Option<i16>)
        ensures
            r matches Some(v) ==> notation_value(square_notation@) == Some(v as int),
            r is None ==> notation_value(square_notation@) is None,
    {
        if square_notation.unicode_len() != 2 {
            return None;
        }
        let file = square_notation.get_char(0);
        let rank = square_notation.get_char(1);
        let f = file as u32;
        let k = rank as u32;
        if f < 97 || f > 104 || k < 49 || k > 56 {
            return None;
        }
        let file_idx = (f - 97) as i16;
        let rank_idx = (k - 49) as i16;
        Some(rank_idx * 8 + file_idx)
    }

    /// Converts the move to UCI notation: origin, destination and the
    /// promotion letter, if any.
    pub fn to_uci(&self, chess_board: &ChessBoard) -> (r: String)
        requires
            chess_board.board_width == 10,
            is_inner(self.from as int),
            is_inner(self.to as int),
            self.promotion matches Some(p) ==> p.is_piece(),
        ensures
            r@ == self.uci(),
    {
        let from_square = Self::square_to_notation(chess_board, self.from);
        let to_square = Self::square_to_notation(chess_board, self.to);
        let mut s = from_square;
        push_char(&mut s, to_square.as_str().get_char(0));
        push_char(&mut s, to_square.as_str().get_char(1));
        if let Some(promo_piece) = self.promotion {
            match promo_piece.get_type() {
                PieceType::Queen => push_char(&mut s, 'q'),
                PieceType::Rook => push_char(&mut s, 'r'),
                PieceType::Bishop => push_char(&mut s, 'b'),
                PieceType::Knight => push_char(&mut s, 'n'),
                _ => {},
            }
        }
        assert(s@ =~= self.uci());
        s
    }

    /// The move of the piece on `from` to `to` on this board, with the given
    /// promotion, or `None` when `from` is empty.
    fn on_board(chess_board: &ChessBoard, from: i16, to: i16, promotion: Option<Piece>) -> (r: Option<Self>)
        requires
            chess_board.wf(),
            is_inner(from as int),
            is_inner(to as int),
        ensures
            r == (if chess_board.at(from as int) == Piece::EmptySquare {
                None
            } else {
                Some(move_on_board(*chess_board, from as int, to as int, promotion))
            }),
    {
        let moving_piece = chess_board.get_piece_on_square(from);
        if moving_piece == Piece::EmptySquare {
            return None;
        }
        let captured_piece = chess_board.get_piece_on_square(to);
        let castling = Self::detect_castling(chess_board, moving_piece, from, to);
        let en_passant = Self::detect_en_passant(chess_board, moving_piece, from, to, captured_piece);
        let en_passant_square = if moving_piece.get_type() == PieceType::Pawn {
            let rank_from = chess_board.square_rank(from);
            let rank_to = chess_board.square_rank(to);
            let rank_diff = if rank_to >= rank_from {
                rank_to - rank_from
            } else {
                rank_from - rank_to
            };
            if rank_diff == 2 {
                if moving_piece.is_white() {
                    Some(to - chess_board.board_width)
                } else {
                    Some(to + chess_board.board_width)
                }
            } else {
                None
            }
        } else {
            None
        };
        Some(
            Self {
                from,
                to,
                piece: moving_piece,
                captured_piece,
                promotion,
                castling,
                en_passant,
                en_passant_square,
                previous_en_passant: chess_board.get_en_passant_target(),
                previous_castling_rights: Some(chess_board.castling_rights),
            },
        )
    }

    /// The promotion piece that a UCI promotion letter asks for, in the
    /// color of the moving piece.
    fn promotion_letter(c: char, moving_piece: Piece) -> (r: Option<Piece>)
        ensures
            r == promotion_for_letter(c, moving_piece),
    {
        let white = moving_piece.is_white();
        if c == 'q' {
            Some(
                if white {
                    Piece::WhiteQueen
                } else {
                    Piece::BlackQueen
                },
            )
        } else if c == 'r' {
            Some(
                if white {
                    Piece::WhiteRook
                } else {
                    Piece::BlackRook
                },
            )
        } else if c == 'n' {
            Some(
                if white {
                    Piece::WhiteKnight
                } else {
                    Piece::BlackKnight
                },
            )
        } else if c == 'b' {
            Some(
                if white {
                    Piece::WhiteBishop
                } else {
                    Piece::BlackBishop
                },
            )
        } else {
            None
        }
    }

    /// Parses a UCI move string `<from><to>[<promotion>]` (e.g. "e2e4",
    /// "a7a8q") into a move on this board.
    pub fn parse_algebraic_move(chess_board: &ChessBoard, uci_notation: &str) -> (r: Option<Self>)
        requires
            chess_board.wf(),
        ensures
            r == parsed_uci(*chess_board, uci_notation@),
    {
        let len = uci_notation.unicode_len();
        if len < 4 {
            return None;
        }
        let from_square = match Self::notation_to_square(uci_notation.substring_char(0, 2)) {
            Some(sq) => sq,
            None => {
                return None;
            },
        };
        let to_square = match Self::notation_to_square(uci_notation.substring_char(2, 4)) {
            Some(sq) => sq,
            None => {
                return None;
            },
        };
        let from = chess_board.map_inner_to_outer_board(from_square);
        let to = chess_board.map_inner_to_outer_board(to_square);
        let moving_piece = chess_board.get_piece_on_square(from);
        if moving_piece == Piece::EmptySquare {
            return None;
        }
        let promotion = if len == 5 {
            Self::promotion_letter(uci_notation.get_char(4), moving_piece)
        } else {
            None
        };
        Self::on_board(chess_board, from, to, promotion)
    }

    /// Encodes the move in 16 bits: origin (bits 0-5) and destination
    /// (bits 6-11) as standard squares, promotion flag in bits 12-15
    /// (queen 1, rook 2, bishop 4, knight 8).
    pub fn encode(&self, chess_board: &ChessBoard) -> (r: u16)
        requires
            chess_board.board_width == 10,
            is_inner(self.from as int),
            is_inner(self.to as int),
        ensures
            r == encoded(*self),
    {
        let from = chess_board.map_to_standard_chess_board(self.from) as u16;
        let to = chess_board.map_to_standard_chess_board(self.to) as u16;
        let flags: u16 = match self.promotion {
            Some(Piece::WhiteQueen) | Some(Piece::BlackQueen) => 1,
            Some(Piece::WhiteRook) | Some(Piece::BlackRook) => 2,
            Some(Piece::WhiteBishop) | Some(Piece::BlackBishop) => 4,
            Some(Piece::WhiteKnight) | Some(Piece::BlackKnight) => 8,
            _ => 0,
        };
        from + 64 * to + 4096 * flags
    }

    /// Decodes a 16-bit move encoding into the move it names on this board
    /// (`None` when the origin square is empty).
    pub fn decode(data: u16, chess_board: &ChessBoard) -> (r: Option<Self>)
        requires
            chess_board.wf(),
        ensures
            r == decoded(data as int, *chess_board),
    {
        let from_std = (data % 64) as i16;
        let to_std = ((data / 64) % 64) as i16;
        let flags = data / 4096;
        let from = chess_board.map_inner_to_outer_board(from_std);
        let to = chess_board.map_inner_to_outer_board(to_std);
        let moving_piece = chess_board.get_piece_on_square(from);
        let promotion = if flags == 1 {
            Self::promotion_letter('q', moving_piece)
        } else if flags == 2 {
            Self::promotion_letter('r', moving_piece)
        } else if flags == 4 {
            Self::promotion_letter('b', moving_piece)
        } else if flags == 8 {
            Self::promotion_letter('n', moving_piece)
        } else {
            None
        };
        Self::on_board(chess_board, from, to, promotion)
    }

    /// Checks if this move captures a piece: one on its destination, or a
    /// pawn taken en passant.
    pub fn is_capture(&self) -> (r: bool)
        ensures
            r == self.removes_piece(),
    {
        self.captured_piece.is_valid_piece() || self.en_passant
    }
}

/// Checks if a mailbox square is on the board.
pub fn inner_square(s: i16) -> (r: bool)
    ensures
        r == is_inner(s as int),
{
    21 <= s && s <= 98 && 1 <= s % 10 && s % 10 <= 8
}

impl Move {
    /// Checks if the move fits the board (see [`Move::fits`]).
    pub fn fits_board(&self, b: &ChessBoard) -> (r: bool)
        requires
            b.wf(),
        ensures
            r == self.fits(b),
    {
        if !inner_square(self.from) || !inner_square(self.to) || self.from == self.to {
            return false;
        }
        if !self.piece.is_valid_piece() || b.get_piece_on_square(self.from) != self.piece
            || b.get_piece_on_square(self.to) != self.captured_piece {
            return false;
        }
        if let Some(p) = self.promotion {
            if !p.is_valid_piece() || self.piece.get_type() != PieceType::Pawn || p.get_color() != self.piece.get_color()
                || p.get_type() == PieceType::King || p.get_type() == PieceType::Pawn {
                return false;
            }
        }
        if self.en_passant {
            if self.piece.get_type() != PieceType::Pawn || self.captured_piece != Piece::EmptySquare
                || self.castling.is_some() {
                return false;
            }
            let (capture_square, pawn) = if self.piece.is_white() {
                (self.to - 10, Piece::BlackPawn)
            } else {
                (self.to + 10, Piece::WhitePawn)
            };
            if !inner_square(capture_square) || capture_square == self.from || b.get_piece_on_square(
                capture_square,
            ) != pawn {
                return false;
            }
        }
        if let Some(c) = self.castling {
            if !inner_square(c.rook_from) || !inner_square(c.rook_to) || c.rook_from == self.from
                || c.rook_from == self.to || c.rook_to == self.from || c.rook_to == self.to || c.rook_from
                == c.rook_to || !c.rook_piece.is_valid_piece() || b.get_piece_on_square(c.rook_from)
                != c.rook_piece || b.get_piece_on_square(c.rook_to) != Piece::EmptySquare
                || self.promotion.is_some() {
                return false;
            }
        }
        if let Some(e) = self.en_passant_square {
            if !inner_square(e) {
                return false;
            }
        }
        self.previous_en_passant == b.en_passant_target && self.previous_castling_rights == Some(
            b.castling_rights,
        )
    }

    /// Checks if the move can be taken back on the board (see
    /// [`Move::undoable`]).
    pub fn undoable_on(&self, b: &ChessBoard) -> (r: bool)
        requires
            b.wf(),
        ensures
            r == self.undoable(b),
    {
        if !inner_square(self.from) || !inner_square(self.to) || self.from == self.to {
            return false;
        }
        if !self.piece.is_valid_piece() || self.captured_piece == Piece::SentinelSquare {
            return false;
        }
        let final_piece = match self.promotion {
            Some(p) => p,
            None => self.piece,
        };
        if b.get_piece_on_square(self.to) != final_piece || b.get_piece_on_square(self.from) != Piece::EmptySquare {
            return false;
        }
        if let Some(p) = self.promotion {
            if !p.is_valid_piece() {
                return false;
            }
        }
        if self.en_passant {
            if self.captured_piece != Piece::EmptySquare || self.castling.is_some() {
                return false;
            }
            let capture_square = if self.piece.is_white() {
                self.to - 10
            } else {
                self.to + 10
            };
            if !inner_square(capture_square) || capture_square == self.from || b.get_piece_on_square(
                capture_square,
            ) != Piece::EmptySquare {
                return false;
            }
        }
        if let Some(c) = self.castling {
            if !inner_square(c.rook_from) || !inner_square(c.rook_to) || c.rook_from == self.from
                || c.rook_from == self.to || c.rook_to == self.from || c.rook_to == self.to || c.rook_from
                == c.rook_to || !c.rook_piece.is_valid_piece() || b.get_piece_on_square(c.rook_to)
                != c.rook_piece || b.get_piece_on_square(c.rook_from) != Piece::EmptySquare
                || self.promotion.is_some() {
                return false;
            }
        }
        if let Some(e) = self.en_passant_square {
            if !inner_square(e) {
                return false;
            }
        }
        if let Some(e) = self.previous_en_passant {
            if !inner_square(e) {
                return false;
            }
        }
        true
    }
}

impl ChessBoard {
    /// Converts an algebraic square (e.g. "e4") to its mailbox square, or -1
    /// if the string names no square.
    pub fn algebraic_to_internal(&self, algebraic_notation: &str) -> (r: i16)
        requires
            self.board_width == 10,
            self.board_height == 12,
        ensures
            match notation_value(algebraic_notation@) {
                Some(v) => r == inner_of(v),
                None => r == -1,
            },
    {
        if let Some(square) = Move::notation_to_square(algebraic_notation) {
            return self.map_inner_to_outer_board(square);
        }
        -1
    }
}

/// Decoding the encoding of a move on a board whose origin holds the
/// moving piece gives back its origin, destination and promotion, provided
/// a promotion is a queen, rook, bishop or knight of the mover's color.
pub proof fn lemma_encode_decode(m: Move, board: ChessBoard)
    requires
        is_inner(m.from as int),
        is_inner(m.to as int),
        m.piece.is_piece(),
        board.at(m.from as int) == m.piece,
        m.promotion matches Some(p) ==> p.is_piece() && p.color() == m.piece.color() && p.kind()
            != PieceType::King && p.kind() != PieceType::Pawn,
    ensures
        decoded(encoded(m), board) matches Some(d) && d.from == m.from && d.to == m.to
            && d.promotion == m.promotion,
{
    let f = standard_of(m.from as int);
    let t = standard_of(m.to as int);
    let g = promotion_flags(m.promotion);
    assert(0 <= f < 64 && 0 <= t < 64 && 0 <= g < 16);
    let e = f + 64 * t + 4096 * g;
    assert(e % 64 == f && (e / 64) % 64 == t && e / 4096 == g) by (nonlinear_arith)
        requires
            e == f + 64 * t + 4096 * g,
            0 <= f < 64,
            0 <= t < 64,
            0 <= g < 16,
    ;
    assert(inner_of(f) == m.from as int);
    assert(inner_of(t) == m.to as int);
}

} // verus!
