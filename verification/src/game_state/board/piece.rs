//! Piece types, colors and concrete pieces.
//!
//! [`Piece`] also holds the two non-piece square markers used by the 12x10
//! mailbox board: `EmptySquare` and `SentinelSquare`.

use vstd::prelude::*;

verus! {

/// The kind of a piece, without its color.
#[derive(PartialEq, Eq, Structural, Clone, Copy, Debug)]
pub enum PieceType {
    King,
    Queen,
    Rook,
    Bishop,
    Knight,
    Pawn,
}

/// The color of a piece or of the side to move.
#[derive(PartialEq, Eq, Structural, Clone, Copy, Debug)]
pub enum Color {
    /// White side
    White,
    /// Black side
    Black,
}

impl Color {
    /// The other color.
    pub open spec fn spec_opposite(self) -> Color {
        match self {
            Color::White => Color::Black,
            Color::Black => Color::White,
        }
    }

    /// Returns the opposite color.
    pub fn opposite(&self) -> (r: Color)
        ensures
            r == self.spec_opposite(),
    {
        match self {
            Color::White => Color::Black,
            Color::Black => Color::White,
        }
    }
}

/// A square's content: one of the twelve pieces, an empty square, or an
/// off-board sentinel square.
#[derive(PartialEq, Eq, Structural, Clone, Copy, Debug)]
pub enum Piece {
    /// Empty square (no piece present)
    EmptySquare,
    WhitePawn,
    WhiteKnight,
    WhiteBishop,
    WhiteRook,
    WhiteQueen,
    WhiteKing,
    BlackPawn,
    BlackKnight,
    BlackBishop,
    BlackRook,
    BlackQueen,
    BlackKing,
    /// Sentinel square (off-board guard)
    SentinelSquare,
}

impl Piece {
    /// The numeric code of a square content: 0 for empty, 1-6 for the white
    /// pieces (pawn, knight, bishop, rook, queen, king), 7-12 for the black
    /// ones in the same order, 255 for a sentinel.
    pub open spec fn code(self) -> u8 {
        match self {
            Piece::EmptySquare => 0,
            Piece::WhitePawn => 1,
            Piece::WhiteKnight => 2,
            Piece::WhiteBishop => 3,
            Piece::WhiteRook => 4,
            Piece::WhiteQueen => 5,
            Piece::WhiteKing => 6,
            Piece::BlackPawn => 7,
            Piece::BlackKnight => 8,
            Piece::BlackBishop => 9,
            Piece::BlackRook => 10,
            Piece::BlackQueen => 11,
            Piece::BlackKing => 12,
            Piece::SentinelSquare => 255,
        }
    }

    /// The numeric code of this square content (see [`Piece::code`]).
    pub fn to_code(self) -> (r: u8)
        ensures
            r == self.code(),
    {
        match self {
            Piece::EmptySquare => 0,
            Piece::WhitePawn => 1,
            Piece::WhiteKnight => 2,
            Piece::WhiteBishop => 3,
            Piece::WhiteRook => 4,
            Piece::WhiteQueen => 5,
            Piece::WhiteKing => 6,
            Piece::BlackPawn => 7,
            Piece::BlackKnight => 8,
            Piece::BlackBishop => 9,
            Piece::BlackRook => 10,
            Piece::BlackQueen => 11,
            Piece::BlackKing => 12,
            Piece::SentinelSquare => 255,
        }
    }

    /// One of the twelve real pieces.
    pub open spec fn is_piece(self) -> bool {
        1 <= self.code() <= 12
    }

    /// The color of a real piece.
    pub open spec fn color(self) -> Color {
        if self.code() <= 6 {
            Color::White
        } else {
            Color::Black
        }
    }

    /// The type of a real piece.
    pub open spec fn kind(self) -> PieceType {
        match self {
            Piece::WhitePawn | Piece::BlackPawn => PieceType::Pawn,
            Piece::WhiteKnight | Piece::BlackKnight => PieceType::Knight,
            Piece::WhiteBishop | Piece::BlackBishop => PieceType::Bishop,
            Piece::WhiteRook | Piece::BlackRook => PieceType::Rook,
            Piece::WhiteQueen | Piece::BlackQueen => PieceType::Queen,
            _ => PieceType::King,
        }
    }

    /// The piece of the given type and color.
    pub open spec fn make(kind: PieceType, color: Color) -> Piece {
        match (kind, color) {
            (PieceType::Pawn, Color::White) => Piece::WhitePawn,
            (PieceType::Knight, Color::White) => Piece::WhiteKnight,
            (PieceType::Bishop, Color::White) => Piece::WhiteBishop,
            (PieceType::Rook, Color::White) => Piece::WhiteRook,
            (PieceType::Queen, Color::White) => Piece::WhiteQueen,
            (PieceType::King, Color::White) => Piece::WhiteKing,
            (PieceType::Pawn, Color::Black) => Piece::BlackPawn,
            (PieceType::Knight, Color::Black) => Piece::BlackKnight,
            (PieceType::Bishop, Color::Black) => Piece::BlackBishop,
            (PieceType::Rook, Color::Black) => Piece::BlackRook,
            (PieceType::Queen, Color::Black) => Piece::BlackQueen,
            (PieceType::King, Color::Black) => Piece::BlackKing,
        }
    }

    /// The character printed for this square content.
    pub open spec fn symbol(self) -> char {
        match self {
            Piece::EmptySquare => '.',
            Piece::SentinelSquare => 'X',
            Piece::WhitePawn => 'P',
            Piece::WhiteRook => 'R',
            Piece::WhiteKnight => 'N',
            Piece::WhiteBishop => 'B',
            Piece::WhiteQueen => 'Q',
            Piece::WhiteKing => 'K',
            Piece::BlackPawn => 'p',
            Piece::BlackRook => 'r',
            Piece::BlackKnight => 'n',
            Piece::BlackBishop => 'b',
            Piece::BlackQueen => 'q',
            Piece::BlackKing => 'k',
        }
    }

    /// Returns the color of the piece. The piece must be one of the twelve
    /// real pieces.
    pub fn get_color(self) -> (r: Color)
        requires
            self.is_piece(),
        ensures
            r == self.color(),
    {
        match self {
            Piece::WhitePawn | Piece::WhiteKnight | Piece::WhiteBishop | Piece::WhiteRook
            | Piece::WhiteQueen | Piece::WhiteKing => Color::White,
            _ => Color::Black,
        }
    }

    /// Returns the type of the piece (king, queen, etc.). The piece must be
    /// one of the twelve real pieces.
    pub fn get_type(self) -> (r: PieceType)
        requires
            self.is_piece(),
        ensures
            r == self.kind(),
    {
        match self {
            Piece::WhitePawn | Piece::BlackPawn => PieceType::Pawn,
            Piece::WhiteKnight | Piece::BlackKnight => PieceType::Knight,
            Piece::WhiteBishop | Piece::BlackBishop => PieceType::Bishop,
            Piece::WhiteRook | Piece::BlackRook => PieceType::Rook,
            Piece::WhiteQueen | Piece::BlackQueen => PieceType::Queen,
            _ => PieceType::King,
        }
    }

    /// Returns the single-character string used to print the piece on a
    /// board. Empty squares are `"."`, sentinel squares are `"X"`.
    pub fn print_piece(&self) -> (r: &str)
        ensures
            r@ == seq![self.symbol()],
    {
        match self {
            Piece::EmptySquare => {
                proof {
                    reveal_strlit(".");
                }
                "."
            },
            Piece::SentinelSquare => {
                proof {
                    reveal_strlit("X");
                }
                "X"
            },
            Piece::WhitePawn => {
                proof {
                    reveal_strlit("P");
                }
                "P"
            },
            Piece::WhiteRook => {
                proof {
                    reveal_strlit("R");
                }
                "R"
            },
            Piece::WhiteKnight => {
                proof {
                    reveal_strlit("N");
                }
                "N"
            },
            Piece::WhiteBishop => {
                proof {
                    reveal_strlit("B");
                }
                "B"
            },
            Piece::WhiteQueen => {
                proof {
                    reveal_strlit("Q");
                }
                "Q"
            },
            Piece::WhiteKing => {
                proof {
                    reveal_strlit("K");
                }
                "K"
            },
            Piece::BlackPawn => {
                proof {
                    reveal_strlit("p");
                }
                "p"
            },
            Piece::BlackRook => {
                proof {
                    reveal_strlit("r");
                }
                "r"
            },
            Piece::BlackKnight => {
                proof {
                    reveal_strlit("n");
                }
                "n"
            },
            Piece::BlackBishop => {
                proof {
                    reveal_strlit("b");
                }
                "b"
            },
            Piece::BlackQueen => {
                proof {
                    reveal_strlit("q");
                }
                "q"
            },
            Piece::BlackKing => {
                proof {
                    reveal_strlit("k");
                }
                "k"
            },
        }
    }

    /// Returns `true` if the square is empty.
    pub fn is_empty(self) -> (r: bool)
        ensures
            r == (self == Piece::EmptySquare),
    {
        self == Piece::EmptySquare
    }

    /// Returns `true` if the square is a sentinel square.
    pub fn is_sentinel(self) -> (r: bool)
        ensures
            r == (self == Piece::SentinelSquare),
    {
        self == Piece::SentinelSquare
    }

    /// Returns `true` if the piece is one of the 12 valid chess pieces.
    pub fn is_valid_piece(self) -> (r: bool)
        ensures
            r == self.is_piece(),
    {
        let code = self.to_code();
        code >= 1 && code <= 12
    }

    /// Returns `true` if the piece is white.
    pub fn is_white(self) -> (r: bool)
        ensures
            r == (self.is_piece() && self.color() == Color::White),
    {
        self.is_color(Color::White)
    }

    /// Returns `true` if this is a real piece of the given color.
    pub fn is_color(self, color: Color) -> (r: bool)
        ensures
            r == (self.is_piece() && self.color() == color),
    {
        if !self.is_valid_piece() {
            return false;
        }
        self.get_color() == color
    }

    /// Returns `true` if the piece belongs to the opponent of `color`.
    pub fn is_opponent(self, color: Color) -> (r: bool)
        ensures
            r == (self.is_piece() && self.color() != color),
    {
        self.is_valid_piece() && self.get_color() != color
    }

    /// Returns `true` if the piece belongs to the same side as `color`.
    pub fn is_friend(self, color: Color) -> (r: bool)
        ensures
            r == (self.is_piece() && self.color() == color),
    {
        self.is_valid_piece() && self.get_color() == color
    }
}

} // verus!
