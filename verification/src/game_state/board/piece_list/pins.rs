//! Pin detection: friendly pieces that stand alone between their king and
//! an enemy slider that moves along that line.

use std::collections::HashMap;
use vstd::prelude::*;

use crate::game_state::board::{is_inner, ChessBoard};
use crate::game_state::board::piece::{Color, Piece, PieceType};
use crate::game_state::board::piece_list::attacks::{king_square, ray_square};
use crate::game_state::board::piece_list::{sorted_inner, PieceList};

verus! {

broadcast use vstd::std_specs::hash::group_hash_axioms;

/// The eight directions from the king, in the order pins are looked for.
pub open spec fn pin_directions() -> Seq<int> {
    seq![-1, 1, -10, 10, -11, -9, 9, 11]
}

/// A slider that moves along direction `d`: a queen in any direction, a
/// rook along ranks and files, a bishop along diagonals.
pub open spec fn can_pin(piece: Piece, d: int) -> bool {
    match piece.kind() {
        PieceType::Queen => true,
        PieceType::Rook => d == 1 || d == -1 || d == 10 || d == -10,
        PieceType::Bishop => d == 9 || d == -9 || d == 11 || d == -11,
        _ => false,
    }
}

/// Along direction `d` from the king, the first occupied square (`k1`
/// steps away) holds a piece of `color` and the next occupied one (`k2`
/// steps away) an enemy slider that moves along `d`.
pub open spec fn pin_at(sq: Seq<Piece>, king: int, d: int, color: Color, k1: int, k2: int) -> bool {
    &&& 1 <= k1 < k2
    &&& forall|j: int|
        1 <= j < k2 && j != k1 ==> #[trigger] sq[ray_square(king, d, j)] == Piece::EmptySquare
    &&& sq[ray_square(king, d, k1)].is_piece()
    &&& sq[ray_square(king, d, k1)].color() == color
    &&& sq[ray_square(king, d, k2)].is_piece()
    &&& sq[ray_square(king, d, k2)].color() != color
    &&& can_pin(sq[ray_square(king, d, k2)], d)
}

/// The piece pinned along direction `d` from the king, with that direction.
pub open spec fn pinned_along(sq: Seq<Piece>, king: int, d: int, color: Color) -> Option<(i16, i16)> {
    if exists|k1: int, k2: int| pin_at(sq, king, d, color, k1, k2) {
        let (k1, k2) = choose|k1: int, k2: int| pin_at(sq, king, d, color, k1, k2);
        Some((ray_square(king, d, k1) as i16, d as i16))
    } else {
        None
    }
}

/// The pins found along the first `n` of [`pin_directions`]: pinned
/// square to direction.
pub open spec fn pins_upto(sq: Seq<Piece>, king: int, color: Color, n: int) -> Map<i16, i16>
    decreases n,
{
    if n <= 0 {
        Map::empty()
    } else {
        let m = pins_upto(sq, king, color, n - 1);
        match pinned_along(sq, king, pin_directions()[n - 1], color) {
            Some((s, d)) => m.insert(s, d),
            None => m,
        }
    }
}

/// The pinned pieces of `color`: pinned square to pin direction (none
/// without a king).
pub open spec fn pins(sq: Seq<Piece>, pl: PieceList, color: Color) -> Map<i16, i16> {
    match king_square(pl, color) {
        Some(k) => pins_upto(sq, k as int, color, 8),
        None => Map::empty(),
    }
}

/// A pin along a direction is found at one pair of distances only.
pub proof fn lemma_pin_unique(sq: Seq<Piece>, king: int, d: int, color: Color, k1: int, k2: int)
    requires
        pin_at(sq, king, d, color, k1, k2),
    ensures
        pinned_along(sq, king, d, color) == Some((ray_square(king, d, k1) as i16, d as i16)),
{
    let (j1, j2) = choose|j1: int, j2: int| pin_at(sq, king, d, color, j1, j2);
    if j1 < k1 {
        assert(sq[ray_square(king, d, j1)] == Piece::EmptySquare);
    } else if k1 < j1 {
        assert(sq[ray_square(king, d, k1)] == Piece::EmptySquare);
    }
}

impl PieceList {
    /// Checks if a piece is a slider that moves along `direction`.
    pub fn can_piece_pin_in_direction(&self, chess_board: &ChessBoard, piece: Piece, direction: i16) -> (r: bool)
        requires
            chess_board.board_width == 10,
            piece.is_piece(),
            direction > i16::MIN,
        ensures
            r == can_pin(piece, direction as int),
    {
        let abs = if direction < 0 {
            -direction
        } else {
            direction
        };
        match piece.get_type() {
            PieceType::Queen => true,
            PieceType::Rook => abs == 1 || abs == chess_board.board_width,
            PieceType::Bishop => abs == chess_board.board_width - 1 || abs == chess_board.board_width + 1,
            _ => false,
        }
    }

    /// Walks from the king in one direction and returns the pinned square
    /// with the direction, if the first piece met is ours and the next an
    /// enemy slider along that direction.
    pub fn find_pinned_piece_in_direction(
        &self,
        chess_board: &ChessBoard,
        king_square: i16,
        direction: i16,
        color: Color,
    ) -> (r: Option<(i16, i16)>)
        requires
            chess_board.wf(),
            is_inner(king_square as int),
            pin_directions().contains(direction as int),
        ensures
            r == pinned_along(chess_board.board_squares@, king_square as int, direction as int, color),
    {
        let ghost king = king_square as int;
        let ghost d = direction as int;
        let mut current = king_square + direction;
        let mut pinned_piece: Option<i16> = None;
        let ghost mut k: int = 1;
        let ghost mut k1: int = 0;
        assert(current == ray_square(king, d, 1));
        assert(chess_board.frame_ok());
        let mut piece = chess_board.get_piece_on_square(current);
        while !piece.is_sentinel()
            invariant
                chess_board.wf(),
                is_inner(king),
                pin_directions().contains(d),
                d == direction,
                king == king_square,
                k >= 1,
                current == ray_square(king, d, k),
                0 <= current < 120,
                piece == chess_board.board_squares@[current as int],
                pinned_piece is None ==> forall|j: int|
                    1 <= j < k ==> #[trigger] chess_board.board_squares@[ray_square(king, d, j)] == Piece::EmptySquare,
                pinned_piece matches Some(p) ==> {
                    &&& 1 <= k1 < k
                    &&& p == ray_square(king, d, k1)
                    &&& chess_board.board_squares@[ray_square(king, d, k1)].is_piece()
                    &&& chess_board.board_squares@[ray_square(king, d, k1)].color() == color
                    &&& forall|j: int|
                        1 <= j < k && j != k1 ==> #[trigger] chess_board.board_squares@[ray_square(king, d, j)]
                            == Piece::EmptySquare
                },
            decreases if d > 0 {
                120 - current
            } else {
                current as int
            },
        {
            assert(chess_board.frame_ok());
            assert(chess_board.at(current as int) != Piece::SentinelSquare);
            assert(is_inner(current as int));
            if !piece.is_empty() {
                if piece.get_color() == color {
                    if pinned_piece.is_none() {
                        pinned_piece = Some(current);
                        proof {
                            k1 = k;
                        }
                    } else {
                        proof {
                            assert forall|a: int, c: int| !pin_at(chess_board.board_squares@, king, d, color, a, c) by {
                                if pin_at(chess_board.board_squares@, king, d, color, a, c) {
                                    if a < k1 {
                                        assert(chess_board.board_squares@[ray_square(king, d, a)] == Piece::EmptySquare);
                                    } else if k1 < a {
                                        assert(chess_board.board_squares@[ray_square(king, d, k1)] == Piece::EmptySquare);
                                    } else if c < k {
                                        assert(chess_board.board_squares@[ray_square(king, d, c)] == Piece::EmptySquare);
                                    } else if k < c {
                                        assert(chess_board.board_squares@[ray_square(king, d, k)] == Piece::EmptySquare);
                                    }
                                }
                            }
                        }
                        return None;
                    }
                } else {
                    if self.can_piece_pin_in_direction(chess_board, piece, direction) {
                        match pinned_piece {
                            Some(pin_sq) => {
                                proof {
                                    assert(pin_at(chess_board.board_squares@, king, d, color, k1, k));
                                    lemma_pin_unique(chess_board.board_squares@, king, d, color, k1, k);
                                }
                                return Some((pin_sq, direction));
                            },
                            None => {
                                proof {
                                    assert forall|a: int, c: int| !pin_at(chess_board.board_squares@, king, d, color, a, c) by {
                                        if pin_at(chess_board.board_squares@, king, d, color, a, c) {
                                            if a < k {
                                                assert(chess_board.board_squares@[ray_square(king, d, a)] == Piece::EmptySquare);
                                            } else if k < a {
                                                assert(chess_board.board_squares@[ray_square(king, d, k)] == Piece::EmptySquare);
                                            }
                                        }
                                    }
                                }
                                return None;
                            },
                        }
                    } else {
                        proof {
                            assert forall|a: int, c: int| !pin_at(chess_board.board_squares@, king, d, color, a, c) by {
                                if pin_at(chess_board.board_squares@, king, d, color, a, c) {
                                    if pinned_piece is None {
                                        if a < k {
                                            assert(chess_board.board_squares@[ray_square(king, d, a)] == Piece::EmptySquare);
                                        } else if k < a {
                                            assert(chess_board.board_squares@[ray_square(king, d, k)] == Piece::EmptySquare);
                                        }
                                    } else {
                                        if a < k1 {
                                            assert(chess_board.board_squares@[ray_square(king, d, a)] == Piece::EmptySquare);
                                        } else if k1 < a {
                                            assert(chess_board.board_squares@[ray_square(king, d, k1)] == Piece::EmptySquare);
                                        } else if c < k {
                                            assert(chess_board.board_squares@[ray_square(king, d, c)] == Piece::EmptySquare);
                                        } else if k < c {
                                            assert(chess_board.board_squares@[ray_square(king, d, k)] == Piece::EmptySquare);
                                        }
                                    }
                                }
                            }
                        }
                        return None;
                    }
                }
            }
            assert(ray_square(king, d, k + 1) == current + direction) by (nonlinear_arith)
                requires
                    current == king + k * d,
                    d == direction,
            ;
            current = current + direction;
            proof {
                k = k + 1;
            }
            piece = chess_board.get_piece_on_square(current);
        }
        proof {
            assert forall|a: int, c: int| !pin_at(chess_board.board_squares@, king, d, color, a, c) by {
                if pin_at(chess_board.board_squares@, king, d, color, a, c) {
                    if pinned_piece is None {
                        if a < k {
                            assert(chess_board.board_squares@[ray_square(king, d, a)] == Piece::EmptySquare);
                        } else if k < a {
                            assert(chess_board.board_squares@[ray_square(king, d, k)] == Piece::EmptySquare);
                        }
                    } else {
                        if a < k1 {
                            assert(chess_board.board_squares@[ray_square(king, d, a)] == Piece::EmptySquare);
                        } else if k1 < a {
                            assert(chess_board.board_squares@[ray_square(king, d, k1)] == Piece::EmptySquare);
                        } else if c < k {
                            assert(chess_board.board_squares@[ray_square(king, d, c)] == Piece::EmptySquare);
                        } else if k < c {
                            assert(chess_board.board_squares@[ray_square(king, d, k)] == Piece::EmptySquare);
                        }
                    }
                }
            }
        }
        None
    }

    /// The pinned pieces of `color`: pinned square to pin direction.
    pub fn detect_pinned_pieces(&self, chess_board: &ChessBoard, color: Color) -> (r: HashMap<i16, i16>)
        requires
            chess_board.wf(),
            self.wf(),
        ensures
            r@ == pins(chess_board.board_squares@, *self, color),
    {
        let mut pinned_pieces: HashMap<i16, i16> = HashMap::new();
        let king_square = match self.get_king_square(color) {
            Some(k) => k,
            None => {
                return pinned_pieces;
            },
        };
        proof {
            assert(sorted_inner(self.list(Piece::make(PieceType::King, color))));
        }
        let w = chess_board.board_width;
        let directions: [i16; 8] = [-1, 1, -w, w, -w - 1, -w + 1, w - 1, w + 1];
        assert(directions@ =~= pin_directions().map_values(|d: int| d as i16));
        let mut n: usize = 0;
        while n < 8
            invariant
                chess_board.wf(),
                is_inner(king_square as int),
                n <= 8,
                forall|i: int| 0 <= i < 8 ==> #[trigger] directions@[i] as int == pin_directions()[i],
                pinned_pieces@ == pins_upto(chess_board.board_squares@, king_square as int, color, n as int),
            decreases 8 - n,
        {
            let direction = directions[n];
            assert(pin_directions()[n as int] == direction as int);
            assert(pin_directions().contains(direction as int));
            if let Some((pinned_square, pin_direction)) = self.find_pinned_piece_in_direction(
                chess_board,
                king_square,
                direction,
                color,
            ) {
                pinned_pieces.insert(pinned_square, pin_direction);
            }
            n = n + 1;
        }
        pinned_pieces
    }
}

} // verus!
