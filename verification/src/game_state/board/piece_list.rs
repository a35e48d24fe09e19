//! Piece lists: one sorted list of squares for each piece, kept in step with
//! the board so that move generation visits pieces instead of squares.

use vstd::prelude::*;

pub mod attacks;
pub mod pins;
pub mod rays;
pub mod movegen;
pub mod congruence;
pub mod safety;
pub mod legality;
pub mod pawn_legality;
pub mod move_safety;
pub mod completeness;
pub mod pawn_completeness;
pub mod uniqueness;
pub mod castling_completeness;

use crate::game_state::board::{is_inner, ChessBoard};
use crate::game_state::board::moves::Move;
use crate::game_state::board::piece::{Color, Piece, PieceType};

verus! {

/// A strictly increasing list of on-board squares.
pub open spec fn sorted_inner(l: Seq<i16>) -> bool {
    &&& forall|i: int, j: int| 0 <= i < j < l.len() ==> l[i] < l[j]
    &&& forall|i: int| 0 <= i < l.len() ==> is_inner(#[trigger] l[i] as int)
}

/// Maintains separate lists of squares for each piece type and color.
#[derive(Debug)]
pub struct PieceList {
    /// White king positions
    pub white_king_list: Vec<i16>,
    /// White queen positions
    pub white_queen_list: Vec<i16>,
    /// White rook positions
    pub white_rook_list: Vec<i16>,
    /// White bishop positions
    pub white_bishop_list: Vec<i16>,
    /// White knight positions
    pub white_knight_list: Vec<i16>,
    /// White pawn positions
    pub white_pawn_list: Vec<i16>,
    /// Black king positions
    pub black_king_list: Vec<i16>,
    /// Black queen positions
    pub black_queen_list: Vec<i16>,
    /// Black rook positions
    pub black_rook_list: Vec<i16>,
    /// Black bishop positions
    pub black_bishop_list: Vec<i16>,
    /// Black knight positions
    pub black_knight_list: Vec<i16>,
    /// Black pawn positions
    pub black_pawn_list: Vec<i16>,
}

/// Searches a sorted list: `Ok(i)` when `list[i] == x`, otherwise `Err(i)`
/// with `i` the number of elements below `x` (where `x` would be inserted).
fn search_sorted(list: &Vec<i16>, x: i16) -> (r: Result<usize, usize>)
    requires
        forall|i: int, j: int| 0 <= i < j < list@.len() ==> list@[i] < list@[j],
    ensures
        r matches Ok(i) ==> i < list@.len() && list@[i as int] == x,
        r matches Err(i) ==> i <= list@.len() && (forall|k: int| 0 <= k < i ==> list@[k] < x)
            && (forall|k: int| i <= k < list@.len() ==> list@[k] > x),
{
    let mut lo: usize = 0;
    let mut hi: usize = list.len();
    while lo < hi
        invariant
            lo <= hi <= list@.len(),
            forall|i: int, j: int| 0 <= i < j < list@.len() ==> list@[i] < list@[j],
            forall|k: int| 0 <= k < lo ==> list@[k] < x,
            forall|k: int| hi <= k < list@.len() ==> list@[k] > x,
        decreases hi - lo,
    {
        let mid = lo + (hi - lo) / 2;
        if list[mid] == x {
            return Ok(mid);
        } else if list[mid] < x {
            lo = mid + 1;
        } else {
            hi = mid;
        }
    }
    Err(lo)
}

/// Inserts `x` into a sorted list of on-board squares (nothing happens when
/// it is already there).
fn insert_sorted(list: &mut Vec<i16>, x: i16)
    requires
        sorted_inner(old(list)@),
        is_inner(x as int),
    ensures
        sorted_inner(final(list)@),
        forall|y: i16| final(list)@.contains(y) <==> (old(list)@.contains(y) || y == x),
{
    match search_sorted(list, x) {
        Ok(i) => {
            assert(list@[i as int] == x);
        },
        Err(pos) => {
            let ghost old_l = list@;
            list.insert(pos, x);
            assert forall|y: i16| list@.contains(y) <==> (old_l.contains(y) || y == x) by {
                if list@.contains(y) {
                    let k = choose|k: int| 0 <= k < list@.len() && list@[k] == y;
                    if k < pos {
                        assert(old_l[k] == y);
                    } else if k > pos {
                        assert(old_l[k - 1] == y);
                    }
                }
                if old_l.contains(y) {
                    let k = choose|k: int| 0 <= k < old_l.len() && old_l[k] == y;
                    if k < pos {
                        assert(list@[k] == y);
                    } else {
                        assert(list@[k + 1] == y);
                    }
                }
                if y == x {
                    assert(list@[pos as int] == y);
                }
            }
        },
    }
}

/// Removes `x` from a sorted list of on-board squares; returns whether it
/// was there.
fn remove_sorted(list: &mut Vec<i16>, x: i16) -> (r: bool)
    requires
        sorted_inner(old(list)@),
    ensures
        sorted_inner(final(list)@),
        r == old(list)@.contains(x),
        forall|y: i16| final(list)@.contains(y) <==> (old(list)@.contains(y) && y != x),
        final(list)@.len() == if r {
            old(list)@.len() - 1
        } else {
            old(list)@.len() as int
        },
{
    match search_sorted(list, x) {
        Ok(pos) => {
            let ghost old_l = list@;
            list.remove(pos);
            assert forall|y: i16| list@.contains(y) <==> (old_l.contains(y) && y != x) by {
                if list@.contains(y) {
                    let k = choose|k: int| 0 <= k < list@.len() && list@[k] == y;
                    if k < pos {
                        assert(old_l[k] == y);
                        assert(old_l[k] < old_l[pos as int]);
                    } else {
                        assert(old_l[k + 1] == y);
                        assert(old_l[k + 1] > old_l[pos as int]);
                    }
                }
                if old_l.contains(y) && y != x {
                    let k = choose|k: int| 0 <= k < old_l.len() && old_l[k] == y;
                    if k < pos {
                        assert(list@[k] == y);
                    } else {
                        assert(k != pos);
                        assert(list@[k - 1] == y);
                    }
                }
            }
            true
        },
        Err(_) => {
            assert(!list@.contains(x));
            false
        },
    }
}

/// Whether a list of the piece lists holds a square after
/// [`PieceList::make_move`]: the captured piece leaves the destination, an
/// en passant pawn leaves its square, the moving piece leaves the origin,
/// the final piece (the promotion, if any) enters the destination, and a
/// castling rook moves.
pub open spec fn made_has(pl: PieceList, mv: Move, p: Piece, s: i16) -> bool {
    let h0 = pl.list(p).contains(s);
    let h1 = if mv.captured_piece.is_piece() && p == mv.captured_piece && s == mv.to {
        false
    } else {
        h0
    };
    let h2 = if mv.en_passant && p == mv.en_passant_pawn() && s as int
        == mv.en_passant_capture_square() {
        false
    } else {
        h1
    };
    let h3 = if p == mv.piece && s == mv.from {
        false
    } else {
        h2
    };
    let h4 = if p == mv.final_piece() && s == mv.to {
        true
    } else {
        h3
    };
    match mv.castling {
        Some(c) => if p == c.rook_piece && s == c.rook_to {
            true
        } else if p == c.rook_piece && s == c.rook_from {
            false
        } else {
            h4
        },
        None => h4,
    }
}

/// Whether a list of the piece lists holds a square after
/// [`PieceList::unmake_move`]: a castling rook moves back, an en passant
/// pawn returns, the final piece leaves the destination, the moving piece
/// returns to the origin, and a captured piece (not en passant) returns to
/// the destination.
pub open spec fn unmade_has(pl: PieceList, mv: Move, p: Piece, s: i16) -> bool {
    let h0 = pl.list(p).contains(s);
    let h1 = match mv.castling {
        Some(c) => if p == c.rook_piece && s == c.rook_from {
            true
        } else if p == c.rook_piece && s == c.rook_to {
            false
        } else {
            h0
        },
        None => h0,
    };
    let h2 = if mv.en_passant && p == mv.en_passant_pawn() && s as int
        == mv.en_passant_capture_square() {
        true
    } else {
        h1
    };
    let h3 = if p == mv.final_piece() && s == mv.to {
        false
    } else {
        h2
    };
    let h4 = if p == mv.piece && s == mv.from {
        true
    } else {
        h3
    };
    if !mv.en_passant && mv.captured_piece.is_piece() && p == mv.captured_piece && s == mv.to {
        true
    } else {
        h4
    }
}

/// Two strictly increasing lists with the same elements are equal.
pub proof fn lemma_sorted_same_elements(a: Seq<i16>, b: Seq<i16>)
    requires
        sorted_inner(a),
        sorted_inner(b),
        forall|x: i16| a.contains(x) <==> b.contains(x),
    ensures
        a == b,
    decreases a.len() + b.len(),
{
    if a.len() == 0 {
        if b.len() > 0 {
            assert(b.contains(b[0]));
        }
        assert(a =~= b);
    } else if b.len() == 0 {
        assert(a.contains(a[0]));
    } else {
        assert(a.contains(a[0]));
        assert(b.contains(b[0]));
        let ia = choose|i: int| 0 <= i < a.len() && a[i] == b[0];
        let ib = choose|i: int| 0 <= i < b.len() && b[i] == a[0];
        assert(a[0] <= a[ia]);
        assert(b[0] <= b[ib]);
        assert(a[0] == b[0]);
        let a1 = a.drop_first();
        let b1 = b.drop_first();
        assert forall|x: i16| a1.contains(x) <==> b1.contains(x) by {
            if a1.contains(x) {
                let i = choose|i: int| 0 <= i < a1.len() && a1[i] == x;
                assert(a[i + 1] == x);
                assert(a.contains(x));
                let j = choose|j: int| 0 <= j < b.len() && b[j] == x;
                assert(j != 0);
                assert(b1[j - 1] == x);
            }
            if b1.contains(x) {
                let i = choose|i: int| 0 <= i < b1.len() && b1[i] == x;
                assert(b[i + 1] == x);
                assert(b.contains(x));
                let j = choose|j: int| 0 <= j < a.len() && a[j] == x;
                assert(j != 0);
                assert(a1[j - 1] == x);
            }
        }
        assert(sorted_inner(a1));
        assert(sorted_inner(b1));
        lemma_sorted_same_elements(a1, b1);
        assert(a =~= seq![a[0]] + a1);
        assert(b =~= seq![b[0]] + b1);
    }
}

impl PieceList {
    /// The list of squares of a piece (empty for a non-piece).
    pub open spec fn list(&self, p: Piece) -> Seq<i16> {
        match p {
            Piece::WhitePawn => self.white_pawn_list@,
            Piece::WhiteRook => self.white_rook_list@,
            Piece::WhiteKnight => self.white_knight_list@,
            Piece::WhiteBishop => self.white_bishop_list@,
            Piece::WhiteQueen => self.white_queen_list@,
            Piece::WhiteKing => self.white_king_list@,
            Piece::BlackPawn => self.black_pawn_list@,
            Piece::BlackRook => self.black_rook_list@,
            Piece::BlackKnight => self.black_knight_list@,
            Piece::BlackBishop => self.black_bishop_list@,
            Piece::BlackQueen => self.black_queen_list@,
            Piece::BlackKing => self.black_king_list@,
            _ => Seq::empty(),
        }
    }

    /// Every list is strictly increasing and holds on-board squares only.
    pub open spec fn wf(&self) -> bool {
        forall|p: Piece| #[trigger] sorted_inner(self.list(p))
    }

    /// Two piece lists hold the same squares in the same order.
    pub open spec fn same_lists(&self, other: &PieceList) -> bool {
        forall|p: Piece| #[trigger] self.list(p) == other.list(p)
    }

    /// The number of pieces of a kind on the board.
    pub open spec fn count(&self, p: Piece) -> int {
        self.list(p).len() as int
    }

    /// Creates an empty piece list.
    pub fn new_empty() -> (r: PieceList)
        ensures
            r.wf(),
            forall|p: Piece| #[trigger] r.list(p) == Seq::<i16>::empty(),
    {
        let r = PieceList {
            white_king_list: Vec::new(),
            white_queen_list: Vec::new(),
            white_rook_list: Vec::new(),
            white_bishop_list: Vec::new(),
            white_knight_list: Vec::new(),
            white_pawn_list: Vec::new(),
            black_king_list: Vec::new(),
            black_queen_list: Vec::new(),
            black_rook_list: Vec::new(),
            black_bishop_list: Vec::new(),
            black_knight_list: Vec::new(),
            black_pawn_list: Vec::new(),
        };
        assert forall|p: Piece| #[trigger] r.list(p) == Seq::<i16>::empty() by {
            assert(r.list(p) =~= Seq::<i16>::empty());
        }
        r
    }

}

impl Default for PieceList {
    /// Empty lists.
    fn default() -> (r: Self)
        ensures
            r.wf(),
            forall|p: Piece| #[trigger] r.list(p) == Seq::<i16>::empty(),
    {
        PieceList::new_empty()
    }
}

impl PieceList {
    /// Adds a piece to the appropriate list in sorted order (nothing happens
    /// for a non-piece, or when the square is already listed).
    pub fn add_piece(&mut self, piece: Piece, square: i16)
        requires
            old(self).wf(),
            is_inner(square as int),
        ensures
            final(self).wf(),
            forall|p: Piece| p != piece ==> #[trigger] final(self).list(p) == old(self).list(p),
            piece.is_piece() ==> forall|y: i16| #[trigger] final(self).list(piece).contains(y) <==> (
            old(self).list(piece).contains(y) || y == square),
    {
        proof {
            assert(sorted_inner(self.list(piece)));
        }
        match piece {
            Piece::WhitePawn => insert_sorted(&mut self.white_pawn_list, square),
            Piece::WhiteRook => insert_sorted(&mut self.white_rook_list, square),
            Piece::WhiteKnight => insert_sorted(&mut self.white_knight_list, square),
            Piece::WhiteBishop => insert_sorted(&mut self.white_bishop_list, square),
            Piece::WhiteQueen => insert_sorted(&mut self.white_queen_list, square),
            Piece::WhiteKing => insert_sorted(&mut self.white_king_list, square),
            Piece::BlackPawn => insert_sorted(&mut self.black_pawn_list, square),
            Piece::BlackRook => insert_sorted(&mut self.black_rook_list, square),
            Piece::BlackKnight => insert_sorted(&mut self.black_knight_list, square),
            Piece::BlackBishop => insert_sorted(&mut self.black_bishop_list, square),
            Piece::BlackQueen => insert_sorted(&mut self.black_queen_list, square),
            Piece::BlackKing => insert_sorted(&mut self.black_king_list, square),
            _ => {},
        }
        proof {
            assert forall|p: Piece| #[trigger] sorted_inner(self.list(p)) by {
                if p != piece {
                    assert(sorted_inner(old(self).list(p)));
                }
            }
        }
    }

    /// Removes a piece from the appropriate list. Returns whether the piece
    /// was found and removed (always `false` for a non-piece).
    pub fn remove_piece(&mut self, piece: Piece, square: i16) -> (r: bool)
        requires
            old(self).wf(),
        ensures
            final(self).wf(),
            forall|p: Piece| p != piece ==> #[trigger] final(self).list(p) == old(self).list(p),
            r == (piece.is_piece() && old(self).list(piece).contains(square)),
            piece.is_piece() ==> forall|y: i16| #[trigger] final(self).list(piece).contains(y) <==> (
            old(self).list(piece).contains(y) && y != square),
            final(self).count(piece) == if r {
                old(self).count(piece) - 1
            } else {
                old(self).count(piece)
            },
    {
        proof {
            assert(sorted_inner(self.list(piece)));
        }
        let r = match piece {
            Piece::WhitePawn => remove_sorted(&mut self.white_pawn_list, square),
            Piece::WhiteRook => remove_sorted(&mut self.white_rook_list, square),
            Piece::WhiteKnight => remove_sorted(&mut self.white_knight_list, square),
            Piece::WhiteBishop => remove_sorted(&mut self.white_bishop_list, square),
            Piece::WhiteQueen => remove_sorted(&mut self.white_queen_list, square),
            Piece::WhiteKing => remove_sorted(&mut self.white_king_list, square),
            Piece::BlackPawn => remove_sorted(&mut self.black_pawn_list, square),
            Piece::BlackRook => remove_sorted(&mut self.black_rook_list, square),
            Piece::BlackKnight => remove_sorted(&mut self.black_knight_list, square),
            Piece::BlackBishop => remove_sorted(&mut self.black_bishop_list, square),
            Piece::BlackQueen => remove_sorted(&mut self.black_queen_list, square),
            Piece::BlackKing => remove_sorted(&mut self.black_king_list, square),
            _ => false,
        };
        proof {
            assert forall|p: Piece| #[trigger] sorted_inner(self.list(p)) by {
                if p != piece {
                    assert(sorted_inner(old(self).list(p)));
                }
            }
        }
        r
    }
}

impl PieceList {
    /// Applies a move to the piece lists: removes a captured piece (also an
    /// en passant pawn), moves the piece (or its promotion) and a castling
    /// rook.
    pub fn make_move(&mut self, mv: &Move)
        requires
            old(self).wf(),
            is_inner(mv.to as int),
            mv.castling matches Some(c) ==> is_inner(c.rook_to as int),
        ensures
            final(self).wf(),
            forall|p: Piece, s: i16|
                p.is_piece() ==> (#[trigger] final(self).list(p).contains(s) <==> made_has(
                    *old(self),
                    *mv,
                    p,
                    s,
                )),
    {
        let ghost old_self = *self;
        if mv.captured_piece != Piece::EmptySquare && mv.captured_piece != Piece::SentinelSquare {
            self.remove_piece(mv.captured_piece, mv.to);
        }
        if mv.en_passant {
            let capture_square = if mv.piece.is_white() {
                mv.to - 10
            } else {
                mv.to + 10
            };
            let captured_pawn = if mv.piece.is_white() {
                Piece::BlackPawn
            } else {
                Piece::WhitePawn
            };
            self.remove_piece(captured_pawn, capture_square);
        }
        self.remove_piece(mv.piece, mv.from);
        let final_piece = match mv.promotion {
            Some(p) => p,
            None => mv.piece,
        };
        self.add_piece(final_piece, mv.to);
        if let Some(castling) = &mv.castling {
            self.remove_piece(castling.rook_piece, castling.rook_from);
            self.add_piece(castling.rook_piece, castling.rook_to);
        }
    }

    /// Reverts a move in the piece lists: moves a castling rook back,
    /// restores an en passant pawn, moves the piece back (undoing a
    /// promotion) and restores a captured piece.
    pub fn unmake_move(&mut self, mv: &Move)
        requires
            old(self).wf(),
            is_inner(mv.from as int),
            mv.castling matches Some(c) ==> is_inner(c.rook_from as int),
            mv.en_passant ==> is_inner(mv.en_passant_capture_square()),
            !mv.en_passant && mv.captured_piece.is_piece() ==> is_inner(mv.to as int),
        ensures
            final(self).wf(),
            forall|p: Piece, s: i16|
                p.is_piece() ==> (#[trigger] final(self).list(p).contains(s) <==> unmade_has(
                    *old(self),
                    *mv,
                    p,
                    s,
                )),
    {
        if let Some(castling) = &mv.castling {
            self.remove_piece(castling.rook_piece, castling.rook_to);
            self.add_piece(castling.rook_piece, castling.rook_from);
        }
        if mv.en_passant {
            let capture_square = if mv.piece.is_white() {
                mv.to - 10
            } else {
                mv.to + 10
            };
            let captured_pawn = if mv.piece.is_white() {
                Piece::BlackPawn
            } else {
                Piece::WhitePawn
            };
            self.add_piece(captured_pawn, capture_square);
        }
        let final_piece = match mv.promotion {
            Some(p) => p,
            None => mv.piece,
        };
        self.remove_piece(final_piece, mv.to);
        self.add_piece(mv.piece, mv.from);
        if !mv.en_passant && mv.captured_piece.is_valid_piece() {
            self.add_piece(mv.captured_piece, mv.to);
        }
    }
}

} // verus!
