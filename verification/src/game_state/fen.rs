//! Reading FEN strings: fields split on whitespace, the piece placement,
//! castling rights, the en passant square and move counters.

use vstd::prelude::*;

use crate::game_state::board::CastlingRights;
use crate::game_state::board::piece::{Color, Piece};

verus! {

/// Unicode white space, as `char::is_whitespace` defines it.
pub open spec fn is_space(c: char) -> bool {
    let v = c as u32;
    (0x09 <= v <= 0x0d) || v == 0x20 || v == 0x85 || v == 0xa0 || v == 0x1680 || (0x2000 <= v
        <= 0x200a) || v == 0x2028 || v == 0x2029 || v == 0x202f || v == 0x205f || v == 0x3000
}

/// Checks if a character is Unicode white space.
pub fn is_space_char(c: char) -> (r: bool)
    ensures
        r == is_space(c),
{
    let v = c as u32;
    (0x09 <= v && v <= 0x0d) || v == 0x20 || v == 0x85 || v == 0xa0 || v == 0x1680 || (0x2000 <= v
        && v <= 0x200a) || v == 0x2028 || v == 0x2029 || v == 0x202f || v == 0x205f || v == 0x3000
}

/// The first position at or after `i` that is not white space.
pub open spec fn skip_spaces(s: Seq<char>, i: int) -> int
    decreases s.len() - i,
{
    if i >= s.len() || !is_space(s[i]) {
        i
    } else {
        skip_spaces(s, i + 1)
    }
}

/// The first position at or after `i` that is white space (or the end).
pub open spec fn token_end(s: Seq<char>, i: int) -> int
    decreases s.len() - i,
{
    if i >= s.len() || is_space(s[i]) {
        i
    } else {
        token_end(s, i + 1)
    }
}

/// The white-space separated fields of `s` from position `i` on.
pub open spec fn tokens_from(s: Seq<char>, i: int) -> Seq<Seq<char>>
    decreases s.len() - i,
{
    let a = skip_spaces(s, i);
    if 0 <= i <= s.len() && a < s.len() {
        proof {
            lemma_skip_spaces(s, i);
            lemma_token_end(s, a + 1);
        }
        seq![s.subrange(a, token_end(s, a))] + tokens_from(s, token_end(s, a))
    } else {
        Seq::empty()
    }
}

/// The white-space separated fields of `s`.
pub open spec fn tokens(s: Seq<char>) -> Seq<Seq<char>> {
    tokens_from(s, 0)
}

pub proof fn lemma_skip_spaces(s: Seq<char>, i: int)
    requires
        0 <= i <= s.len(),
    ensures
        i <= skip_spaces(s, i) <= s.len(),
        skip_spaces(s, i) < s.len() ==> !is_space(s[skip_spaces(s, i)]),
    decreases s.len() - i,
{
    if i < s.len() && is_space(s[i]) {
        lemma_skip_spaces(s, i + 1);
    }
}

pub proof fn lemma_token_end(s: Seq<char>, i: int)
    requires
        0 <= i <= s.len(),
    ensures
        i <= token_end(s, i) <= s.len(),
    decreases s.len() - i,
{
    if i < s.len() && !is_space(s[i]) {
        lemma_token_end(s, i + 1);
    }
}

/// Finds the next field at or after position `from`: its start and end;
/// the start is the length of `s` when there is none.
pub fn next_token(s: &str, from: usize) -> (r: (usize, usize))
    requires
        from <= s@.len(),
    ensures
        r.0 == skip_spaces(s@, from as int),
        r.0 < s@.len() ==> r.1 == token_end(s@, r.0 as int) && r.1 > r.0,
        r.0 <= r.1 <= s@.len(),
{
    let len = s.unicode_len();
    let mut a = from;
    while a < len && is_space_char(s.get_char(a))
        invariant
            from <= a <= len,
            len == s@.len(),
            skip_spaces(s@, a as int) == skip_spaces(s@, from as int),
        decreases len - a,
    {
        a = a + 1;
    }
    let mut b = a;
    while b < len && !is_space_char(s.get_char(b))
        invariant
            a <= b <= len,
            len == s@.len(),
            token_end(s@, b as int) == token_end(s@, a as int),
        decreases len - b,
    {
        b = b + 1;
    }
    (a, b)
}

/// The piece a FEN letter stands for (`PNBRQK` white, `pnbrqk` black).
pub open spec fn fen_piece(c: char) -> Option<Piece> {
    if c == 'P' {
        Some(Piece::WhitePawn)
    } else if c == 'R' {
        Some(Piece::WhiteRook)
    } else if c == 'N' {
        Some(Piece::WhiteKnight)
    } else if c == 'B' {
        Some(Piece::WhiteBishop)
    } else if c == 'Q' {
        Some(Piece::WhiteQueen)
    } else if c == 'K' {
        Some(Piece::WhiteKing)
    } else if c == 'p' {
        Some(Piece::BlackPawn)
    } else if c == 'r' {
        Some(Piece::BlackRook)
    } else if c == 'n' {
        Some(Piece::BlackKnight)
    } else if c == 'b' {
        Some(Piece::BlackBishop)
    } else if c == 'q' {
        Some(Piece::BlackQueen)
    } else if c == 'k' {
        Some(Piece::BlackKing)
    } else {
        None
    }
}

/// The piece a FEN letter stands for.
pub fn piece_for_letter(c: char) -> (r: Option<Piece>)
    ensures
        r == fen_piece(c),
{
    match c {
        'P' => Some(Piece::WhitePawn),
        'R' => Some(Piece::WhiteRook),
        'N' => Some(Piece::WhiteKnight),
        'B' => Some(Piece::WhiteBishop),
        'Q' => Some(Piece::WhiteQueen),
        'K' => Some(Piece::WhiteKing),
        'p' => Some(Piece::BlackPawn),
        'r' => Some(Piece::BlackRook),
        'n' => Some(Piece::BlackKnight),
        'b' => Some(Piece::BlackBishop),
        'q' => Some(Piece::BlackQueen),
        'k' => Some(Piece::BlackKing),
        _ => None,
    }
}

/// The state of reading a piece placement: rank index (0 = 8th rank), file
/// index, the 64 squares (0 = a1), and a status: 0 reading, 1 an invalid
/// character was met, 2 a piece was placed below the 1st rank.
pub type PlacementState = (int, int, Seq<Piece>, int);

/// Reads one character of a piece placement: `/` starts the next rank;
/// once a rank is full the rest of it is skipped; a digit skips that many
/// files; a piece letter is placed and moves one file on; anything else is
/// invalid.
pub open spec fn placement_step(st: PlacementState, c: char) -> PlacementState {
    let (rank, file, squares, status) = st;
    if status != 0 {
        st
    } else if c == '/' {
        (rank + 1, 0, squares, 0)
    } else if file >= 8 {
        st
    } else if '0' <= c <= '9' {
        (rank, file + (c as int - '0' as int), squares, 0)
    } else {
        match fen_piece(c) {
            Some(p) => if rank > 7 {
                (rank, file, squares, 2)
            } else {
                (rank, file + 1, squares.update((7 - rank) * 8 + file, p), 0)
            },
            None => (rank, file, squares, 1),
        }
    }
}

/// The placement state after the first `n` characters of a field.
pub open spec fn placement_upto(tok: Seq<char>, n: int) -> PlacementState
    decreases n,
{
    if n <= 0 {
        (0, 0, Seq::new(64, |i: int| Piece::EmptySquare), 0)
    } else {
        placement_step(placement_upto(tok, n - 1), tok[n - 1])
    }
}

/// The placement state after a whole field.
pub open spec fn placement(tok: Seq<char>) -> PlacementState {
    placement_upto(tok, tok.len() as int)
}

/// Reads the first `n` characters of a castling field: the rights granted
/// so far and whether a `-` ended the field; `K`, `Q`, `k`, `q` grant a
/// right, anything else makes the field invalid (`None`).
pub open spec fn castling_scan(tok: Seq<char>, n: int) -> Option<(CastlingRights, bool)>
    decreases n,
{
    if n <= 0 {
        Some((CastlingRights { white_queenside: false, white_kingside: false, black_queenside: false, black_kingside: false }, false))
    } else {
        match castling_scan(tok, n - 1) {
            None => None,
            Some((r, ended)) => if ended {
                Some((r, true))
            } else {
                let c = tok[n - 1];
                if c == '-' {
                    Some((r, true))
                } else if c == 'K' {
                    Some((CastlingRights { white_kingside: true, ..r }, false))
                } else if c == 'Q' {
                    Some((CastlingRights { white_queenside: true, ..r }, false))
                } else if c == 'k' {
                    Some((CastlingRights { black_kingside: true, ..r }, false))
                } else if c == 'q' {
                    Some((CastlingRights { black_queenside: true, ..r }, false))
                } else {
                    None
                }
            },
        }
    }
}

/// The castling rights of a castling field, `None` when it is invalid.
pub open spec fn castling_field(tok: Seq<char>) -> Option<CastlingRights> {
    match castling_scan(tok, tok.len() as int) {
        Some((r, _)) => Some(r),
        None => None,
    }
}

/// Every character is one of the castling letters `K`, `Q`, `k`, `q`.
pub open spec fn castling_letters(tok: Seq<char>) -> bool {
    forall|i: int| 0 <= i < tok.len() ==> {
        let c = #[trigger] tok[i];
        c == 'K' || c == 'Q' || c == 'k' || c == 'q'
    }
}

/// The rights a castling field of letters grants: `K` white kingside, `Q`
/// white queenside, `k` black kingside, `q` black queenside, each right
/// exactly when its letter occurs.
pub open spec fn rights_named(tok: Seq<char>) -> CastlingRights {
    CastlingRights {
        white_kingside: tok.contains('K'),
        white_queenside: tok.contains('Q'),
        black_kingside: tok.contains('k'),
        black_queenside: tok.contains('q'),
    }
}

/// Reading a prefix of castling letters grants the rights its letters name.
proof fn lemma_castling_scan_letters(tok: Seq<char>, n: int)
    requires
        castling_letters(tok),
        0 <= n <= tok.len(),
    ensures
        castling_scan(tok, n) == Some((rights_named(tok.take(n)), false)),
    decreases n,
{
    if n == 0 {
        assert(!tok.take(0).contains('K') && !tok.take(0).contains('Q'));
        assert(!tok.take(0).contains('k') && !tok.take(0).contains('q'));
    } else {
        lemma_castling_scan_letters(tok, n - 1);
        let p = tok.take(n - 1);
        let q = tok.take(n);
        let c = tok[n - 1];
        assert(q =~= p.push(c));
        assert forall|x: char| q.contains(x) <==> (p.contains(x) || x == c) by {
            if q.contains(x) {
                let i = choose|i: int| 0 <= i < q.len() && q[i] == x;
                if i < n - 1 {
                    assert(p[i] == x);
                }
            }
            if p.contains(x) {
                let i = choose|i: int| 0 <= i < p.len() && p[i] == x;
                assert(q[i] == x);
            }
            if x == c {
                assert(q[n - 1] == x);
            }
        }
    }
}

/// A castling field made of the letters `K`, `Q`, `k`, `q` grants each
/// right exactly when its letter occurs: `K` the white kingside right, `Q`
/// the white queenside right, `k` the black kingside right and `q` the
/// black queenside right, in any order and whatever the other letters.
pub proof fn lemma_castling_field_letters(tok: Seq<char>)
    requires
        castling_letters(tok),
    ensures
        castling_field(tok) == Some(rights_named(tok)),
        castling_field(tok) matches Some(r) && (r.white_kingside <==> tok.contains('K')) && (r.white_queenside
            <==> tok.contains('Q')) && (r.black_kingside <==> tok.contains('k')) && (r.black_queenside
            <==> tok.contains('q')),
{
    lemma_castling_scan_letters(tok, tok.len() as int);
    assert(tok.take(tok.len() as int) =~= tok);
}

/// A castling field `-` grants no right.
pub proof fn lemma_castling_field_none()
    ensures
        castling_field(seq!['-']) == Some(
            CastlingRights { white_queenside: false, white_kingside: false, black_queenside: false, black_kingside: false },
        ),
{
    assert(castling_scan(seq!['-'], 0) == Some(
        (CastlingRights { white_queenside: false, white_kingside: false, black_queenside: false, black_kingside: false }, false),
    ));
}

/// The side to move of a side field: `w` or `b`.
pub open spec fn side_field(tok: Seq<char>) -> Option<Color> {
    if tok == seq!['w'] {
        Some(Color::White)
    } else if tok == seq!['b'] {
        Some(Color::Black)
    } else {
        None
    }
}

/// The en passant field: `-` for none, a square `a1`..`h8` as a standard
/// square, `None` when invalid.
pub open spec fn en_passant_field(tok: Seq<char>) -> Option<Option<int>> {
    if tok == seq!['-'] {
        Some(None)
    } else if tok.len() == 2 && 'a' <= tok[0] <= 'h' && '1' <= tok[1] <= '8' {
        Some(Some((tok[1] as int - '1' as int) * 8 + (tok[0] as int - 'a' as int)))
    } else {
        None
    }
}

/// The digits of a number field: the field without a leading `+`.
pub open spec fn unsigned_digits(tok: Seq<char>) -> Seq<char> {
    if tok.len() > 0 && tok[0] == '+' {
        tok.drop_first()
    } else {
        tok
    }
}

/// Every character is a decimal digit.
pub open spec fn all_digits(digits: Seq<char>) -> bool {
    forall|i: int| 0 <= i < digits.len() ==> '0' <= #[trigger] digits[i] <= '9'
}

/// The value of a decimal number field as `u64::from_str` reads it: an
/// optional `+` and at least one digit, within `u64`.
pub open spec fn number_field(tok: Seq<char>) -> Option<u64> {
    let digits = unsigned_digits(tok);
    if digits.len() > 0 && all_digits(digits) && decimal_value(digits, digits.len() as int) <= u64::MAX {
        Some(decimal_value(digits, digits.len() as int) as u64)
    } else {
        None
    }
}

/// The value of the first `n` decimal digits.
pub open spec fn decimal_value(digits: Seq<char>, n: int) -> int
    decreases n,
{
    if n <= 0 {
        0
    } else {
        decimal_value(digits, n - 1) * 10 + (digits[n - 1] as int - '0' as int)
    }
}

} // verus!

verus! {

/// Reads a piece placement field, the characters of `s` from `a` to `b`:
/// the 64 squares (0 = a1) and the status of [`placement`].
pub fn parse_placement(s: &str, a: usize, b: usize) -> (r: ([Piece; 64], u8))
    requires
        a <= b <= s@.len(),
    ensures
        r.1 as int == placement(s@.subrange(a as int, b as int)).3,
        r.1 == 0 ==> r.0@ == placement(s@.subrange(a as int, b as int)).2,
        forall|k: int| 0 <= k < 64 ==> #[trigger] r.0@[k] != Piece::SentinelSquare,
{
    let ghost tok = s@.subrange(a as int, b as int);
    let mut squares: [Piece; 64] = [Piece::EmptySquare; 64];
    let mut rank: usize = 0;
    let mut file: usize = 0;
    let mut status: u8 = 0;
    let mut i: usize = a;
    assert(squares@ =~= Seq::new(64, |k: int| Piece::EmptySquare));
    while i < b
        invariant
            a <= i <= b <= s@.len(),
            tok == s@.subrange(a as int, b as int),
            placement_upto(tok, (i - a) as int) == (rank as int, file as int, squares@, status as int),
            rank <= i - a,
            file <= 16,
            status <= 2,
            forall|k: int| 0 <= k < 64 ==> #[trigger] squares@[k] != Piece::SentinelSquare,
        decreases b - i,
    {
        let c = s.get_char(i);
        assert(tok[(i - a) as int] == c);
        if status != 0 {
        } else if c == '/' {
            rank = rank + 1;
            file = 0;
        } else if file >= 8 {
        } else if '0' <= c && c <= '9' {
            file = file + (c as u32 - '0' as u32) as usize;
        } else {
            match piece_for_letter(c) {
                Some(p) => {
                    if rank > 7 {
                        status = 2;
                    } else {
                        squares[(7 - rank) * 8 + file] = p;
                        file = file + 1;
                    }
                },
                None => {
                    status = 1;
                },
            }
        }
        i = i + 1;
    }
    assert(tok.len() == b - a);
    (squares, status)
}

/// Reads a side to move field, the characters of `s` from `a` to `b`.
pub fn parse_side(s: &str, a: usize, b: usize) -> (r: Option<Color>)
    requires
        a <= b <= s@.len(),
    ensures
        r == side_field(s@.subrange(a as int, b as int)),
{
    let ghost tok = s@.subrange(a as int, b as int);
    if b - a == 1 {
        let c = s.get_char(a);
        assert(tok[0] == c);
        if c == 'w' {
            assert(tok =~= seq!['w']);
            Some(Color::White)
        } else if c == 'b' {
            assert(tok =~= seq!['b']);
            Some(Color::Black)
        } else {
            assert(tok != seq!['w'] && tok != seq!['b']) by {
                assert(seq!['w'][0] == 'w');
                assert(seq!['b'][0] == 'b');
            }
            None
        }
    } else {
        assert(seq!['w'].len() == 1 && seq!['b'].len() == 1);
        None
    }
}

/// Reads a castling field, the characters of `s` from `a` to `b`.
pub fn parse_castling(s: &str, a: usize, b: usize) -> (r: Option<CastlingRights>)
    requires
        a <= b <= s@.len(),
    ensures
        r == castling_field(s@.subrange(a as int, b as int)),
{
    let ghost tok = s@.subrange(a as int, b as int);
    let mut rights = CastlingRights {
        white_queenside: false,
        white_kingside: false,
        black_queenside: false,
        black_kingside: false,
    };
    let mut ended = false;
    let mut invalid = false;
    let mut i: usize = a;
    while i < b
        invariant
            a <= i <= b <= s@.len(),
            tok == s@.subrange(a as int, b as int),
            invalid ==> castling_scan(tok, (i - a) as int) is None,
            !invalid ==> castling_scan(tok, (i - a) as int) == Some((rights, ended)),
        decreases b - i,
    {
        let c = s.get_char(i);
        assert(tok[(i - a) as int] == c);
        if !invalid && !ended {
            if c == '-' {
                ended = true;
            } else if c == 'K' {
                rights.white_kingside = true;
            } else if c == 'Q' {
                rights.white_queenside = true;
            } else if c == 'k' {
                rights.black_kingside = true;
            } else if c == 'q' {
                rights.black_queenside = true;
            } else {
                invalid = true;
            }
        }
        i = i + 1;
    }
    assert(tok.len() == b - a);
    if invalid {
        None
    } else {
        Some(rights)
    }
}

/// Reads an en passant field, the characters of `s` from `a` to `b`: `-`
/// gives `Some(None)`, a square `a1`..`h8` gives its standard square.
pub fn parse_en_passant(s: &str, a: usize, b: usize) -> (r: Option<Option<i16>>)
    requires
        a <= b <= s@.len(),
    ensures
        match en_passant_field(s@.subrange(a as int, b as int)) {
            None => r is None,
            Some(None) => r == Some(None::<i16>),
            Some(Some(q)) => r == Some(Some(q as i16)) && 0 <= q < 64,
        },
{
    let ghost tok = s@.subrange(a as int, b as int);
    assert(seq!['-'].len() == 1 && seq!['-'][0] == '-');
    if b - a == 1 {
        let c = s.get_char(a);
        assert(tok[0] == c);
        if c == '-' {
            assert(tok =~= seq!['-']);
            Some(None)
        } else {
            None
        }
    } else if b - a == 2 {
        let f = s.get_char(a);
        let r = s.get_char(a + 1);
        assert(tok[0] == f && tok[1] == r);
        if 'a' <= f && f <= 'h' && '1' <= r && r <= '8' {
            let square = (r as u32 - '1' as u32) * 8 + (f as u32 - 'a' as u32);
            Some(Some(square as i16))
        } else {
            None
        }
    } else {
        None
    }
}

/// The value of decimal digits grows with each digit read.
pub proof fn lemma_decimal_monotone(digits: Seq<char>, k: int, n: int)
    requires
        0 <= k <= n <= digits.len(),
        forall|i: int| 0 <= i < n ==> '0' <= #[trigger] digits[i] <= '9',
    ensures
        0 <= decimal_value(digits, k) <= decimal_value(digits, n),
    decreases n,
{
    if n > k {
        lemma_decimal_monotone(digits, k, n - 1);
    } else if k > 0 {
        lemma_decimal_monotone(digits, k - 1, k - 1);
    }
}

/// Reads a decimal number field, the characters of `s` from `a` to `b`
/// (see [`number_field`]).
pub fn parse_number(s: &str, a: usize, b: usize) -> (r: Option<u64>)
    requires
        a <= b <= s@.len(),
    ensures
        r == number_field(s@.subrange(a as int, b as int)),
{
    let ghost tok = s@.subrange(a as int, b as int);
    let mut start = a;
    if a < b && s.get_char(a) == '+' {
        start = a + 1;
    }
    let ghost digits = s@.subrange(start as int, b as int);
    assert(digits =~= unsigned_digits(tok));
    if start >= b {
        return None;
    }
    let mut value: u64 = 0;
    let mut i: usize = start;
    while i < b
        invariant
            a <= start <= i <= b <= s@.len(),
            tok == s@.subrange(a as int, b as int),
            digits == s@.subrange(start as int, b as int),
            digits == unsigned_digits(tok),
            forall|j: int| 0 <= j < i - start ==> '0' <= #[trigger] digits[j] <= '9',
            value == decimal_value(digits, (i - start) as int),
        decreases b - i,
    {
        let c = s.get_char(i);
        assert(digits[(i - start) as int] == c);
        if !('0' <= c && c <= '9') {
            assert(!all_digits(digits));
            assert(number_field(tok) is None);
            return None;
        }
        let d = (c as u32 - '0' as u32) as u64;
        let next = match value.checked_mul(10) {
            Some(v) => v.checked_add(d),
            None => None,
        };
        match next {
            Some(w) => {
                value = w;
            },
            None => {
                proof {
                    if all_digits(digits) {
                        lemma_decimal_monotone(digits, (i - start + 1) as int, digits.len() as int);
                    }
                    assert(number_field(tok) is None);
                }
                return None;
            },
        }
        i = i + 1;
    }
    assert(digits.len() == b - start);
    Some(value)
}

} // verus!

verus! {

/// The fields from position `p` on are the field that starts at the first
/// non-space character (if any) followed by the fields after it.
pub proof fn lemma_tokens_step(s: Seq<char>, p: int)
    requires
        0 <= p <= s.len(),
    ensures
        skip_spaces(s, p) < s.len() ==> tokens_from(s, p) == seq![
            s.subrange(skip_spaces(s, p), token_end(s, skip_spaces(s, p))),
        ] + tokens_from(s, token_end(s, skip_spaces(s, p))),
        skip_spaces(s, p) >= s.len() ==> tokens_from(s, p) == Seq::<Seq<char>>::empty(),
{
}

/// Finds the field with index `k` of `s` (counting from 0): its start and
/// end, `None` when `s` has no more than `k` fields.
pub fn field_at(s: &str, k: usize) -> (r: Option<(usize, usize)>)
    ensures
        match r {
            Some((a, b)) => {
                &&& k < tokens(s@).len()
                &&& a <= b <= s@.len()
                &&& tokens(s@)[k as int] == s@.subrange(a as int, b as int)
            },
            None => k >= tokens(s@).len(),
        },
{
    let ghost t = tokens(s@);
    let len = s.unicode_len();
    let mut pos: usize = 0;
    let mut j: usize = 0;
    assert(t.subrange(0, t.len() as int) =~= t);
    loop
        invariant
            pos <= len,
            len == s@.len(),
            j <= k,
            j <= t.len(),
            t == tokens(s@),
            t.subrange(j as int, t.len() as int) == tokens_from(s@, pos as int),
        decreases len - pos,
    {
        let (a, b) = next_token(s, pos);
        proof {
            lemma_tokens_step(s@, pos as int);
            lemma_skip_spaces(s@, pos as int);
        }
        if a >= len {
            assert(t.subrange(j as int, t.len() as int).len() == 0);
            return None;
        }
        let ghost rest = tokens_from(s@, b as int);
        let ghost here = tokens_from(s@, pos as int);
        assert(here == seq![s@.subrange(a as int, b as int)] + rest);
        assert(here.len() == 1 + rest.len());
        assert(here[0] == s@.subrange(a as int, b as int));
        assert(t.subrange(j as int, t.len() as int)[0] == t[j as int]);
        if j == k {
            return Some((a, b));
        }
        assert forall|i: int| 0 <= i < rest.len() implies #[trigger] rest[i] == t[j + 1 + i] by {
            assert(here[i + 1] == rest[i]);
        }
        assert(t.subrange(j as int + 1, t.len() as int) =~= rest);
        pos = b;
        j = j + 1;
    }
}

} // verus!

verus! {

/// A string has no more fields from position `p` on than characters.
pub proof fn lemma_tokens_len(s: Seq<char>, p: int)
    requires
        0 <= p <= s.len(),
    ensures
        tokens_from(s, p).len() <= s.len() - p,
    decreases s.len() - p,
{
    lemma_tokens_step(s, p);
    lemma_skip_spaces(s, p);
    if skip_spaces(s, p) < s.len() {
        let a = skip_spaces(s, p);
        lemma_token_end(s, a + 1);
        lemma_tokens_len(s, token_end(s, a));
    }
}

/// The fields `k0` to `k0 + count - 1` of `t`, as far as `t` has them.
pub open spec fn window(t: Seq<Seq<char>>, k0: int, count: int) -> Seq<Seq<char>> {
    let lo = if k0 < t.len() { k0 } else { t.len() as int };
    let hi = if k0 + count < t.len() { k0 + count } else { t.len() as int };
    t.subrange(lo, hi)
}

/// Finds the field with index `j` of the window of `count` fields of `s`
/// that starts at field `k0` (see [`window`]).
pub fn window_field(s: &str, k0: usize, count: usize, j: usize) -> (r: Option<(usize, usize)>)
    ensures
        match r {
            Some((a, b)) => {
                &&& j < window(tokens(s@), k0 as int, count as int).len()
                &&& a <= b <= s@.len()
                &&& window(tokens(s@), k0 as int, count as int)[j as int] == s@.subrange(a as int, b as int)
            },
            None => j >= window(tokens(s@), k0 as int, count as int).len(),
        },
{
    if j >= count {
        return None;
    }
    match k0.checked_add(j) {
        Some(k) => {
            let r = field_at(s, k);
            proof {
                let t = tokens(s@);
                if k < t.len() {
                    assert(window(t, k0 as int, count as int)[j as int] == t[k as int]);
                } else {
                    assert(window(t, k0 as int, count as int).len() <= j);
                }
            }
            r
        },
        None => {
            let n = s.unicode_len();
            proof {
                lemma_tokens_len(s@, 0);
                assert(window(tokens(s@), k0 as int, count as int).len() <= j);
            }
            None
        },
    }
}

/// Checks if the characters of `s` from `a` to `b` are the string `lit`.
pub fn token_is(s: &str, a: usize, b: usize, lit: &str) -> (r: bool)
    requires
        a <= b <= s@.len(),
    ensures
        r == (s@.subrange(a as int, b as int) == lit@),
{
    let n = lit.unicode_len();
    if b - a != n {
        return false;
    }
    let mut i: usize = 0;
    while i < n
        invariant
            i <= n,
            n == lit@.len(),
            b - a == n,
            a <= b <= s@.len(),
            forall|k: int| 0 <= k < i ==> s@[a + k] == #[trigger] lit@[k],
        decreases n - i,
    {
        if s.get_char(a + i) != lit.get_char(i) {
            assert(s@.subrange(a as int, b as int)[i as int] != lit@[i as int]);
            return false;
        }
        i = i + 1;
    }
    assert(s@.subrange(a as int, b as int) =~= lit@);
    true
}

/// The number field with index `k` of `s`, `None` when there is no such
/// field or it is no number (see [`number_field`]).
pub fn number_at(s: &str, k: usize) -> (r: Option<u64>)
    ensures
        r == if k < tokens(s@).len() {
            number_field(tokens(s@)[k as int])
        } else {
            None
        },
{
    match field_at(s, k) {
        Some((a, b)) => parse_number(s, a, b),
        None => None,
    }
}

} // verus!
