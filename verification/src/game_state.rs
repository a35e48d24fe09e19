//! Game state management: position setup from FEN strings, move execution
//! by UCI notation, move listing, perft and the search configuration.

use std::sync::Arc;
use std::sync::atomic::AtomicBool;
use vstd::prelude::*;

pub mod board;
pub mod fen;
pub mod perft;
pub mod uci;
pub mod start_position;

pub use board::CastlingRights;
pub use board::ChessBoard;
pub use board::moves::Move;
pub use board::piece::{Color, Piece, PieceType};
pub use board::transposition_table::{TranspositionTable, Zobrist};

use board::{inner_of, made, same_position, unmade};
use board::moves::parsed_uci;
use board::piece_list::movegen::legal_moves;
use board::position::{board_from, position_hash};
use board::search::{request_stop, restored};
use fen::{castling_field, en_passant_field, window, window_field, number_field, parse_castling, parse_en_passant, parse_number, parse_placement, parse_side, placement, side_field, tokens};
use perft::{after_move, can_make, count_leaves, count_leaves_per_move, perft_nodes, saturated};

verus! {

/// Search parameters and time control, as the UCI `go` command gives them.
pub struct SearchConfiguration {
    /// White time remaining in milliseconds
    pub wtime: Option<u64>,
    /// Black time remaining in milliseconds
    pub btime: Option<u64>,
    /// White time increment per move in milliseconds
    pub winc: Option<u64>,
    /// Black time increment per move in milliseconds
    pub binc: Option<u64>,
    /// Moves remaining until next time control
    pub movestogo: Option<u64>,
    /// Time limit for this move in milliseconds
    pub movetime: Option<u64>,
    /// Maximum search depth
    pub depth: Option<u64>,
    /// Maximum number of nodes to search
    pub nodes: Option<u64>,
    /// Search indefinitely until "stop" command
    pub infinite: bool,
    /// Restrict search to specific moves
    pub searchmoves: Option<Vec<Move>>,
    /// Enable pondering (thinking during opponent's time)
    pub ponder: bool,
    /// Search for a mate in specified number of moves
    pub mate: Option<u32>,
}

impl SearchConfiguration {
    /// Two configurations hold the same parameters (the restricting moves
    /// compared by their contents).
    pub open spec fn same_as(&self, other: &SearchConfiguration) -> bool {
        &&& self.wtime == other.wtime
        &&& self.btime == other.btime
        &&& self.winc == other.winc
        &&& self.binc == other.binc
        &&& self.movestogo == other.movestogo
        &&& self.movetime == other.movetime
        &&& self.depth == other.depth
        &&& self.nodes == other.nodes
        &&& self.infinite == other.infinite
        &&& self.ponder == other.ponder
        &&& self.mate == other.mate
        &&& match (self.searchmoves, other.searchmoves) {
            (None, None) => true,
            (Some(a), Some(b)) => a@ == b@,
            _ => false,
        }
    }

    /// Creates a search configuration with every limit unset.
    pub fn new() -> (r: Self)
        ensures
            r.wtime is None,
            r.btime is None,
            r.winc is None,
            r.binc is None,
            r.movestogo is None,
            r.movetime is None,
            r.depth is None,
            r.nodes is None,
            !r.infinite,
            r.searchmoves is None,
            !r.ponder,
            r.mate is None,
    {
        SearchConfiguration {
            wtime: None,
            btime: None,
            winc: None,
            binc: None,
            movestogo: None,
            movetime: None,
            depth: None,
            nodes: None,
            infinite: false,
            searchmoves: None,
            ponder: false,
            mate: None,
        }
    }
}

/// Copies a list of moves.
fn copy_moves(moves: &Vec<Move>) -> (r: Vec<Move>)
    ensures
        r@ == moves@,
{
    let mut r: Vec<Move> = Vec::new();
    let mut i: usize = 0;
    while i < moves.len()
        invariant
            i <= moves@.len(),
            r@ == moves@.subrange(0, i as int),
        decreases moves@.len() - i,
    {
        r.push(moves[i]);
        i = i + 1;
    }
    assert(r@ =~= moves@);
    r
}

impl Clone for SearchConfiguration {
    /// Copies every parameter.
    fn clone(&self) -> (r: Self)
        ensures
            r.same_as(self),
    {
        SearchConfiguration {
            wtime: self.wtime,
            btime: self.btime,
            winc: self.winc,
            binc: self.binc,
            movestogo: self.movestogo,
            movetime: self.movetime,
            depth: self.depth,
            nodes: self.nodes,
            infinite: self.infinite,
            searchmoves: match &self.searchmoves {
                Some(moves) => Some(copy_moves(moves)),
                None => None,
            },
            ponder: self.ponder,
            mate: self.mate,
        }
    }
}

/// The castling rights of a FEN whose castling field is missing: none.
pub open spec fn no_rights() -> CastlingRights {
    CastlingRights { white_queenside: false, white_kingside: false, black_queenside: false, black_kingside: false }
}

/// The piece placement field (the first field) reads without error.
pub open spec fn fen_placed(t: Seq<Seq<char>>) -> bool {
    t.len() >= 1 && placement(t[0]).3 == 0
}

/// The placement is read and the side to move field is `w` or `b`.
pub open spec fn fen_sided(t: Seq<Seq<char>>) -> bool {
    fen_placed(t) && t.len() >= 2 && side_field(t[1]) is Some
}

/// The side to move is read and the castling field is missing or valid.
pub open spec fn fen_castled(t: Seq<Seq<char>>) -> bool {
    fen_sided(t) && (t.len() < 3 || castling_field(t[2]) is Some)
}

/// The castling rights a FEN grants (none when the field is missing).
pub open spec fn fen_rights(t: Seq<Seq<char>>) -> CastlingRights {
    if t.len() < 3 {
        no_rights()
    } else {
        castling_field(t[2]).unwrap()
    }
}

/// The castling field is read and the en passant field is `-` or a square.
pub open spec fn fen_passed(t: Seq<Seq<char>>) -> bool {
    fen_castled(t) && t.len() >= 4 && en_passant_field(t[3]) is Some
}

/// A FEN is read whole: every field up to the move counters is valid and
/// their sum fits in a `u64`.
pub open spec fn fen_accepted(t: Seq<Seq<char>>) -> bool {
    &&& fen_passed(t)
    &&& t.len() >= 6
    &&& number_field(t[4]) is Some
    &&& number_field(t[5]) is Some
    &&& number_field(t[4]).unwrap() + number_field(t[5]).unwrap() <= u64::MAX
}

/// The game: the board, the side to move, the move count, the search
/// configuration and the flag that stops a running search.
pub struct GameState {
    /// Total ply moves made in the game
    ply_moves: u64,
    /// Current side to move
    side_to_move: Color,
    /// Search configuration and time control settings
    search_control: Option<SearchConfiguration>,
    /// Search interrupt
    stop_flag: Arc<AtomicBool>,
    /// The chess board with current position
    board: ChessBoard,
    /// The moves made through [`GameState::make_move`], oldest first
    history: Vec<Move>,
}

impl GameState {
    /// The board.
    pub closed spec fn board_state(&self) -> ChessBoard {
        self.board
    }

    /// The side to move.
    pub closed spec fn side(&self) -> Color {
        self.side_to_move
    }

    /// The move count read from the last FEN.
    pub closed spec fn ply(&self) -> u64 {
        self.ply_moves
    }

    /// The search configuration last set.
    pub closed spec fn control(&self) -> Option<SearchConfiguration> {
        self.search_control
    }

    /// The flag that stops a running search.
    pub closed spec fn stop(&self) -> Arc<AtomicBool> {
        self.stop_flag
    }

    /// The moves made and not taken back, oldest first.
    pub closed spec fn moves_played(&self) -> Seq<Move> {
        self.history@
    }

    /// The game's invariant: a well-formed board.
    pub open spec fn wf(&self) -> bool {
        self.board_state().wf()
    }

    /// Creates a game on an empty board with the given keys and table,
    /// white to move.
    pub fn new(zobrist_keys: Arc<Zobrist>, transposition_table: Arc<TranspositionTable>) -> (r: Self)
        requires
            transposition_table.wf(),
        ensures
            r.wf(),
            r.ply() == 0,
            r.side() == Color::White,
            r.control() is None,
            r.board_state().board_squares@ == board_from(Seq::new(64, |k: int| Piece::EmptySquare)),
            r.board_state().castling_rights == no_rights(),
            r.board_state().en_passant_target is None,
            r.board_state().zobrist == zobrist_keys,
            r.board_state().transposition_table == transposition_table,
            r.moves_played() == Seq::<Move>::empty(),
    {
        let mut board = ChessBoard::new(zobrist_keys, transposition_table);
        let empty: [Piece; 64] = [Piece::EmptySquare; 64];
        assert(empty@ =~= Seq::new(64, |k: int| Piece::EmptySquare));
        board.set_board(&empty, Color::White);
        GameState {
            ply_moves: 0,
            side_to_move: Color::White,
            search_control: None,
            stop_flag: Arc::new(AtomicBool::new(false)),
            board,
            history: Vec::new(),
        }
    }

    /// Sets up the standard chess starting position, FEN
    /// `rnbqkbnr/pppppppp/8/8/8/8/PPPPPPPP/RNBQKBNR w KQkq - 0 1`.
    pub fn start_position(&mut self)
        requires
            old(self).wf(),
        ensures
            final(self).wf(),
            fen_applied(*old(self), *final(self), tokens("rnbqkbnr/pppppppp/8/8/8/8/PPPPPPPP/RNBQKBNR w KQkq - 0 1"@)),
            final(self).side() == Color::White,
            final(self).board_state().castling_rights == (CastlingRights {
                white_queenside: true,
                white_kingside: true,
                black_queenside: true,
                black_kingside: true,
            }),
            final(self).board_state().en_passant_target is None,
    {
        let ghost g0 = *self;
        let fen_start_pos = "rnbqkbnr/pppppppp/8/8/8/8/PPPPPPPP/RNBQKBNR w KQkq - 0 1";
        self.set_fen_position(fen_start_pos);
        proof {
            start_position::lemma_start_position_fixed(g0, *self, g0, *self);
        }
    }

    /// Sets the time control and search parameters.
    pub fn set_time_control(&mut self, sc: &SearchConfiguration)
        ensures
            final(self).control() matches Some(c) && c.same_as(sc),
            final(self).board_state() == old(self).board_state(),
            final(self).side() == old(self).side(),
            final(self).ply() == old(self).ply(),
            final(self).stop() == old(self).stop(),
    {
        self.search_control = Some(sc.clone());
    }

    /// Sets up the position from a FEN string, `<placement> <side>
    /// <castling> <en passant> <halfmove> <fullmove>`, and returns whether
    /// the whole string was read (see [`fen_applied`]).
    pub fn set_fen_position(&mut self, fen_str: &str) -> (r: bool)
        requires
            old(self).wf(),
        ensures
            final(self).wf(),
            r == fen_accepted(tokens(fen_str@)),
            fen_applied(*old(self), *final(self), tokens(fen_str@)),
    {
        let n = fen_str.unicode_len();
        proof {
            fen::lemma_tokens_len(fen_str@, 0);
            assert(window(tokens(fen_str@), 0, usize::MAX as int) =~= tokens(fen_str@));
        }
        self.read_fen(fen_str, 0, usize::MAX)
    }

    /// Sets up the position from the fields `k0` to `k0 + count - 1` of
    /// `fen_str` read as a FEN string (see [`fen_applied`]), and returns
    /// whether they were read whole.
    pub(crate) fn read_fen(&mut self, fen_str: &str, k0: usize, count: usize) -> (r: bool)
        requires
            old(self).wf(),
        ensures
            final(self).wf(),
            r == fen_accepted(window(tokens(fen_str@), k0 as int, count as int)),
            fen_applied(*old(self), *final(self), window(tokens(fen_str@), k0 as int, count as int)),
    {
        let ghost t = window(tokens(fen_str@), k0 as int, count as int);
        let (a0, b0) = match window_field(fen_str, k0, count, 0) {
            Some(f) => f,
            None => return false,
        };
        let (squares, status) = parse_placement(fen_str, a0, b0);
        if status != 0 {
            return false;
        }
        let side = match window_field(fen_str, k0, count, 1) {
            Some((a1, b1)) => parse_side(fen_str, a1, b1),
            None => None,
        };
        let board_side = match side {
            Some(c) => c,
            None => self.side_to_move,
        };
        self.board.set_board(&squares, board_side);
        let side = match side {
            Some(c) => c,
            None => return false,
        };
        self.side_to_move = side;
        let rights = match window_field(fen_str, k0, count, 2) {
            Some((a2, b2)) => match parse_castling(fen_str, a2, b2) {
                Some(r) => r,
                None => return false,
            },
            None => CastlingRights {
                white_queenside: false,
                white_kingside: false,
                black_queenside: false,
                black_kingside: false,
            },
        };
        self.board.set_castling_rights(&rights);
        self.board.hash = self.board.zobrist_hash(side);
        let (a3, b3) = match window_field(fen_str, k0, count, 3) {
            Some(f) => f,
            None => return false,
        };
        match parse_en_passant(fen_str, a3, b3) {
            None => return false,
            Some(None) => self.board.en_passant_target = None,
            Some(Some(square)) => self.board.set_en_passant_square(square),
        }
        self.board.hash = self.board.zobrist_hash(side);
        let (a4, b4) = match window_field(fen_str, k0, count, 4) {
            Some(f) => f,
            None => return false,
        };
        let half_moves = match parse_number(fen_str, a4, b4) {
            Some(n) => n,
            None => return false,
        };
        let (a5, b5) = match window_field(fen_str, k0, count, 5) {
            Some(f) => f,
            None => return false,
        };
        let full_moves = match parse_number(fen_str, a5, b5) {
            Some(n) => n,
            None => return false,
        };
        let total_moves = match half_moves.checked_add(full_moves) {
            Some(n) => n,
            None => return false,
        };
        self.ply_moves = total_moves;
        true
    }

    /// The move that a UCI string names on the board (see [`parsed_uci`]).
    pub fn create_move(&self, algebraic_notation: &str) -> (r: Option<Move>)
        requires
            self.wf(),
        ensures
            r == parsed_uci(self.board_state(), algebraic_notation@),
    {
        self.board.from_uci(algebraic_notation)
    }

    /// Makes the move a UCI string names, when it names a move that fits
    /// the board, and passes the turn; otherwise nothing changes.
    ///
    /// A move that names no piece on its origin, a square to itself, a
    /// castling without the rook on its square or a promotion of a piece
    /// other than a pawn does not fit the board (see [`Move::fits`]) and is
    /// ignored: making it would leave the piece lists and the hash out of
    /// step with the squares, which every later move generation relies on.
    pub fn make_move(&mut self, algebraic_notation: &str)
        requires
            old(self).wf(),
        ensures
            move_made(*old(self), *final(self), algebraic_notation@),
    {
        match self.create_move(algebraic_notation) {
            Some(mv) => {
                if mv.fits_board(&self.board) {
                    self.board.make_move(&mv);
                    self.side_to_move = self.side_to_move.opposite();
                    self.history.push(mv);
                }
            },
            None => {},
        }
    }

    /// Takes back the last move made, when the UCI string names it and it
    /// can be taken back on the board, and passes the turn back; otherwise
    /// nothing changes.
    pub fn unmake_move(&mut self, algebraic_notation: &str)
        requires
            old(self).wf(),
        ensures
            final(self).wf(),
            final(self).ply() == old(self).ply(),
            final(self).control() == old(self).control(),
            final(self).stop() == old(self).stop(),
            ({
                let played = old(self).moves_played();
                if played.len() > 0 && played.last().uci() == algebraic_notation@ && played.last().undoable(
                    &old(self).board_state(),
                ) {
                    &&& unmade(old(self).board_state(), final(self).board_state(), played.last())
                    &&& final(self).side() == old(self).side().spec_opposite()
                    &&& final(self).moves_played() == played.drop_last()
                } else {
                    *final(self) == *old(self)
                }
            }),
    {
        let n = self.history.len();
        if n == 0 {
            return;
        }
        let mv = self.history[n - 1];
        if !mv.undoable_on(&self.board) {
            return;
        }
        let text = self.board.move_to_uci(&mv);
        let len = text.as_str().unicode_len();
        if !fen::token_is(text.as_str(), 0, len, algebraic_notation) {
            proof {
                assert(text@.subrange(0, len as int) =~= text@);
            }
            return;
        }
        proof {
            assert(text@.subrange(0, len as int) =~= text@);
        }
        self.board.unmake_move(&mv);
        self.side_to_move = self.side_to_move.opposite();
        self.history.pop();
        proof {
            assert(self.history@ =~= old(self).history@.drop_last());
        }
    }

    /// The legal moves of the side to move, in UCI notation, in the order
    /// they are generated.
    pub fn generate_moves(&mut self) -> (r: Vec<String>)
        requires
            old(self).wf(),
        ensures
            *final(self) == *old(self),
            r@.len() == legal_moves(old(self).board_state(), old(self).board_state().piece_list, old(self).side()).len(),
            forall|i: int|
                0 <= i < r@.len() ==> (#[trigger] r@[i])@ == legal_moves(
                    old(self).board_state(),
                    old(self).board_state().piece_list,
                    old(self).side(),
                )[i].uci(),
    {
        let moves = self.board.generate_moves(self.side_to_move);
        let mut move_ucis: Vec<String> = Vec::new();
        let mut i: usize = 0;
        while i < moves.len()
            invariant
                self.wf(),
                i <= moves@.len(),
                crate::game_state::board::piece_list::movegen::all_fit(moves@, self.board),
                move_ucis@.len() == i,
                forall|k: int| 0 <= k < i ==> (#[trigger] move_ucis@[k])@ == moves@[k].uci(),
            decreases moves@.len() - i,
        {
            assert(moves@[i as int].fits(&self.board));
            let uci = self.board.move_to_uci(&moves[i]);
            move_ucis.push(uci);
            i = i + 1;
        }
        move_ucis
    }

    /// Asks a running search to stop.
    pub fn stop_search(&self) {
        request_stop(&self.stop_flag);
    }

    /// Counts the leaf nodes of the legal move tree of depth `depth` from
    /// the current position (see [`perft_nodes`]), stopping at `u64::MAX`.
    /// The game is given back in the position it had.
    pub fn perft_debug(&mut self, depth: u64) -> (r: u64)
        requires
            old(self).wf(),
        ensures
            restored(final(self).board_state(), old(self).board_state()),
            final(self).side() == old(self).side(),
            final(self).ply() == old(self).ply(),
            final(self).control() == old(self).control(),
            final(self).stop() == old(self).stop(),
            r == saturated(perft_nodes(old(self).board_state(), old(self).side(), depth as nat)),
    {
        count_leaves(&mut self.board, self.side_to_move, depth)
    }

    /// For each legal move of the side to move, in UCI notation, the leaf
    /// nodes of the tree of depth `depth - 1` below it (the per-move lines
    /// of a perft report). The game is given back in the position it had.
    pub fn perft_divide(&mut self, depth: u64) -> (r: Vec<(String, u64)>)
        requires
            old(self).wf(),
            depth >= 1,
        ensures
            restored(final(self).board_state(), old(self).board_state()),
            final(self).side() == old(self).side(),
            final(self).ply() == old(self).ply(),
            final(self).control() == old(self).control(),
            final(self).stop() == old(self).stop(),
            r@.len() == legal_moves(old(self).board_state(), old(self).board_state().piece_list, old(self).side()).len(),
            forall|i: int|
                0 <= i < r@.len() ==> {
                    let m = legal_moves(old(self).board_state(), old(self).board_state().piece_list, old(self).side())[i];
                    &&& (#[trigger] r@[i]).0@ == m.uci()
                    &&& can_make(old(self).board_state(), m)
                    &&& r@[i].1 == saturated(
                        perft_nodes(after_move(old(self).board_state(), m), old(self).side().spec_opposite(), (depth - 1) as nat),
                    )
                },
    {
        let ghost b0 = self.board;
        let counts = count_leaves_per_move(&mut self.board, self.side_to_move, depth);
        let mut lines: Vec<(String, u64)> = Vec::new();
        let mut i: usize = 0;
        proof {
            crate::game_state::board::search::lemma_fits_same_position(
                legal_moves(b0, b0.piece_list, self.side_to_move),
                b0,
                self.board,
            );
        }
        while i < counts.len()
            invariant
                i <= counts@.len(),
                self.board.board_width == 10,
                counts@.len() == legal_moves(b0, b0.piece_list, self.side_to_move).len(),
                crate::game_state::board::piece_list::movegen::all_fit(legal_moves(b0, b0.piece_list, self.side_to_move), self.board),
                forall|k: int| 0 <= k < counts@.len() ==> {
                    let m = legal_moves(b0, b0.piece_list, self.side_to_move)[k];
                    &&& (#[trigger] counts@[k]).0 == m
                    &&& can_make(b0, m)
                    &&& counts@[k].1 == saturated(perft_nodes(after_move(b0, m), self.side_to_move.spec_opposite(), (depth - 1) as nat))
                },
                lines@.len() == i,
                forall|k: int| 0 <= k < i ==> {
                    &&& (#[trigger] lines@[k]).0@ == counts@[k].0.uci()
                    &&& lines@[k].1 == counts@[k].1
                },
            decreases counts@.len() - i,
        {
            let (mv, nodes) = counts[i];
            assert(legal_moves(b0, b0.piece_list, self.side_to_move)[i as int].fits(&self.board));
            let uci = self.board.move_to_uci(&mv);
            lines.push((uci, nodes));
            i = i + 1;
        }
        lines
    }

    /// Replaces the transposition table with a new, empty one of the given
    /// size in megabytes.
    pub fn resize_hash_table(&mut self, size_mb: usize)
        requires
            old(self).wf(),
            size_mb * 1024 * 1024 <= usize::MAX,
        ensures
            final(self).wf(),
            final(self).board_state().transposition_table.spec_size() == board::transposition_table::entries_for_megabytes(size_mb as int),
            final(self).board_state().board_squares == old(self).board_state().board_squares,
            final(self).board_state().castling_rights == old(self).board_state().castling_rights,
            final(self).board_state().en_passant_target == old(self).board_state().en_passant_target,
            final(self).board_state().hash == old(self).board_state().hash,
            final(self).board_state().zobrist == old(self).board_state().zobrist,
            final(self).side() == old(self).side(),
            final(self).ply() == old(self).ply(),
            final(self).control() == old(self).control(),
            final(self).stop() == old(self).stop(),
    {
        let table = TranspositionTable::new(size_mb);
        let shared = Arc::new(table);
        let ghost b0 = self.board;
        self.board.transposition_table = shared;
        assert(self.board.board_squares@ == b0.board_squares@);
        assert forall|q: int| 0 <= q < 120 implies (board::is_inner(q) <==> #[trigger] self.board.at(q) != Piece::SentinelSquare) by {
            assert(self.board.at(q) == b0.at(q));
        }
    }

    /// The board.
    pub fn get_chess_board(&self) -> (r: &ChessBoard)
        ensures
            *r == self.board_state(),
    {
        &self.board
    }

    /// The side to move.
    pub fn get_side_to_move(&self) -> (r: Color)
        ensures
            r == self.side(),
    {
        self.side_to_move
    }

    /// The move count read from the last FEN.
    pub fn get_ply_moves(&self) -> (r: u64)
        ensures
            r == self.ply(),
    {
        self.ply_moves
    }

    /// The search configuration last set.
    pub fn get_search_control(&self) -> (r: &Option<SearchConfiguration>)
        ensures
            *r == self.control(),
    {
        &self.search_control
    }

    /// The flag that stops a running search, shared.
    pub fn get_stop_flag(&self) -> (r: Arc<AtomicBool>)
        ensures
            r == self.stop(),
    {
        board::position::share(&self.stop_flag)
    }
}

/// The effect of reading a FEN whose fields are `t`. The fields are
/// applied in order and reading stops at the first invalid one: the
/// placement sets the board (the hash then computed for the side read next,
/// if it is valid, with the castling rights and en passant target the board
/// had), the side field the side to move, the castling field the rights
/// (none when the field is missing), an en passant square the target (`-`
/// leaves it), and the two counters, read only when all is valid, the move
/// count as their sum. Nothing changes when the placement is invalid.
pub open spec fn fen_applied(before: GameState, after: GameState, t: Seq<Seq<char>>) -> bool {
    let nb = after.board_state();
    let ob = before.board_state();
    &&& !fen_placed(t) ==> after == before
    &&& fen_placed(t) ==> {
        &&& nb.board_squares@ == board_from(placement(t[0]).2)
        &&& nb.zobrist == ob.zobrist
        &&& nb.transposition_table == ob.transposition_table
        &&& nb.hash == position_hash(nb, if fen_sided(t) { side_field(t[1]).unwrap() } else { before.side() })
        &&& after.side() == if fen_sided(t) { side_field(t[1]).unwrap() } else { before.side() }
        &&& nb.castling_rights == if fen_castled(t) { fen_rights(t) } else { ob.castling_rights }
        &&& nb.en_passant_target == if fen_passed(t) && en_passant_field(t[3]) is Some {
            match en_passant_field(t[3]).unwrap() {
                Some(sq) => Some(inner_of(sq) as i16),
                None => None,
            }
        } else {
            ob.en_passant_target
        }
        &&& after.ply() == if fen_accepted(t) {
            (number_field(t[4]).unwrap() + number_field(t[5]).unwrap()) as u64
        } else {
            before.ply()
        }
        &&& after.control() == before.control()
        &&& after.stop() == before.stop()
    }
}

/// Reading a FEN whose castling field is made of the letters `K`, `Q`, `k`,
/// `q` gives the game exactly the rights those letters name: white may
/// castle kingside exactly when `K` occurs, queenside exactly when `Q`
/// occurs, and black likewise with `k` and `q`.
pub proof fn lemma_fen_castling_rights(before: GameState, after: GameState, t: Seq<Seq<char>>)
    requires
        fen_applied(before, after, t),
        fen_sided(t),
        t.len() >= 3,
        fen::castling_letters(t[2]),
    ensures
        after.board_state().castling_rights == fen::rights_named(t[2]),
        after.board_state().castling_rights.white_kingside <==> t[2].contains('K'),
        after.board_state().castling_rights.white_queenside <==> t[2].contains('Q'),
        after.board_state().castling_rights.black_kingside <==> t[2].contains('k'),
        after.board_state().castling_rights.black_queenside <==> t[2].contains('q'),
{
    fen::lemma_castling_field_letters(t[2]);
}

/// The effect of making the move a UCI string names (see
/// [`GameState::make_move`]): when it names a move that fits the board, the
/// move is made and the turn passes; otherwise nothing changes.
pub open spec fn move_made(before: GameState, after: GameState, uci: Seq<char>) -> bool {
    &&& after.wf()
    &&& after.ply() == before.ply()
    &&& after.control() == before.control()
    &&& after.stop() == before.stop()
    &&& match parsed_uci(before.board_state(), uci) {
        Some(mv) if mv.fits(&before.board_state()) => {
            &&& made(before.board_state(), after.board_state(), mv)
            &&& after.side() == before.side().spec_opposite()
            &&& after.moves_played() == before.moves_played().push(mv)
        },
        _ => after == before,
    }
}

/// The effect of making the moves of a list of UCI strings one after the
/// other (see [`move_made`]).
pub open spec fn moves_made(before: GameState, after: GameState, ucis: Seq<Seq<char>>) -> bool
    decreases ucis.len(),
{
    if ucis.len() == 0 {
        after == before
    } else {
        exists|mid: GameState| moves_made(before, mid, ucis.drop_last()) && move_made(mid, after, ucis.last())
    }
}

/// Taking back the move that [`GameState::make_move`] just made (the
/// effect [`GameState::unmake_move`] states when the text names it) gives
/// back the position, the side to move and the list of moves played before
/// it.
pub proof fn lemma_make_then_unmake(g0: GameState, g1: GameState, g2: GameState, uci: Seq<char>)
    requires
        g0.wf(),
        move_made(g0, g1, uci),
        g1.moves_played().len() == g0.moves_played().len() + 1,
        unmade(g1.board_state(), g2.board_state(), g1.moves_played().last()),
        g2.side() == g1.side().spec_opposite(),
        g2.moves_played() == g1.moves_played().drop_last(),
    ensures
        same_position(g2.board_state(), g0.board_state()),
        g2.side() == g0.side(),
        g2.moves_played() == g0.moves_played(),
{
    let mv = parsed_uci(g0.board_state(), uci)->0;
    assert(g1.moves_played() == g0.moves_played().push(mv));
    assert(g1.moves_played().last() == mv);
    board::lemma_make_visit_unmake(g0.board_state(), g1.board_state(), g1.board_state(), g2.board_state(), mv);
    assert(g2.moves_played() =~= g0.moves_played());
}

impl Default for GameState {
    /// An empty board, white to move, with new Zobrist keys and a
    /// 256-megabyte transposition table.
    fn default() -> (r: Self)
        ensures
            r.wf(),
            r.ply() == 0,
            r.side() == Color::White,
            r.control() is None,
            r.board_state().board_squares@ == board_from(Seq::new(64, |k: int| Piece::EmptySquare)),
            r.board_state().castling_rights == no_rights(),
            r.board_state().en_passant_target is None,
    {
        GameState::new(Arc::new(Zobrist::new()), Arc::new(TranspositionTable::new(256)))
    }
}

} // verus!
