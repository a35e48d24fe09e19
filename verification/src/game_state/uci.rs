//! The UCI protocol's commands: reading a command line and applying it to
//! the game. What a command asks to print or to run in the background
//! (identification, the board, perft reports, searches) is returned to the
//! caller as an action.

use vstd::prelude::*;

use crate::game_state::{fen_applied, moves_made, move_made, GameState, SearchConfiguration};
use crate::game_state::board::ChessBoard;
use crate::game_state::board::moves::{parsed_uci, Move};
use crate::game_state::fen::{field_at, lemma_tokens_len, number_at, number_field, token_is, tokens, window};

verus! {

/// The parameters a `go` command sets.
pub struct GoParams {
    pub wtime: Option<u64>,
    pub btime: Option<u64>,
    pub winc: Option<u64>,
    pub binc: Option<u64>,
    pub movestogo: Option<u64>,
    pub movetime: Option<u64>,
    pub depth: Option<u64>,
    pub nodes: Option<u64>,
    pub infinite: bool,
    pub searchmoves: Option<Seq<Move>>,
    pub ponder: bool,
    pub mate: Option<u32>,
}

/// The parameters a search configuration holds.
pub open spec fn config_params(c: SearchConfiguration) -> GoParams {
    GoParams {
        wtime: c.wtime,
        btime: c.btime,
        winc: c.winc,
        binc: c.binc,
        movestogo: c.movestogo,
        movetime: c.movetime,
        depth: c.depth,
        nodes: c.nodes,
        infinite: c.infinite,
        searchmoves: match c.searchmoves {
            Some(v) => Some(v@),
            None => None,
        },
        ponder: c.ponder,
        mate: c.mate,
    }
}

/// No parameter set.
pub open spec fn no_params() -> GoParams {
    GoParams {
        wtime: None,
        btime: None,
        winc: None,
        binc: None,
        movestogo: None,
        movetime: None,
        depth: None,
        nodes: None,
        infinite: false,
        searchmoves: None,
        ponder: false,
        mate: None,
    }
}

/// What a `go` command asks for: a perft run (to a depth, if one was
/// readable) or a search with the parameters read.
pub enum GoOutcome {
    Perft(Option<u64>),
    Search(GoParams),
}

/// What the caller of [`handle_go_command`] is to do.
#[derive(PartialEq, Eq, Structural, Debug, Clone, Copy)]
pub enum GoAction {
    /// Run perft to this depth and print its report.
    Perft(u64),
    /// Nothing (`perft` without a depth).
    Idle,
    /// Start a search with the configuration just set.
    Search,
}

/// The end of the run of fields from `j` on that name moves on the board.
pub open spec fn moves_end(b: ChessBoard, toks: Seq<Seq<char>>, j: int) -> int
    decreases toks.len() - j,
{
    if 0 <= j < toks.len() && parsed_uci(b, toks[j]) is Some {
        moves_end(b, toks, j + 1)
    } else {
        j
    }
}

/// The run of moves is no shorter than nothing and ends within the fields.
pub proof fn lemma_moves_end(b: ChessBoard, toks: Seq<Seq<char>>, j: int)
    requires
        0 <= j <= toks.len(),
    ensures
        j <= moves_end(b, toks, j) <= toks.len(),
    decreases toks.len() - j,
{
    if j < toks.len() && parsed_uci(b, toks[j]) is Some {
        lemma_moves_end(b, toks, j + 1);
    }
}

/// The moves the fields `lo` to `hi - 1` name on the board.
pub open spec fn moves_between(b: ChessBoard, toks: Seq<Seq<char>>, lo: int, hi: int) -> Seq<Move> {
    Seq::new((hi - lo) as nat, |k: int| parsed_uci(b, toks[lo + k]).unwrap())
}

/// The number field with index `i`, if there is one and it is a number.
pub open spec fn number_or_none(toks: Seq<Seq<char>>, i: int) -> Option<u64> {
    if 0 <= i < toks.len() {
        number_field(toks[i])
    } else {
        None
    }
}

/// A number field read as a `u32`.
pub open spec fn u32_field(toks: Seq<Seq<char>>, i: int) -> Option<u32> {
    match number_or_none(toks, i) {
        Some(v) => if v <= u32::MAX {
            Some(v as u32)
        } else {
            None
        },
        None => None,
    }
}

/// Reads the parameters of a `go` command from field `i` on. A limit
/// (`wtime`, `btime`, `winc`, `binc`, `movestogo`, `depth`, `nodes`,
/// `movetime`, `mate`) takes the next field, which is set when it is a
/// number; `infinite` and `ponder` set a flag; `searchmoves` takes the run
/// of fields that name moves; `perft` ends the command with the depth in
/// the next field; any other field is skipped.
pub open spec fn go_scan(b: ChessBoard, toks: Seq<Seq<char>>, i: int, p: GoParams) -> GoOutcome
    decreases toks.len() + 1 - i,
{
    if i < 0 || i >= toks.len() {
        GoOutcome::Search(p)
    } else {
        let tk = toks[i];
        let v = number_or_none(toks, i + 1);
        if tk == "wtime"@ {
            go_scan(b, toks, i + 2, if v is Some { GoParams { wtime: v, ..p } } else { p })
        } else if tk == "btime"@ {
            go_scan(b, toks, i + 2, if v is Some { GoParams { btime: v, ..p } } else { p })
        } else if tk == "winc"@ {
            go_scan(b, toks, i + 2, if v is Some { GoParams { winc: v, ..p } } else { p })
        } else if tk == "binc"@ {
            go_scan(b, toks, i + 2, if v is Some { GoParams { binc: v, ..p } } else { p })
        } else if tk == "movestogo"@ {
            go_scan(b, toks, i + 2, if v is Some { GoParams { movestogo: v, ..p } } else { p })
        } else if tk == "depth"@ {
            go_scan(b, toks, i + 2, if v is Some { GoParams { depth: v, ..p } } else { p })
        } else if tk == "nodes"@ {
            go_scan(b, toks, i + 2, if v is Some { GoParams { nodes: v, ..p } } else { p })
        } else if tk == "movetime"@ {
            go_scan(b, toks, i + 2, if v is Some { GoParams { movetime: v, ..p } } else { p })
        } else if tk == "infinite"@ {
            go_scan(b, toks, i + 1, GoParams { infinite: true, ..p })
        } else if tk == "searchmoves"@ {
            proof {
                lemma_moves_end(b, toks, i + 1);
            }
            let e = moves_end(b, toks, i + 1);
            go_scan(b, toks, e, GoParams { searchmoves: Some(moves_between(b, toks, i + 1, e)), ..p })
        } else if tk == "ponder"@ {
            go_scan(b, toks, i + 1, GoParams { ponder: true, ..p })
        } else if tk == "mate"@ {
            let m = u32_field(toks, i + 1);
            go_scan(b, toks, i + 2, if m is Some { GoParams { mate: m, ..p } } else { p })
        } else if tk == "perft"@ {
            GoOutcome::Perft(v)
        } else {
            go_scan(b, toks, i + 1, p)
        }
    }
}

/// The effect of a `go` command whose parameters start at field `first`:
/// for perft, nothing changes and the action is the run (`Idle` without a
/// depth); for a search, the configuration read is set and the action is
/// the search.
pub open spec fn go_applied(before: GameState, after: GameState, toks: Seq<Seq<char>>, first: int, r: GoAction) -> bool {
    &&& after.wf()
    &&& match go_scan(before.board_state(), toks, first, no_params()) {
        GoOutcome::Perft(d) => {
            &&& after == before
            &&& r == match d {
                Some(n) => GoAction::Perft(n),
                None => GoAction::Idle,
            }
        },
        GoOutcome::Search(p) => {
            &&& r == GoAction::Search
            &&& after.control() matches Some(c) && config_params(c) == p
            &&& after.board_state() == before.board_state()
            &&& after.side() == before.side()
            &&& after.ply() == before.ply()
            &&& after.stop() == before.stop()
        },
    }
}

/// One step of reading a `go` command: the next field to read, or the
/// end of the command at `perft`.
pub enum GoStep {
    Next(usize),
    Perft(Option<u64>),
}

/// Reads the field with index `i` of a `go` command (and the fields it
/// takes) into `sc` (see [`go_scan`]).
#[verifier::rlimit(40)]
fn go_step(game_state: &GameState, command: &str, i: usize, a: usize, e: usize, sc: &mut SearchConfiguration) -> (r: GoStep)
    requires
        game_state.wf(),
        i < tokens(command@).len(),
        tokens(command@).len() <= command@.len(),
        a <= e <= command@.len(),
        tokens(command@)[i as int] == command@.subrange(a as int, e as int),
    ensures
        go_scan(game_state.board_state(), tokens(command@), i as int, config_params(*old(sc))) == match r {
            GoStep::Next(j) => go_scan(game_state.board_state(), tokens(command@), j as int, config_params(*final(sc))),
            GoStep::Perft(d) => GoOutcome::Perft(d),
        },
        r matches GoStep::Next(j) ==> i < j <= command@.len(),
{
    let ghost b = game_state.board_state();
    let ghost toks = tokens(command@);
    let n = command.unicode_len();
    let next = i + 1;
    let after_value = if next < n {
        next + 1
    } else {
        next
    };
    let ghost p0 = config_params(*sc);
    let ghost v0 = number_or_none(toks, i + 1);
    if token_is(command, a, e, "wtime") {
        assert(toks[i as int] == "wtime"@);
        assert(go_scan(b, toks, i as int, p0) == go_scan(b, toks, i + 2, if v0 is Some { GoParams { wtime: v0, ..p0 } } else { p0 }));
        if let Some(v) = number_at(command, next) {
            sc.wtime = Some(v);
        }
        assert(config_params(*sc) == if v0 is Some { GoParams { wtime: v0, ..p0 } } else { p0 });
        assert(go_scan(b, toks, i + 2, config_params(*sc)) == go_scan(b, toks, after_value as int, config_params(*sc)));
        GoStep::Next(after_value)
    } else if token_is(command, a, e, "btime") {
        if let Some(v) = number_at(command, next) {
            sc.btime = Some(v);
        }
        GoStep::Next(after_value)
    } else if token_is(command, a, e, "winc") {
        if let Some(v) = number_at(command, next) {
            sc.winc = Some(v);
        }
        GoStep::Next(after_value)
    } else if token_is(command, a, e, "binc") {
        if let Some(v) = number_at(command, next) {
            sc.binc = Some(v);
        }
        GoStep::Next(after_value)
    } else if token_is(command, a, e, "movestogo") {
        if let Some(v) = number_at(command, next) {
            sc.movestogo = Some(v);
        }
        GoStep::Next(after_value)
    } else if token_is(command, a, e, "depth") {
        if let Some(v) = number_at(command, next) {
            sc.depth = Some(v);
        }
        GoStep::Next(after_value)
    } else if token_is(command, a, e, "nodes") {
        if let Some(v) = number_at(command, next) {
            sc.nodes = Some(v);
        }
        GoStep::Next(after_value)
    } else if token_is(command, a, e, "movetime") {
        if let Some(v) = number_at(command, next) {
            sc.movetime = Some(v);
        }
        GoStep::Next(after_value)
    } else if token_is(command, a, e, "infinite") {
        sc.infinite = true;
        GoStep::Next(next)
    } else if token_is(command, a, e, "searchmoves") {
        let moves = read_moves(game_state, command, next);
        let j = moves.1;
        sc.searchmoves = Some(moves.0);
        GoStep::Next(j)
    } else if token_is(command, a, e, "ponder") {
        sc.ponder = true;
        GoStep::Next(next)
    } else if token_is(command, a, e, "mate") {
        if let Some(v) = number_at(command, next) {
            if v <= 0xffff_ffff {
                sc.mate = Some(v as u32);
            }
        }
        GoStep::Next(after_value)
    } else if token_is(command, a, e, "perft") {
        GoStep::Perft(number_at(command, next))
    } else {
        GoStep::Next(next)
    }
}

/// Reads the run of fields from index `from` on that name moves on the
/// board: the moves and the index after the run.
fn read_moves(game_state: &GameState, command: &str, from: usize) -> (r: (Vec<Move>, usize))
    requires
        game_state.wf(),
        from <= tokens(command@).len(),
    ensures
        r.1 == moves_end(game_state.board_state(), tokens(command@), from as int),
        r.0@ == moves_between(game_state.board_state(), tokens(command@), from as int, r.1 as int),
        from <= r.1 <= tokens(command@).len(),
{
    let ghost b = game_state.board_state();
    let ghost toks = tokens(command@);
    let mut moves: Vec<Move> = Vec::new();
    let mut j: usize = from;
    let n = command.unicode_len();
    proof {
        lemma_moves_end(b, toks, from as int);
        lemma_tokens_len(command@, 0);
    }
    loop
        invariant
            game_state.wf(),
            b == game_state.board_state(),
            toks == tokens(command@),
            toks.len() <= n,
            from <= j <= toks.len(),
            moves_end(b, toks, from as int) == moves_end(b, toks, j as int),
            moves@ == moves_between(b, toks, from as int, j as int),
        ensures
            moves_end(b, toks, j as int) == j,
        decreases toks.len() - j,
    {
        let (a2, e2) = match field_at(command, j) {
            Some(f) => f,
            None => break,
        };
        let tok = command.substring_char(a2, e2);
        match game_state.create_move(tok) {
            Some(m) => {
                moves.push(m);
                assert(moves@ =~= moves_between(b, toks, from as int, j + 1));
                j = j + 1;
            },
            None => break,
        }
    }
    (moves, j)
}

/// Reads the parameters of a `go` command, the fields of `command` from
/// field `first` on (see [`go_scan`]): for `perft`, returns the depth to
/// run; otherwise sets the configuration read and returns
/// `GoAction::Search`.
pub fn handle_go_command(game_state: &mut GameState, command: &str, first: usize) -> (r: GoAction)
    requires
        old(game_state).wf(),
    ensures
        go_applied(*old(game_state), *final(game_state), tokens(command@), first as int, r),
{
    let ghost b = game_state.board_state();
    let ghost toks = tokens(command@);
    let n = command.unicode_len();
    proof {
        lemma_tokens_len(command@, 0);
    }
    let mut sc = SearchConfiguration::new();
    assert(config_params(sc) == no_params());
    let mut i: usize = first;
    loop
        invariant
            game_state.wf(),
            *game_state == *old(game_state),
            b == game_state.board_state(),
            toks == tokens(command@),
            toks.len() <= n,
            n == command@.len(),
            first <= i,
            i <= n || i == first,
            go_scan(b, toks, first as int, no_params()) == go_scan(b, toks, i as int, config_params(sc)),
        ensures
            i >= toks.len(),
        decreases n + 1 - i,
    {
        let (a, e) = match field_at(command, i) {
            Some(f) => f,
            None => break,
        };
        match go_step(game_state, command, i, a, e, &mut sc) {
            GoStep::Next(j) => {
                i = j;
            },
            GoStep::Perft(d) => {
                return match d {
                    Some(depth) => GoAction::Perft(depth),
                    None => GoAction::Idle,
                };
            },
        }
    }
    game_state.set_time_control(&sc);
    GoAction::Search
}

} // verus!

verus! {

/// The index of the first field from `k` on that is `moves`, or the number
/// of fields when there is none.
pub open spec fn moves_index(toks: Seq<Seq<char>>, k: int) -> int
    decreases toks.len() - k,
{
    if 0 <= k < toks.len() && toks[k] != "moves"@ {
        moves_index(toks, k + 1)
    } else {
        k
    }
}

/// The index of `moves` lies between `k` and the number of fields.
pub proof fn lemma_moves_index(toks: Seq<Seq<char>>, k: int)
    requires
        0 <= k <= toks.len(),
    ensures
        k <= moves_index(toks, k) <= toks.len(),
        moves_index(toks, k) < toks.len() ==> toks[moves_index(toks, k)] == "moves"@,
    decreases toks.len() - k,
{
    if k < toks.len() && toks[k] != "moves"@ {
        lemma_moves_index(toks, k + 1);
    }
}

/// The effect of a `position` command whose arguments start at field
/// `first`: `startpos` sets the starting position, `fen` reads the fields up
/// to `moves` (or the end) as a FEN; then the moves after `moves` are made
/// one after the other. Without arguments, or with others, nothing changes.
pub open spec fn position_applied(before: GameState, after: GameState, toks: Seq<Seq<char>>, first: int) -> bool {
    &&& after.wf()
    &&& if first < 0 || first >= toks.len() {
        after == before
    } else if toks[first] == "startpos"@ {
        exists|mid: GameState|
            {
                &&& mid.wf()
                &&& #[trigger] fen_applied(before, mid, tokens("rnbqkbnr/pppppppp/8/8/8/8/PPPPPPPP/RNBQKBNR w KQkq - 0 1"@))
                &&& if first + 1 < toks.len() && toks[first + 1] == "moves"@ {
                    moves_made(mid, after, toks.subrange(first + 2, toks.len() as int))
                } else {
                    after == mid
                }
            }
    } else if toks[first] == "fen"@ {
        exists|mid: GameState|
            {
                &&& mid.wf()
                &&& #[trigger] fen_applied(before, mid, toks.subrange(first + 1, moves_index(toks, first + 1)))
                &&& if moves_index(toks, first + 1) < toks.len() {
                    moves_made(mid, after, toks.subrange(moves_index(toks, first + 1) + 1, toks.len() as int))
                } else {
                    after == mid
                }
            }
    } else {
        after == before
    }
}

/// Makes the moves named by the fields of `command` from field `from` on,
/// one after the other (see [`moves_made`]).
pub fn apply_moves(game_state: &mut GameState, command: &str, from: usize)
    requires
        old(game_state).wf(),
        from <= tokens(command@).len(),
    ensures
        final(game_state).wf(),
        moves_made(*old(game_state), *final(game_state), tokens(command@).subrange(from as int, tokens(command@).len() as int)),
{
    let ghost toks = tokens(command@);
    let ghost g0 = *game_state;
    let n = command.unicode_len();
    proof {
        lemma_tokens_len(command@, 0);
        assert(toks.subrange(from as int, from as int) =~= Seq::<Seq<char>>::empty());
    }
    let mut j: usize = from;
    loop
        invariant
            game_state.wf(),
            toks == tokens(command@),
            toks.len() <= n,
            from <= j <= toks.len(),
            moves_made(g0, *game_state, toks.subrange(from as int, j as int)),
        ensures
            j == toks.len(),
        decreases toks.len() - j,
    {
        let (a, e) = match field_at(command, j) {
            Some(f) => f,
            None => break,
        };
        let tok = command.substring_char(a, e);
        let ghost prev = *game_state;
        game_state.make_move(tok);
        proof {
            let done = toks.subrange(from as int, j + 1);
            assert(done.drop_last() =~= toks.subrange(from as int, j as int));
            assert(done.last() == tok@);
            assert(move_made(prev, *game_state, done.last()));
            assert(moves_made(g0, prev, done.drop_last()));
        }
        j = j + 1;
    }
}

/// Applies a `position` command whose arguments are the fields of
/// `command` from field `first` on (see [`position_applied`]); returns
/// whether it had arguments.
pub fn handle_position_command(game_state: &mut GameState, command: &str, first: usize) -> (r: bool)
    requires
        old(game_state).wf(),
    ensures
        position_applied(*old(game_state), *final(game_state), tokens(command@), first as int),
        r == (first < tokens(command@).len()),
{
    let ghost toks = tokens(command@);
    let n = command.unicode_len();
    proof {
        lemma_tokens_len(command@, 0);
    }
    let (a, e) = match field_at(command, first) {
        Some(f) => f,
        None => return false,
    };
    if token_is(command, a, e, "startpos") {
        game_state.start_position();
        let ghost mid = *game_state;
        let with_moves = match field_at(command, first + 1) {
            Some((a1, e1)) => token_is(command, a1, e1, "moves"),
            None => false,
        };
        if with_moves {
            apply_moves(game_state, command, first + 2);
        }
        assert(mid.wf() && fen_applied(*old(game_state), mid, tokens("rnbqkbnr/pppppppp/8/8/8/8/PPPPPPPP/RNBQKBNR w KQkq - 0 1"@)));
        return true;
    }
    if token_is(command, a, e, "fen") {
        let mut k: usize = first + 1;
        proof {
            lemma_moves_index(toks, k as int);
        }
        loop
            invariant
                toks == tokens(command@),
                toks.len() <= n,
                first + 1 <= k <= toks.len(),
                moves_index(toks, first + 1) == moves_index(toks, k as int),
            ensures
                moves_index(toks, k as int) == k,
            decreases toks.len() - k,
        {
            match field_at(command, k) {
                Some((a2, e2)) => {
                    if token_is(command, a2, e2, "moves") {
                        break;
                    }
                    k = k + 1;
                },
                None => break,
            }
        }
        let ghost before = *game_state;
        game_state.read_fen(command, first + 1, k - (first + 1));
        assert(window(toks, first + 1, (k - (first + 1)) as int) =~= toks.subrange(first + 1, k as int));
        let ghost mid = *game_state;
        if k < n && field_at(command, k).is_some() {
            apply_moves(game_state, command, k + 1);
        }
        assert(mid.wf() && fen_applied(before, mid, toks.subrange(first + 1, moves_index(toks, first + 1))));
        return true;
    }
    true
}

/// What the caller of [`handle_command`] is to do.
#[derive(PartialEq, Eq, Structural, Debug, Clone, Copy)]
pub enum UciAction {
    /// `uci`: print the engine's identification.
    Identify,
    /// `isready`: print `readyok`.
    Ready,
    /// `quit`: leave the command loop.
    Quit,
    /// `position` without arguments: report it.
    NoPositionArgs,
    /// `go`: run what the command asks for.
    Go(GoAction),
    /// `print`: print the board.
    Print,
    /// An unknown command: report it.
    Unhandled,
    /// Nothing to print.
    Done,
}

/// The effect of a UCI command line whose fields are `toks`, dispatched on
/// its first field.
pub open spec fn command_applied(before: GameState, after: GameState, toks: Seq<Seq<char>>, r: UciAction) -> bool {
    if toks.len() == 0 {
        after == before && r == UciAction::Done
    } else {
        let k = toks[0];
        if k == "uci"@ {
            after == before && r == UciAction::Identify
        } else if k == "isready"@ {
            after == before && r == UciAction::Ready
        } else if k == "ucinewgame"@ {
            &&& after.wf()
            &&& fen_applied(before, after, tokens("rnbqkbnr/pppppppp/8/8/8/8/PPPPPPPP/RNBQKBNR w KQkq - 0 1"@))
            &&& r == UciAction::Done
        } else if k == "quit"@ {
            after == before && r == UciAction::Quit
        } else if k == "position"@ {
            &&& position_applied(before, after, toks, 1)
            &&& r == if 1 < toks.len() {
                UciAction::Done
            } else {
                UciAction::NoPositionArgs
            }
        } else if k == "go"@ {
            r matches UciAction::Go(g) && go_applied(before, after, toks, 1, g)
        } else if k == "stop"@ {
            after == before && r == UciAction::Done
        } else if k == "print"@ {
            after == before && r == UciAction::Print
        } else {
            after == before && r == UciAction::Unhandled
        }
    }
}

/// Applies one UCI command line to the game (see [`command_applied`]):
/// `uci`, `isready`, `ucinewgame`, `quit`, `position`, `go`, `stop` and
/// `print`; `stop` also sets the stop flag of a running search.
pub fn handle_command(game_state: &mut GameState, line: &str) -> (r: UciAction)
    requires
        old(game_state).wf(),
    ensures
        final(game_state).wf(),
        command_applied(*old(game_state), *final(game_state), tokens(line@), r),
{
    let (a, e) = match field_at(line, 0) {
        Some(f) => f,
        None => return UciAction::Done,
    };
    if token_is(line, a, e, "uci") {
        UciAction::Identify
    } else if token_is(line, a, e, "isready") {
        UciAction::Ready
    } else if token_is(line, a, e, "ucinewgame") {
        game_state.start_position();
        UciAction::Done
    } else if token_is(line, a, e, "quit") {
        UciAction::Quit
    } else if token_is(line, a, e, "position") {
        if handle_position_command(game_state, line, 1) {
            UciAction::Done
        } else {
            UciAction::NoPositionArgs
        }
    } else if token_is(line, a, e, "go") {
        UciAction::Go(handle_go_command(game_state, line, 1))
    } else if token_is(line, a, e, "stop") {
        game_state.stop_search();
        UciAction::Done
    } else if token_is(line, a, e, "print") {
        UciAction::Print
    } else {
        UciAction::Unhandled
    }
}

/// What a `setoption` command asks for (only the `Hash` option is known).
#[derive(PartialEq, Eq, Structural, Debug, Clone, Copy)]
pub enum SetOptionAction {
    /// The fields do not start with `name`.
    MissingName,
    /// `name` is followed by no option name.
    MissingOptionName,
    /// Resize the transposition table to this many megabytes.
    ResizeHash(u64),
    /// A `Hash` size outside `1 ..= 2048`.
    HashOutOfRange(u64),
    /// A `Hash` value that is not one number.
    InvalidHash,
    /// An option other than `Hash`.
    Unsupported,
}

/// The index of the first field `value` from the `i`-th on (the number of
/// fields when there is none).
pub open spec fn value_index(t: Seq<Seq<char>>, i: int) -> int
    decreases t.len() - i,
{
    if i < 0 || i >= t.len() {
        t.len() as int
    } else if t[i] == "value"@ {
        i
    } else {
        value_index(t, i + 1)
    }
}

/// What `setoption` with the fields `t` from the `k0`-th on asks for:
/// `name`, the option name up to the field `value`, then the value. The
/// name `Hash` with a value of one number from 1 to 2048 asks for a table
/// of that many megabytes.
pub open spec fn setoption_for(t: Seq<Seq<char>>, k0: int) -> SetOptionAction {
    if k0 < 0 || k0 >= t.len() || t[k0] != "name"@ {
        SetOptionAction::MissingName
    } else {
        let v = value_index(t, k0 + 1);
        if v == k0 + 1 {
            SetOptionAction::MissingOptionName
        } else if v == k0 + 2 && t[k0 + 1] == "Hash"@ {
            if v + 2 == t.len() {
                match number_field(t[v + 1]) {
                    Some(n) => if 1 <= n <= 2048 {
                        SetOptionAction::ResizeHash(n)
                    } else {
                        SetOptionAction::HashOutOfRange(n)
                    },
                    None => SetOptionAction::InvalidHash,
                }
            } else {
                SetOptionAction::InvalidHash
            }
        } else {
            SetOptionAction::Unsupported
        }
    }
}

/// Reads a `setoption` command whose fields after the command word start
/// at index `k0` (see [`setoption_for`]).
pub fn setoption_action(line: &str, k0: usize) -> (r: SetOptionAction)
    ensures
        r == setoption_for(tokens(line@), k0 as int),
{
    let ghost t = tokens(line@);
    let n = line.unicode_len();
    proof {
        lemma_tokens_len(line@, 0);
    }
    match field_at(line, k0) {
        Some((a, e)) => {
            if !token_is(line, a, e, "name") {
                return SetOptionAction::MissingName;
            }
        },
        None => return SetOptionAction::MissingName,
    }
    let mut v: usize = k0 + 1;
    loop
        invariant
            k0 + 1 <= v,
            v <= t.len(),
            t == tokens(line@),
            t.len() <= n,
            n == line@.len(),
            value_index(t, k0 + 1) == value_index(t, v as int),
        ensures
            v == value_index(t, k0 + 1),
        decreases t.len() - v,
    {
        match field_at(line, v) {
            Some((a, e)) => {
                if token_is(line, a, e, "value") {
                    break;
                }
                v = v + 1;
            },
            None => break,
        }
    }
    if v == k0 + 1 {
        return SetOptionAction::MissingOptionName;
    }
    let is_hash = match field_at(line, k0 + 1) {
        Some((a, e)) => token_is(line, a, e, "Hash"),
        None => false,
    };
    if v != k0 + 2 || !is_hash {
        return SetOptionAction::Unsupported;
    }
    if field_at(line, v).is_none() || v + 1 >= n {
        return SetOptionAction::InvalidHash;
    }
    if field_at(line, v + 2).is_some() || field_at(line, v + 1).is_none() {
        return SetOptionAction::InvalidHash;
    }
    match number_at(line, v + 1) {
        Some(n) => if 1 <= n && n <= 2048 {
            SetOptionAction::ResizeHash(n)
        } else {
            SetOptionAction::HashOutOfRange(n)
        },
        None => SetOptionAction::InvalidHash,
    }
}

} // verus!
