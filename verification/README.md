# EnRust

A UCI chess engine built on a 12x10 mailbox board with piece lists, written
in Verus: the chess logic is verified against contracts, the program around
it is ordinary Rust.

## Layout

- `src/` — the verified library.
  - `game_state.rs`: the game (board, side to move, move count, search
    configuration, stop flag), FEN setup, moves by UCI notation, perft.
  - `game_state/fen.rs`: splitting text into fields and reading the FEN
    fields (placement, side, castling, en passant, counters).
  - `game_state/start_position.rs`: the start FEN reads whole, and setting
    up the start position gives the same squares, white to move, all four
    castling rights and no en passant target, whatever the game held
    (`lemma_start_position_fixed`).
  - `game_state/uci.rs`: the UCI commands (`position`, `go`, ...) as
    functions from a command line to a change of the game and an action.
  - `game_state/perft.rs`: counting the leaf nodes of the legal move tree.
  - `game_state/board*`: the board, moves and their encoding, piece lists,
    attacks, pins and move generation, Zobrist hashing, the transposition
    table, evaluation and the searches.
  - `game_state/board/piece_list/{safety,legality,pawn_legality,move_safety}.rs`:
    proofs that generated moves keep the mover's king out of check
    (`move_safety::lemma_generated_move_safe`); `completeness.rs`: every legal king step and
    every legal knight, bishop, rook and queen move is generated;
    `pawn_completeness.rs`: so is every legal pawn push or capture, en
    passant aside; `castling_completeness.rs`: so is every castling move
    the rules allow.
  - `game_state/board/incremental_hash.rs`: the hash that making a move
    updates stays the full Zobrist hash of the position
    (`lemma_make_move_full_hash`); reading a FEN sets the full hash of the
    new position.
  - `game_state/board/search/values.rs`: the values the searches compute
    when nothing interrupts them (plain negamax, fail-hard alpha-beta over
    the moves in search order); each search returns, beside its result, the
    ghost record of what it read from the stop flag and the transposition
    table, and when every flag reading was false and every probe missed,
    the result is that value; `alpha_beta_law.rs`: in the full window the
    alpha-beta value is the negamax value (`lemma_alpha_beta_is_negamax`),
    and in any window it agrees with negamax as fail-hard alpha-beta does.
  - `game_state/board/uci_roundtrip.rs`: every generated move reads back
    as itself from its UCI text (`lemma_generated_move_reads_back`).
  - `game_state/board/piece_list/uniqueness.rs`: no two generated moves
    share origin, target and promotion (`lemma_generated_moves_distinct`).
- `app/main.rs` — the program: the UCI loop on standard input and output,
  the search thread and its timer, and the debugging printouts.
- `tests/` — tests of the library.
