//! EnRust: a UCI chess engine built on a 12x10 mailbox board with piece lists.
//!
//! The library holds the board representation, move generation, move
//! execution and reversal, Zobrist hashing, the transposition table, the
//! evaluation functions and the search algorithms. Program entry, standard
//! input/output and threads live in the application crate around it.

pub mod game_state;
