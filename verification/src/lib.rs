//! A Gomoku (five-in-a-row) engine on a 15x15 board.
//!
//! The `game` module holds the board state and the rules: move legality,
//! five-in-a-row detection and the full-board tie.  The `ai` module chooses
//! a move for the side to play by Monte-Carlo tree search under the UCT
//! selection rule.  The `cli` module parses textual coordinates such as
//! `C10`.  Every function is specified and verified; the only trust is a
//! thin wrapper around the system random-number generator.

pub mod ai;
pub mod cli;
pub mod game;
pub mod numeric;
pub mod random;
