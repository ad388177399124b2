//! A noughts-and-crosses engine: the board with its move rules and game state,
//! and an exhaustive minimax search that picks a side's best move.

pub mod game;
pub mod solver;
