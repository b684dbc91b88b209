//! Tic-tac-toe on a 3x3 grid: the board with its rules, and an exhaustive
//! minimax search that picks optimal moves.

pub mod board;
pub mod input;
pub mod search;
