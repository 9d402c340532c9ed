//! Ultimate Tic-Tac-Toe engine: a bitboard state machine for the 9x9 game
//! together with a Monte Carlo Tree Search move picker.

pub mod board;
pub mod mcts;
