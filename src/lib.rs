//! Board engine of a two-player coin pusher merge puzzle.
//!
//! Each player owns a grid of typed tokens. A player pulls a vertical run of
//! like tokens into a hand, pushes them back onto the board, and connected
//! clusters of one kind merge upward through a value ladder.
pub mod catalog;
pub mod spawn;
pub mod grid;
pub mod cluster;
pub mod board;
pub mod game;
