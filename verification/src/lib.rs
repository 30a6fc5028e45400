//! The matching engine of a falling-gems puzzle: a grid of coloured cells in
//! which a column of three gems falls, is shifted and rotated by the player,
//! settles under gravity and disappears in lines of three.
//!
//! The functions are verified against contracts over the mathematical model of
//! the grid (`grid`), of the board (`model`) and of the gem draw (`spawn`);
//! `laws` proves what follows from them for every board, and `play` what
//! holds of the boards that a game can reach. Only the call into the random
//! source, in `spawn`, is taken on trust.

pub mod board;
pub mod grid;
pub mod laws;
pub mod model;
pub mod play;
pub mod spawn;
