//! Move-generation and search core of a two-player chess engine.
//!
//! The crate models a chess position as a plain 8x8 grid of piece values with
//! an off-board sentinel, generates the pseudo-legal successor positions for a
//! side to move, and derives a computer player's search parameters from its
//! skill level. All indexing is total: coordinates outside the board read as
//! the sentinel and absorb writes, so setup and exploration code never fault.

pub mod ai;
pub mod board;
