//! A two-player Connect-Four rules engine.
//!
//! The [`board::Board`] type owns a fixed-size grid of cells, applies
//! gravity drops, and answers the terminal-state queries (winner, full
//! board). Turn tracking, input, and presentation belong to the caller.

pub mod board;
pub mod grid;
pub mod outcome;
pub mod player;
