//! A verified two-player Tetris game engine.
//!
//! The engine covers piece data, collision queries, movement and rotation
//! with corrective nudges, line clearing, garbage injection, scoring, and
//! game-over detection on a fixed 10 x 20 grid. Terminal rendering and the
//! event loop live outside the engine and consume its observable state.

pub mod block;
pub mod board;
pub mod color;
pub mod tetris_block;
mod rng;

pub use color::Color;
