//! Rules engine and render-state projector for a grid-based mine-finding
//! puzzle: board model, neighbor topology, mine placement, flood reveal,
//! win/loss evaluation, and the projection of engine state into display
//! glyphs.

pub mod board;
pub mod flood;
pub mod game;
pub mod laws;
pub mod render;
