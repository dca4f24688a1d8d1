//! The board game Sim on the complete graph of six vertices: board state,
//! triangle detection and an exhaustive search for forced wins.

pub mod game;
pub mod player;
pub mod session;
