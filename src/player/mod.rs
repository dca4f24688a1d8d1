//! The computer players: each proposes the next edge to color.
use vstd::prelude::*;

use crate::game::{has_open_edge, is_open_edge, EdgeId, EdgeState, GameState};

pub mod human;
pub mod minimax;
pub mod random;

pub use minimax::MiniMax;
pub use random::{DumbRandom, Random};

verus! {

/// The interface for all non-human players.
pub trait Player {
    /// Creates a new instance of the player, playing `color`.
    fn new(color: EdgeState) -> Self where Self: Sized
        requires
            color != EdgeState::Uncolored,
    ;

    /// Returns a new move: the edge to be colored next.
    fn next_move(&mut self, state: &GameState) -> (r: EdgeId)
        requires
            has_open_edge(state@),
        ensures
            is_open_edge(state@, r@),
    ;
}

} // verus!
