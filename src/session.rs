//! The course of one game: whose turn it is, and whether it has ended.
use vstd::prelude::*;

use crate::game::{completes_triangle, is_open_edge, EdgeId, EdgeState, GameState};

verus! {

/// One game in progress. Red moves first; a player who completes a triangle
/// of their own color ends the game and loses it.
#[derive(Clone, Copy, Debug)]
pub struct Session {
    pub state: GameState,
    pub reds_turn: bool,
    pub game_end: bool,
}

/// The color of the player to move.
pub open spec fn color_to_move(reds_turn: bool) -> EdgeState {
    if reds_turn {
        EdgeState::Red
    } else {
        EdgeState::Blue
    }
}

impl Session {
    /// A game on an empty board, with Red to move.
    pub fn new() -> (r: Self)
        ensures
            r.state@ == Seq::new(15, |i: int| EdgeState::Uncolored),
            r.reds_turn,
            !r.game_end,
    {
        Session { state: GameState::new(), reds_turn: true, game_end: false }
    }

    /// Checks if we are waiting for user input: the game goes on and the
    /// player to move is a human one.
    pub fn waiting_for_input(&self, red_is_human: bool, blue_is_human: bool) -> (r: bool)
        ensures
            r == (!self.game_end && if self.reds_turn {
                red_is_human
            } else {
                blue_is_human
            }),
    {
        if self.game_end {
            return false;
        }
        if self.reds_turn {
            red_is_human
        } else {
            blue_is_human
        }
    }

    /// Returns the color of the current player.
    pub fn active_color(&self) -> (r: EdgeState)
        ensures
            r == color_to_move(self.reds_turn),
    {
        if self.reds_turn {
            EdgeState::Red
        } else {
            EdgeState::Blue
        }
    }

    /// Colors the given edge in the color of the active player and passes
    /// the turn. Returns whether this move completed a triangle of the
    /// mover's color, which ends the game with the other player the winner.
    pub fn execute_move(&mut self, edge: EdgeId) -> (r: bool)
        requires
            is_open_edge(old(self).state@, edge@),
        ensures
            r == completes_triangle(old(self).state@, edge@, color_to_move(old(self).reds_turn)),
            final(self).state@ == old(self).state@.update(
                edge@,
                color_to_move(old(self).reds_turn),
            ),
            final(self).game_end == (old(self).game_end || r),
            final(self).reds_turn == !old(self).reds_turn,
    {
        let color = self.active_color();
        let ends = self.state.would_create_triangle(edge, color);
        if ends {
            self.game_end = true;
        }
        self.state.set_edge(edge, color);
        self.reds_turn = !self.reds_turn;
        ends
    }
}

} // verus!
