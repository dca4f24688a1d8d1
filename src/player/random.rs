//! Players that pick a random uncolored edge.
use rand::seq::IteratorRandom;
use rand::thread_rng;
use vstd::prelude::*;

use crate::game::{has_open_edge, is_open_edge, is_safe_move, EdgeId, EdgeState, GameState};
use crate::player::Player;

verus! {

/// Relies on rand's `IteratorRandom::choose`, fed by `thread_rng`: it returns
/// `None` exactly when the list is empty, and otherwise one of its items.
#[verifier::external_body]
fn choose_edge(candidates: &Vec<EdgeId>) -> (r: Option<EdgeId>)
    ensures
        r is None <==> candidates@.len() == 0,
        r matches Some(e) ==> candidates@.contains(e),
{
    candidates.iter().copied().choose(&mut thread_rng())
}

/// Edge `e` is uncolored and, where `avoid` names a color, does not complete
/// a triangle of that color.
spec fn is_candidate(b: Seq<EdgeState>, e: int, avoid: Option<EdgeState>) -> bool {
    match avoid {
        Some(c) => is_safe_move(b, e, c),
        None => is_open_edge(b, e),
    }
}

/// The uncolored edges of `state` in ascending order; with `avoid` set to a
/// color, only those that do not complete a triangle of that color.
fn candidate_edges(state: &GameState, avoid: Option<EdgeState>) -> (r: Vec<EdgeId>)
    ensures
        forall|k: int| 0 <= k < r@.len() ==> is_candidate(state@, (#[trigger] r@[k])@, avoid),
        forall|e: int|
            #[trigger] is_candidate(state@, e, avoid) ==> exists|k: int|
                0 <= k < r@.len() && (#[trigger] r@[k])@ == e,
{
    let mut r: Vec<EdgeId> = Vec::new();
    let mut i: u8 = 0;
    while i < 15
        invariant
            i <= 15,
            forall|k: int| 0 <= k < r@.len() ==> is_candidate(state@, (#[trigger] r@[k])@, avoid),
            forall|e: int|
                0 <= e < i && #[trigger] is_candidate(state@, e, avoid) ==> exists|k: int|
                    0 <= k < r@.len() && (#[trigger] r@[k])@ == e,
        decreases 15 - i,
    {
        let edge = EdgeId::new(i);
        let keep = state.edge_state(edge).is_none() && match avoid {
            Some(c) => !state.would_create_triangle(edge, c),
            None => true,
        };
        assert(keep == is_candidate(state@, i as int, avoid));
        let ghost before = r@;
        if keep {
            r.push(edge);
        }
        assert forall|e: int|
            0 <= e <= i && #[trigger] is_candidate(state@, e, avoid) implies exists|k: int|
                0 <= k < r@.len() && (#[trigger] r@[k])@ == e by {
            if e < i {
                let k = choose|k: int| 0 <= k < before.len() && (#[trigger] before[k])@ == e;
                assert(r@[k] == before[k]);
            } else {
                assert(r@[r@.len() - 1]@ == e);
            }
        }
        i = i + 1;
    }
    r
}

/// Returns a random edge that is still uncolored.
fn random_available_move(state: &GameState) -> (r: EdgeId)
    requires
        has_open_edge(state@),
    ensures
        is_open_edge(state@, r@),
{
    let candidates = candidate_edges(state, None);
    proof {
        let e = choose|e: int| #[trigger] is_open_edge(state@, e);
        assert(is_candidate(state@, e, None));
        assert(exists|k: int| 0 <= k < candidates@.len() && (#[trigger] candidates@[k])@ == e);
    }
    match choose_edge(&candidates) {
        Some(edge) => edge,
        None => {
            assert(false);
            EdgeId::new(0)
        },
    }
}

/// A random player which chooses some completely random edge, even if that
/// edge makes this player lose the game.
pub struct DumbRandom;

impl Player for DumbRandom {
    fn new(_color: EdgeState) -> Self {
        DumbRandom
    }

    fn next_move(&mut self, state: &GameState) -> (r: EdgeId) {
        random_available_move(state)
    }
}

/// A random player that always chooses an edge that won't lead to immediate
/// loss if such an edge is available.
pub struct Random(EdgeState);

impl Random {
    /// The color this player plays.
    pub closed spec fn color(&self) -> EdgeState {
        self.0
    }
}

impl Player for Random {
    fn new(color: EdgeState) -> (r: Self)
        ensures
            r.color() == color,
    {
        Random(color)
    }

    fn next_move(&mut self, state: &GameState) -> (r: EdgeId)
        ensures
            (exists|e: int| #[trigger] is_safe_move(state@, e, old(self).color()))
                ==> is_safe_move(state@, r@, old(self).color()),
    {
        // First try to find an edge that won't lead to losing the game. If
        // that's not possible, take any uncolored one.
        let safe = candidate_edges(state, Some(self.0));
        match choose_edge(&safe) {
            Some(edge) => edge,
            None => {
                proof {
                    if exists|e: int| #[trigger] is_safe_move(state@, e, self.color()) {
                        let e = choose|e: int| #[trigger] is_safe_move(state@, e, self.color());
                        assert(is_candidate(state@, e, Some(self.0)));
                        assert(exists|k: int| 0 <= k < safe@.len() && (#[trigger] safe@[k])@ == e);
                    }
                }
                random_available_move(state)
            },
        }
    }
}

} // verus!
