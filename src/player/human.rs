//! Checking the move that a human player types in.
use vstd::prelude::*;

use crate::game::{edge_between, EdgeId, EdgeState, GameState, VertexId};

verus! {

/// Why a typed move was refused.
#[derive(Clone, Copy, Debug, PartialEq, Eq, Structural)]
pub enum InputError {
    /// A vertex is not below 6, or both vertices are the same.
    BadVertices,
    /// The edge between the two vertices is already colored.
    EdgeTaken,
}

/// The edge between the vertices `a` and `b` typed by a human player, if
/// both are valid, distinct, and the edge between them is still uncolored.
pub fn edge_from_input(state: &GameState, a: u8, b: u8) -> (r: Result<EdgeId, InputError>)
    ensures
        !(a < 6 && b < 6 && a != b) ==> r == Err::<EdgeId, InputError>(InputError::BadVertices),
        a < 6 && b < 6 && a != b ==> match r {
            Ok(e) => e@ == edge_between(a as int, b as int) && state@[e@] == EdgeState::Uncolored,
            Err(err) => err == InputError::EdgeTaken && state@[edge_between(a as int, b as int)]
                != EdgeState::Uncolored,
        },
{
    if !(a < 6 && b < 6 && a != b) {
        return Err(InputError::BadVertices);
    }
    let edge = EdgeId::between(VertexId::new(a), VertexId::new(b));
    if !state.edge_state(edge).is_none() {
        return Err(InputError::EdgeTaken);
    }
    Ok(edge)
}

} // verus!
