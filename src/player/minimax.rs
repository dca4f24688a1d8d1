//! A player that searches the whole remaining game for a forced win.
use vstd::prelude::*;

use crate::game::{
    completes_triangle, has_mono_triangle, has_open_edge, is_full, is_open_edge, is_safe_move,
    lemma_board_len, lemma_full_board_has_triangle, lemma_open_count_color, lemma_open_count_none,
    lemma_safe_move_keeps_no_triangle, open_count, opponent, EdgeId, EdgeState, GameState,
};
use crate::player::{Player, Random};

verus! {

broadcast use lemma_board_len;

/// Whether `me` can force a win when `acting` is to move on board `b`,
/// looking `plies` moves ahead.
///
/// A player never colors an edge that completes a triangle of their own
/// color; a player with no other move left has lost. With `plies` equal to
/// the number of uncolored edges this is the value of the game: no draw is
/// possible, so a player who cannot force a win will lose against best play.
pub open spec fn can_force_win(b: Seq<EdgeState>, me: EdgeState, acting: EdgeState, plies: nat) -> bool
    decreases plies,
{
    if plies == 0 {
        acting != me
    } else if acting == me {
        exists|e: int|
            #[trigger] is_safe_move(b, e, acting) && can_force_win(
                b.update(e, acting),
                me,
                opponent(acting),
                (plies - 1) as nat,
            )
    } else {
        forall|e: int|
            #[trigger] is_safe_move(b, e, acting) ==> can_force_win(
                b.update(e, acting),
                me,
                opponent(acting),
                (plies - 1) as nat,
            )
    }
}

/// Coloring `e` with `me` does not lose at once, and after it `me` can force
/// a win whatever the opponent does.
pub open spec fn is_winning_move(b: Seq<EdgeState>, me: EdgeState, e: int) -> bool {
    &&& is_safe_move(b, e, me)
    &&& can_force_win(b.update(e, me), me, opponent(me), open_count(b.update(e, me)))
}

/// Near the end of a game with exactly three uncolored edges `w`, `x`, `y`
/// and no triangle of one color yet: if `w` does not lose at once and leaves
/// the opponent only losing replies, and no other move that does not lose at
/// once leaves the opponent only losing replies, then `w` is the one and only
/// winning move.
pub proof fn lemma_last_three_edges(b: Seq<EdgeState>, c: EdgeState, w: int, x: int, y: int)
    requires
        b.len() == 15,
        c != EdgeState::Uncolored,
        0 <= w < 15,
        0 <= x < 15,
        0 <= y < 15,
        w != x,
        w != y,
        x != y,
        forall|e: int| 0 <= e < 15 ==> (#[trigger] b[e] == EdgeState::Uncolored <==> (e == w || e
            == x || e == y)),
        !has_mono_triangle(b),
        is_safe_move(b, w, c),
        completes_triangle(b.update(w, c), x, opponent(c)),
        completes_triangle(b.update(w, c), y, opponent(c)),
        forall|f: int|
            f != w && #[trigger] is_safe_move(b, f, c) ==> exists|g: int|
                #[trigger] is_safe_move(b.update(f, c), g, opponent(c)),
    ensures
        open_count(b) == 3,
        is_winning_move(b, c, w),
        forall|e: int| e != w ==> !#[trigger] is_winning_move(b, c, e),
{
    let o = opponent(c);
    // Three uncolored edges.
    let full = b.update(w, c).update(x, c).update(y, c);
    lemma_open_count_none(full);
    lemma_open_count_color(b.update(w, c).update(x, c), y, c);
    lemma_open_count_color(b.update(w, c), x, c);
    lemma_open_count_color(b, w, c);
    assert(open_count(b) == 3);

    // After `w` every reply of the opponent loses at once.
    let bw = b.update(w, c);
    lemma_open_count_color(b, w, c);
    assert forall|g: int| !#[trigger] is_safe_move(bw, g, o) by {
        if is_safe_move(bw, g, o) {
            assert(g == x || g == y);
        }
    }
    assert(can_force_win(bw, c, o, 2));
    assert(is_winning_move(b, c, w));

    // Any other move that does not lose at once leaves the opponent a reply
    // that does not lose at once either, after which only one edge is left,
    // and it must lose: no full board is free of triangles.
    assert forall|e: int| e != w implies !#[trigger] is_winning_move(b, c, e) by {
        if is_safe_move(b, e, c) {
            let be = b.update(e, c);
            lemma_open_count_color(b, e, c);
            let g = choose|g: int| #[trigger] is_safe_move(be, g, o);
            let bg = be.update(g, o);
            lemma_open_count_color(be, g, o);
            lemma_safe_move_keeps_no_triangle(b, e, c);
            lemma_safe_move_keeps_no_triangle(be, g, o);
            assert forall|h: int| !#[trigger] is_safe_move(bg, h, c) by {
                if is_safe_move(bg, h, c) {
                    let bh = bg.update(h, c);
                    lemma_safe_move_keeps_no_triangle(bg, h, c);
                    assert(is_full(bh));
                    lemma_full_board_has_triangle(bh);
                }
            }
            assert(!can_force_win(bg, c, c, 1));
            assert(!can_force_win(be, c, o, 2));
        }
    }
}

/// The availability mask has a bit set for edge `i`.
pub open spec fn move_bit(moves: u16, i: int) -> bool {
    (moves >> (i as u16)) & 1 == 1
}

/// The availability mask marks exactly the uncolored edges of `b`.
pub open spec fn marks_open_edges(moves: u16, b: Seq<EdgeState>) -> bool {
    forall|i: int| 0 <= i < 15 ==> (#[trigger] move_bit(moves, i) <==> b[i] == EdgeState::Uncolored)
}

proof fn lemma_set_keeps_top_clear(moves: u16, k: u16)
    by (bit_vector)
    requires
        moves < 0x8000,
        k < 15,
    ensures
        moves | (1u16 << k) < 0x8000,
{
}

proof fn lemma_bit_of_empty(i: u16)
    by (bit_vector)
    ensures
        (0u16 >> i) & 1 != 1,
{
}

proof fn lemma_bit_after_set(moves: u16, k: u16, i: u16)
    by (bit_vector)
    requires
        k < 15,
        i < 15,
    ensures
        ((moves | (1u16 << k)) >> i) & 1 == 1 <==> (((moves >> i) & 1 == 1) || i == k),
{
}

proof fn lemma_bit_after_clear(moves: u16, k: u16, i: u16)
    by (bit_vector)
    requires
        k < 15,
        i < 15,
    ensures
        ((moves & !(1u16 << k)) >> i) & 1 == 1 <==> (((moves >> i) & 1 == 1) && i != k),
{
}

/// The mask of the edges that are still uncolored.
fn get_encoded_moves(state: &GameState) -> (r: u16)
    ensures
        marks_open_edges(r, state@),
        r < 0x8000,
{
    let mut encoded: u16 = 0;
    let mut index: u8 = 0;
    assert forall|i: int| 0 <= i < 15 implies !#[trigger] move_bit(encoded, i) by {
        lemma_bit_of_empty(i as u16);
    }
    while index < 15
        invariant
            index <= 15,
            encoded < 0x8000,
            forall|i: int|
                0 <= i < 15 ==> (#[trigger] move_bit(encoded, i) <==> (i < index && state@[i]
                    == EdgeState::Uncolored)),
        decreases 15 - index,
    {
        if state.edge_state(EdgeId::new(index)).is_none() {
            proof {
                assert forall|i: int| 0 <= i < 15 implies #[trigger] move_bit(
                    encoded | (1u16 << index as u16),
                    i,
                ) == (move_bit(encoded, i) || i == index) by {
                    lemma_bit_after_set(encoded, index as u16, i as u16);
                }
                lemma_set_keeps_top_clear(encoded, index as u16);
            }
            encoded = encoded | (1 << index as u16);
        }
        index = index + 1;
    }
    proof {
        assert forall|i: int| 0 <= i < 15 implies (#[trigger] move_bit(encoded, i)
            <==> state@[i] == EdgeState::Uncolored) by {}
    }
    encoded
}

/// The mask with the bit of edge `k` cleared.
fn without_move(moves: u16, k: u8) -> (r: u16)
    requires
        k < 15,
    ensures
        forall|i: int| 0 <= i < 15 ==> (#[trigger] move_bit(r, i) <==> (move_bit(moves, i) && i != k)),
{
    let r = moves & !(1u16 << k as u16);
    proof {
        assert forall|i: int| 0 <= i < 15 implies (#[trigger] move_bit(r, i) <==> (move_bit(moves, i)
            && i != k)) by {
            lemma_bit_after_clear(moves, k as u16, i as u16);
        }
    }
    r
}

/// The number of uncolored edges.
fn open_edge_count(state: &GameState) -> (n: u8)
    ensures
        n == open_count(state@),
        n <= 15,
{
    let ghost b = state@;
    let mut n: u8 = 0;
    let mut i: u8 = 0;
    assert(b.take(0) =~= Seq::<EdgeState>::empty());
    while i < 15
        invariant
            i <= 15,
            b == state@,
            n == open_count(b.take(i as int)),
            n <= i,
        decreases 15 - i,
    {
        assert(b.take(i + 1).drop_last() =~= b.take(i as int));
        if state.edge_state(EdgeId::new(i)).is_none() {
            n = n + 1;
        }
        i = i + 1;
    }
    assert(b.take(15) =~= b);
    n
}

/// Returns whether `me` can force a win with `acting` to move, exploring every
/// move that does not lose at once, depth first, and undoing each move after
/// its subtree is explored. `moves` marks the uncolored edges.
fn search(
    state: &mut GameState,
    moves: u16,
    me: EdgeState,
    acting: EdgeState,
    plies: Ghost<nat>,
) -> (r: bool)
    requires
        me != EdgeState::Uncolored,
        acting != EdgeState::Uncolored,
        marks_open_edges(moves, old(state)@),
        open_count(old(state)@) == plies@,
    ensures
        final(state)@ == old(state)@,
        r == can_force_win(old(state)@, me, acting, plies@),
    decreases plies@,
{
    let waiting = if acting == EdgeState::Red {
        EdgeState::Blue
    } else {
        EdgeState::Red
    };
    let ghost b = state@;
    let ghost next = (plies@ - 1) as nat;
    let mut k: u8 = 0;
    while k < 15
        invariant
            k <= 15,
            state@ == b,
            b == old(state)@,
            me != EdgeState::Uncolored,
            acting != EdgeState::Uncolored,
            waiting == opponent(acting),
            marks_open_edges(moves, b),
            open_count(b) == plies@,
            next == (plies@ - 1) as nat,
            acting == me ==> forall|e: int|
                0 <= e < k && #[trigger] is_safe_move(b, e, acting) ==> !can_force_win(
                    b.update(e, acting),
                    me,
                    opponent(acting),
                    next,
                ),
            acting != me ==> forall|e: int|
                0 <= e < k && #[trigger] is_safe_move(b, e, acting) ==> can_force_win(
                    b.update(e, acting),
                    me,
                    opponent(acting),
                    next,
                ),
        decreases 15 - k,
    {
        assert(move_bit(moves, k as int) == ((moves >> k as u16) & 1 == 1));
        if (moves >> k as u16) & 1 == 1 {
            let edge = EdgeId::new(k);
            if !state.would_create_triangle(edge, acting) {
                proof {
                    lemma_open_count_color(b, k as int, acting);
                }
                let child_moves = without_move(moves, k);
                state.set_edge(edge, acting);
                assert(marks_open_edges(child_moves, state@));
                let wins = search(state, child_moves, me, waiting, Ghost(next));
                state.set_edge(edge, EdgeState::Uncolored);
                assert(state@ =~= b);
                // A winning move decides a node of `me`; a losing one decides
                // a node of the opponent.
                if acting == me && wins {
                    assert(is_safe_move(b, k as int, acting));
                    return true;
                }
                if acting != me && !wins {
                    assert(is_safe_move(b, k as int, acting));
                    return false;
                }
            }
        }
        k = k + 1;
    }
    acting != me
}

/// A player that plays a forced win whenever one exists.
pub struct MiniMax(EdgeState);

impl MiniMax {
    #[verifier::type_invariant]
    spec fn plays_a_color(self) -> bool {
        self.0 != EdgeState::Uncolored
    }

    /// The color this player plays.
    pub closed spec fn color(&self) -> EdgeState {
        self.0
    }

    /// Chooses the next move for this player's color on `state`, which is
    /// used as scratch space and restored before returning.
    ///
    /// From the fourth move of the game on, the winning move with the
    /// smallest ID is returned whenever a winning move exists. Otherwise, and for the first three moves of the
    /// game, a random move is returned that does not lose at once, if there
    /// is such a move.
    pub fn mini_max_move(&mut self, state: &mut GameState) -> (r: EdgeId)
        requires
            has_open_edge(old(state)@),
        ensures
            final(state)@ == old(state)@,
            is_open_edge(old(state)@, r@),
            (exists|e: int| #[trigger] is_safe_move(old(state)@, e, old(self).color())) ==> is_safe_move(
                old(state)@,
                r@,
                old(self).color(),
            ),
            open_count(old(state)@) <= 12 && (exists|e: int|
                #[trigger] is_winning_move(old(state)@, old(self).color(), e)) ==> {
                &&& is_winning_move(old(state)@, old(self).color(), r@)
                &&& forall|e: int|
                    0 <= e < r@ ==> !#[trigger] is_winning_move(old(state)@, old(self).color(), e)
            },
    {
        proof {
            use_type_invariant(&*self);
        }
        let me = self.0;
        let other = if me == EdgeState::Red {
            EdgeState::Blue
        } else {
            EdgeState::Red
        };
        let open = open_edge_count(state);

        // The first three moves of a game are not searched.
        if open > 12 {
            let mut fallback = Random::new(me);
            return fallback.next_move(state);
        }
        let moves = get_encoded_moves(state);
        let ghost b = state@;
        let mut k: u8 = 0;
        while k < 15
            invariant
                k <= 15,
                state@ == b,
                b == old(state)@,
                me == old(self).color(),
                me != EdgeState::Uncolored,
                other == opponent(me),
                open == open_count(b),
                marks_open_edges(moves, b),
                forall|e: int| 0 <= e < k ==> !#[trigger] is_winning_move(b, me, e),
            decreases 15 - k,
        {
            assert(move_bit(moves, k as int) == ((moves >> k as u16) & 1 == 1));
            if (moves >> k as u16) & 1 == 1 {
                let edge = EdgeId::new(k);
                if !state.would_create_triangle(edge, me) {
                    proof {
                        lemma_open_count_color(b, k as int, me);
                    }
                    let child_moves = without_move(moves, k);
                    state.set_edge(edge, me);
                    assert(marks_open_edges(child_moves, state@));
                    let wins = search(state, child_moves, me, other, Ghost((open - 1) as nat));
                    state.set_edge(edge, EdgeState::Uncolored);
                    assert(state@ =~= b);
                    if wins {
                        assert(is_winning_move(b, me, k as int));
                        return edge;
                    }
                }
            }
            k = k + 1;
        }
        // No forced win: fall back to a random move that does not lose at once.
        let mut fallback = Random::new(me);
        fallback.next_move(state)
    }
}

impl Player for MiniMax {
    fn new(color: EdgeState) -> (r: Self)
        ensures
            r.color() == color,
    {
        MiniMax(color)
    }

    fn next_move(&mut self, state: &GameState) -> (r: EdgeId)
        ensures
            (exists|e: int| #[trigger] is_safe_move(state@, e, old(self).color())) ==> is_safe_move(
                state@,
                r@,
                old(self).color(),
            ),
            open_count(state@) <= 12 && (exists|e: int|
                #[trigger] is_winning_move(state@, old(self).color(), e)) ==> {
                &&& is_winning_move(state@, old(self).color(), r@)
                &&& forall|e: int|
                    0 <= e < r@ ==> !#[trigger] is_winning_move(state@, old(self).color(), e)
            },
    {
        let mut scratch = state.clone();
        self.mini_max_move(&mut scratch)
    }
}

} // verus!
