//! Types and functions describing the core game: the six vertices, the
//! fifteen edges between them, and the packed board.
use vstd::prelude::*;

verus! {

/// The state of one edge: uncolored, or colored by one of the two players.
#[derive(Clone, Copy, Debug, PartialEq, Eq, Structural)]
pub enum EdgeState {
    Uncolored,
    Red,
    Blue,
}

impl EdgeState {
    /// Returns `true` if this edge is still uncolored.
    pub fn is_none(&self) -> (r: bool)
        ensures
            r == (*self == EdgeState::Uncolored),
    {
        *self == EdgeState::Uncolored
    }
}

/// The color of the player who moves after a player of color `c`.
pub open spec fn opponent(c: EdgeState) -> EdgeState {
    if c == EdgeState::Red {
        EdgeState::Blue
    } else {
        EdgeState::Red
    }
}

// ---------------------------------------------------------------------------
// Topology of the complete graph on six vertices.
//
// Edges are numbered in lexicographic order of their endpoint pairs:
// (0,1)=0, (0,2)=1, ..., (0,5)=4, (1,2)=5, ..., (3,5)=13, (4,5)=14.
// ---------------------------------------------------------------------------

/// The ID of the first edge whose smaller endpoint is `lo`.
pub open spec fn first_edge_from(lo: int) -> int {
    if lo == 0 {
        0
    } else if lo == 1 {
        5
    } else if lo == 2 {
        9
    } else if lo == 3 {
        12
    } else {
        14
    }
}

/// The ID of the edge between the distinct vertices `a` and `b`.
pub open spec fn edge_between(a: int, b: int) -> int {
    if a < b {
        first_edge_from(a) + (b - a - 1)
    } else {
        first_edge_from(b) + (a - b - 1)
    }
}

/// The two endpoints of edge `e`, the smaller one first.
pub open spec fn endpoint_pair(e: int) -> (int, int) {
    if e == 0 {
        (0, 1)
    } else if e == 1 {
        (0, 2)
    } else if e == 2 {
        (0, 3)
    } else if e == 3 {
        (0, 4)
    } else if e == 4 {
        (0, 5)
    } else if e == 5 {
        (1, 2)
    } else if e == 6 {
        (1, 3)
    } else if e == 7 {
        (1, 4)
    } else if e == 8 {
        (1, 5)
    } else if e == 9 {
        (2, 3)
    } else if e == 10 {
        (2, 4)
    } else if e == 11 {
        (2, 5)
    } else if e == 12 {
        (3, 4)
    } else if e == 13 {
        (3, 5)
    } else {
        (4, 5)
    }
}

/// The edge between two distinct vertices does not depend on their order,
/// is a valid edge ID, and has exactly those two vertices as endpoints.
pub proof fn lemma_between_symmetric(a: int, b: int)
    requires
        0 <= a < 6,
        0 <= b < 6,
        a != b,
    ensures
        edge_between(a, b) == edge_between(b, a),
        0 <= edge_between(a, b) < 15,
        endpoint_pair(edge_between(a, b)) == (if a < b { (a, b) } else { (b, a) }),
{
    assert(a == 0 || a == 1 || a == 2 || a == 3 || a == 4 || a == 5);
    assert(b == 0 || b == 1 || b == 2 || b == 3 || b == 4 || b == 5);
}

/// Every edge joins two distinct vertices, smaller one first, and is the
/// edge between them.
pub proof fn lemma_endpoints_of_edge(e: int)
    requires
        0 <= e < 15,
    ensures
        0 <= endpoint_pair(e).0 < endpoint_pair(e).1 < 6,
        edge_between(endpoint_pair(e).0, endpoint_pair(e).1) == e,
{
}

// ---------------------------------------------------------------------------
// Triangles.
// ---------------------------------------------------------------------------

/// Coloring edge `e` with `c` closes a triangle through vertex `v`: both
/// edges from the endpoints of `e` to `v` already hold `c`.
pub open spec fn closes_triangle_at(b: Seq<EdgeState>, e: int, c: EdgeState, v: int) -> bool {
    let (x, y) = endpoint_pair(e);
    &&& 0 <= v < 6
    &&& v != x
    &&& v != y
    &&& b[edge_between(x, v)] == c
    &&& b[edge_between(y, v)] == c
}

/// Coloring edge `e` with `c` would complete a triangle of color `c`.
pub open spec fn completes_triangle(b: Seq<EdgeState>, e: int, c: EdgeState) -> bool {
    exists|v: int| #[trigger] closes_triangle_at(b, e, c, v)
}

/// The vertices `x < y < z` span a triangle whose three edges share one color.
pub open spec fn is_mono_triangle(b: Seq<EdgeState>, x: int, y: int, z: int) -> bool {
    &&& 0 <= x < y
    &&& y < z < 6
    &&& b[edge_between(x, y)] != EdgeState::Uncolored
    &&& b[edge_between(x, z)] == b[edge_between(x, y)]
    &&& b[edge_between(y, z)] == b[edge_between(x, y)]
}

/// The board holds a triangle of one color.
pub open spec fn has_mono_triangle(b: Seq<EdgeState>) -> bool {
    exists|x: int, y: int, z: int| #[trigger] is_mono_triangle(b, x, y, z)
}

/// Every edge of the board is colored.
pub open spec fn is_full(b: Seq<EdgeState>) -> bool {
    forall|e: int| 0 <= e < 15 ==> #[trigger] b[e] != EdgeState::Uncolored
}

/// An edge of color `c` that closes a triangle of color `c` lies on a
/// triangle of one color.
proof fn lemma_closed_triangle(b: Seq<EdgeState>, e: int, c: EdgeState)
    requires
        0 <= e < 15,
        b[e] == c,
        c != EdgeState::Uncolored,
        completes_triangle(b, e, c),
    ensures
        has_mono_triangle(b),
{
    let v = choose|v: int| #[trigger] closes_triangle_at(b, e, c, v);
    let (x, y) = endpoint_pair(e);
    lemma_endpoints_of_edge(e);
    if v < x {
        assert(is_mono_triangle(b, v, x, y));
    } else if v < y {
        assert(is_mono_triangle(b, x, v, y));
    } else {
        assert(is_mono_triangle(b, x, y, v));
    }
}

/// A triangle of one color makes its first edge close a triangle of its color.
proof fn lemma_triangle_edge_closes(b: Seq<EdgeState>, x: int, y: int, z: int)
    requires
        is_mono_triangle(b, x, y, z),
    ensures
        0 <= edge_between(x, y) < 15,
        completes_triangle(b, edge_between(x, y), b[edge_between(x, y)]),
{
    lemma_between_symmetric(x, y);
    assert(closes_triangle_at(b, edge_between(x, y), b[edge_between(x, y)], z));
}

/// Three edges from vertex 0 of one color, on a full board, give a
/// triangle of one color.
proof fn lemma_star_gives_triangle(b: Seq<EdgeState>, p: int, q: int, r: int)
    requires
        1 <= p < q,
        q < r < 6,
        is_full(b),
        b[p - 1] == b[q - 1],
        b[p - 1] == b[r - 1],
    ensures
        has_mono_triangle(b),
{
    let c = b[p - 1];
    assert(b[edge_between(p, q)] != EdgeState::Uncolored);
    assert(b[edge_between(p, r)] != EdgeState::Uncolored);
    assert(b[edge_between(q, r)] != EdgeState::Uncolored);
    assert(b[p - 1] != EdgeState::Uncolored);
    if b[edge_between(p, q)] == c {
        assert(is_mono_triangle(b, 0, p, q));
    } else if b[edge_between(p, r)] == c {
        assert(is_mono_triangle(b, 0, p, r));
    } else if b[edge_between(q, r)] == c {
        assert(is_mono_triangle(b, 0, q, r));
    } else {
        assert(is_mono_triangle(b, p, q, r));
    }
}

/// No draw is possible: every full board holds a triangle of one color.
pub proof fn lemma_full_board_has_triangle(b: Seq<EdgeState>)
    requires
        is_full(b),
    ensures
        has_mono_triangle(b),
{
    // The five edges at vertex 0 are edges 0 to 4; three of them share a color.
    assert(b[0] != EdgeState::Uncolored);
    assert(b[1] != EdgeState::Uncolored);
    assert(b[2] != EdgeState::Uncolored);
    assert(b[3] != EdgeState::Uncolored);
    assert(b[4] != EdgeState::Uncolored);
    if b[0] == b[1] {
        if b[2] == b[0] {
            lemma_star_gives_triangle(b, 1, 2, 3);
        } else if b[3] == b[0] {
            lemma_star_gives_triangle(b, 1, 2, 4);
        } else if b[4] == b[0] {
            lemma_star_gives_triangle(b, 1, 2, 5);
        } else {
            lemma_star_gives_triangle(b, 3, 4, 5);
        }
    } else if b[2] == b[0] {
        if b[3] == b[0] {
            lemma_star_gives_triangle(b, 1, 3, 4);
        } else if b[4] == b[0] {
            lemma_star_gives_triangle(b, 1, 3, 5);
        } else {
            lemma_star_gives_triangle(b, 2, 4, 5);
        }
    } else {
        if b[3] == b[1] {
            lemma_star_gives_triangle(b, 2, 3, 4);
        } else if b[4] == b[1] {
            lemma_star_gives_triangle(b, 2, 3, 5);
        } else {
            lemma_star_gives_triangle(b, 1, 4, 5);
        }
    }
}

// ---------------------------------------------------------------------------
// Moves.
// ---------------------------------------------------------------------------

/// Edge `e` is a valid edge that is still uncolored.
pub open spec fn is_open_edge(b: Seq<EdgeState>, e: int) -> bool {
    0 <= e < 15 && b[e] == EdgeState::Uncolored
}

/// Coloring edge `e` with `c` is a legal move that does not lose at once.
pub open spec fn is_safe_move(b: Seq<EdgeState>, e: int, c: EdgeState) -> bool {
    is_open_edge(b, e) && !completes_triangle(b, e, c)
}

/// The board has an uncolored edge left.
pub open spec fn has_open_edge(b: Seq<EdgeState>) -> bool {
    exists|e: int| #[trigger] is_open_edge(b, e)
}

/// The number of uncolored entries of `b`.
pub open spec fn open_count(b: Seq<EdgeState>) -> nat
    decreases b.len(),
{
    if b.len() == 0 {
        0
    } else {
        open_count(b.drop_last()) + if b.last() == EdgeState::Uncolored {
            1nat
        } else {
            0nat
        }
    }
}

/// Coloring one uncolored entry lowers the count of uncolored entries by one.
pub proof fn lemma_open_count_color(b: Seq<EdgeState>, e: int, c: EdgeState)
    requires
        0 <= e < b.len(),
        b[e] == EdgeState::Uncolored,
        c != EdgeState::Uncolored,
    ensures
        open_count(b.update(e, c)) + 1 == open_count(b),
    decreases b.len(),
{
    if e == b.len() - 1 {
        assert(b.update(e, c).drop_last() =~= b.drop_last());
    } else {
        assert(b.update(e, c).drop_last() =~= b.drop_last().update(e, c));
        lemma_open_count_color(b.drop_last(), e, c);
    }
}

/// A board with no uncolored entry has no uncolored entries to count.
pub proof fn lemma_open_count_none(b: Seq<EdgeState>)
    requires
        forall|i: int| 0 <= i < b.len() ==> #[trigger] b[i] != EdgeState::Uncolored,
    ensures
        open_count(b) == 0,
    decreases b.len(),
{
    if b.len() > 0 {
        lemma_open_count_none(b.drop_last());
    }
}

/// A move that does not complete a triangle of its color keeps a board free
/// of triangles of one color.
pub proof fn lemma_safe_move_keeps_no_triangle(b: Seq<EdgeState>, e: int, c: EdgeState)
    requires
        b.len() == 15,
        is_safe_move(b, e, c),
        c != EdgeState::Uncolored,
        !has_mono_triangle(b),
    ensures
        !has_mono_triangle(b.update(e, c)),
{
    let b1 = b.update(e, c);
    if has_mono_triangle(b1) {
        let (x, y, z) = choose|x: int, y: int, z: int| #[trigger] is_mono_triangle(b1, x, y, z);
        lemma_between_symmetric(x, y);
        lemma_between_symmetric(x, z);
        lemma_between_symmetric(y, z);
        if edge_between(x, y) == e {
            assert(closes_triangle_at(b, e, c, z));
        } else if edge_between(x, z) == e {
            assert(closes_triangle_at(b, e, c, y));
        } else if edge_between(y, z) == e {
            assert(closes_triangle_at(b, e, c, x));
        } else {
            assert(is_mono_triangle(b, x, y, z));
        }
    }
}

/// ID of an edge (0 to 14 inclusive).
#[derive(Clone, Copy, Debug, PartialEq, Eq, Structural)]
pub struct EdgeId(u8);

impl View for EdgeId {
    type V = int;

    closed spec fn view(&self) -> int {
        self.0 as int
    }
}

impl EdgeId {
    #[verifier::type_invariant]
    spec fn in_range(self) -> bool {
        self.0 < 15
    }

    /// Creates a new ID from the given integer.
    pub fn new(v: u8) -> (r: Self)
        requires
            v < 15,
        ensures
            r@ == v,
    {
        EdgeId(v)
    }

    /// Returns the inner ID.
    pub fn id(&self) -> (r: u8)
        ensures
            r == self@,
            r < 15,
    {
        proof {
            use_type_invariant(self);
        }
        self.0
    }

    /// Returns all fifteen edges in ascending order of their IDs.
    pub fn all_edges() -> (r: Vec<Self>)
        ensures
            r@.len() == 15,
            forall|i: int| 0 <= i < 15 ==> (#[trigger] r@[i])@ == i,
    {
        let mut r: Vec<Self> = Vec::new();
        let mut i: u8 = 0;
        while i < 15
            invariant
                i <= 15,
                r@.len() == i,
                forall|j: int| 0 <= j < i ==> (#[trigger] r@[j])@ == j,
            decreases 15 - i,
        {
            r.push(EdgeId(i));
            i = i + 1;
        }
        r
    }

    /// Returns the edge between the two given (distinct) vertices.
    pub fn between(a: VertexId, b: VertexId) -> (r: Self)
        requires
            a@ != b@,
        ensures
            r@ == edge_between(a@, b@),
            0 <= r@ < 15,
    {
        proof {
            use_type_invariant(&a);
            use_type_invariant(&b);
            lemma_between_symmetric(a@, b@);
        }
        let (lo, hi) = if a.0 < b.0 {
            (a.0, b.0)
        } else {
            (b.0, a.0)
        };
        let first: u8 = match lo {
            0 => 0,
            1 => 5,
            2 => 9,
            3 => 12,
            _ => 14,
        };
        EdgeId(first + (hi - lo - 1))
    }

    /// Returns the IDs of the two endpoints of this edge, the smaller first.
    pub fn endpoints(&self) -> (r: (VertexId, VertexId))
        ensures
            (r.0@, r.1@) == endpoint_pair(self@),
    {
        proof {
            use_type_invariant(self);
        }
        match self.0 {
            0 => (VertexId(0), VertexId(1)),
            1 => (VertexId(0), VertexId(2)),
            2 => (VertexId(0), VertexId(3)),
            3 => (VertexId(0), VertexId(4)),
            4 => (VertexId(0), VertexId(5)),
            5 => (VertexId(1), VertexId(2)),
            6 => (VertexId(1), VertexId(3)),
            7 => (VertexId(1), VertexId(4)),
            8 => (VertexId(1), VertexId(5)),
            9 => (VertexId(2), VertexId(3)),
            10 => (VertexId(2), VertexId(4)),
            11 => (VertexId(2), VertexId(5)),
            12 => (VertexId(3), VertexId(4)),
            13 => (VertexId(3), VertexId(5)),
            // edge 14, the last one
            _ => (VertexId(4), VertexId(5)),
        }
    }
}

/// Two edge IDs are equal exactly when they name the same edge.
pub proof fn lemma_edge_id_eq(a: EdgeId, b: EdgeId)
    ensures
        (a == b) <==> (a@ == b@),
{
}

/// ID of a vertex (0 to 5 inclusive).
#[derive(Clone, Copy, Debug, PartialEq, Eq, Structural)]
pub struct VertexId(u8);

impl View for VertexId {
    type V = int;

    closed spec fn view(&self) -> int {
        self.0 as int
    }
}

impl VertexId {
    #[verifier::type_invariant]
    spec fn in_range(self) -> bool {
        self.0 < 6
    }

    /// Creates a new ID.
    pub fn new(v: u8) -> (r: Self)
        requires
            v < 6,
        ensures
            r@ == v,
    {
        VertexId(v)
    }

    /// Returns the inner ID.
    pub fn id(&self) -> (r: u8)
        ensures
            r == self@,
            r < 6,
    {
        proof {
            use_type_invariant(self);
        }
        self.0
    }
}


/// Two vertex IDs are equal exactly when they name the same vertex.
pub proof fn lemma_vertex_id_eq(a: VertexId, b: VertexId)
    ensures
        (a == b) <==> (a@ == b@),
{
}

// ---------------------------------------------------------------------------
// The packed board.
// ---------------------------------------------------------------------------

/// The edge state that a two-bit code stands for.
pub open spec fn state_of_code(v: u32) -> EdgeState {
    if v == 0 {
        EdgeState::Uncolored
    } else if v == 1 {
        EdgeState::Red
    } else {
        EdgeState::Blue
    }
}

/// The two-bit field of edge `i` in a packed board.
pub open spec fn field(encoded: u32, i: int) -> u32 {
    (encoded >> ((2 * i) as u32)) & 3
}

/// Writing a two-bit field changes that field alone.
proof fn lemma_write_field(encoded: u32, s: u32, t: u32, bits: u32)
    by (bit_vector)
    requires
        s < 30,
        t < 30,
        s % 2 == 0,
        t % 2 == 0,
        bits < 4,
    ensures
        ((encoded & !(3u32 << s)) | (bits << s)) >> t & 3 == (if s == t {
            bits
        } else {
            (encoded >> t) & 3
        }),
{
}

/// Writing a two-bit field below bit 30 leaves the two top bits clear.
proof fn lemma_write_keeps_top(encoded: u32, s: u32, bits: u32)
    by (bit_vector)
    requires
        encoded < 0x4000_0000,
        s < 30,
        s % 2 == 0,
        bits < 4,
    ensures
        (encoded & !(3u32 << s)) | (bits << s) < 0x4000_0000,
{
}

/// Every field of the empty board is zero.
proof fn lemma_zero_fields(s: u32)
    by (bit_vector)
    ensures
        (0u32 >> s) & 3 == 0,
{
}

/// Stores the state of a Sim game (the state of all 15 edges).
///
/// Each edge takes two bits of one `u32`: edge 0 the two lowest bits, edge 14
/// bits 28 and 29. The two uppermost bits are always 0.
#[derive(Clone, Copy, Debug)]
pub struct GameState {
    encoded: u32,
}

impl View for GameState {
    type V = Seq<EdgeState>;

    /// The state of each edge, indexed by edge ID.
    closed spec fn view(&self) -> Seq<EdgeState> {
        Seq::new(15, |i: int| state_of_code(field(self.encoded, i)))
    }
}

/// The view of a board has one entry per edge.
pub broadcast proof fn lemma_board_len(g: GameState)
    ensures
        (#[trigger] g@).len() == 15,
{
}

/// Setting an edge and then reading it gives back the state that was set,
/// and every other edge reads as it did before.
pub proof fn lemma_set_then_read(g: GameState, e: int, c: EdgeState)
    requires
        0 <= e < 15,
    ensures
        g@.update(e, c).len() == 15,
        g@.update(e, c)[e] == c,
        forall|f: int| 0 <= f < 15 && f != e ==> #[trigger] g@.update(e, c)[f] == g@[f],
{
}

impl GameState {
    #[verifier::type_invariant]
    spec fn well_packed(self) -> bool {
        &&& self.encoded < 0x4000_0000
        &&& forall|i: int| 0 <= i < 15 ==> #[trigger] field(self.encoded, i) != 3
    }

    /// Returns a new game where all edges are uncolored.
    pub fn new() -> (r: Self)
        ensures
            r@ == Seq::new(15, |i: int| EdgeState::Uncolored),
    {
        assert forall|i: int| 0 <= i < 15 implies #[trigger] field(0, i) == 0 by {
            lemma_zero_fields((2 * i) as u32);
        }
        let r = Self { encoded: 0 };
        assert(r@ =~= Seq::new(15, |i: int| EdgeState::Uncolored));
        r
    }

    /// Returns the state of the given edge.
    pub fn edge_state(&self, id: EdgeId) -> (r: EdgeState)
        ensures
            r == self@[id@],
    {
        let i = id.id();
        // Shift the edge's two bits down to the lowest place and mask off the rest.
        match (self.encoded >> (i as u32 * 2)) & 0b11 {
            0 => EdgeState::Uncolored,
            1 => EdgeState::Red,
            // 2: a field never holds 3
            _ => EdgeState::Blue,
        }
    }

    /// Sets the state of the given edge, leaving every other edge as it was.
    pub fn set_edge(&mut self, id: EdgeId, state: EdgeState)
        ensures
            final(self)@ == old(self)@.update(id@, state),
    {
        proof {
            use_type_invariant(&*self);
        }
        let i = id.id();
        let bits: u32 = match state {
            EdgeState::Uncolored => 0,
            EdgeState::Red => 1,
            EdgeState::Blue => 2,
        };
        let shift: u32 = i as u32 * 2;
        // Clear the edge's two bits, then or in the new ones.
        let mask: u32 = !(0b11u32 << shift);
        let shifted_bits: u32 = bits << shift;
        let encoded = (self.encoded & mask) | shifted_bits;
        proof {
            let old_encoded = self.encoded;
            lemma_write_keeps_top(old_encoded, shift, bits);
            assert forall|j: int| 0 <= j < 15 implies #[trigger] field(encoded, j) == (if j
                == i {
                bits
            } else {
                field(old_encoded, j)
            }) by {
                lemma_write_field(old_encoded, shift, (2 * j) as u32, bits);
            }
            assert(state_of_code(bits) == state);
        }
        self.encoded = encoded;
        proof {
            assert(self@ =~= old(self)@.update(id@, state));
        }
    }

    /// Returns whether coloring `edge` with `state` would complete a triangle
    /// of that color: for some other vertex, both edges from the endpoints of
    /// `edge` to it already hold `state`.
    pub fn would_create_triangle(&self, edge: EdgeId, state: EdgeState) -> (r: bool)
        ensures
            r == completes_triangle(self@, edge@, state),
    {
        let (a, b) = edge.endpoints();
        let e = edge.id();
        proof {
            lemma_endpoints_of_edge(e as int);
        }
        let mut v: u8 = 0;
        while v < 6
            invariant
                v <= 6,
                e == edge@,
                0 <= e < 15,
                (a@, b@) == endpoint_pair(edge@),
                0 <= a@ < b@ < 6,
                forall|w: int| 0 <= w < v ==> !#[trigger] closes_triangle_at(self@, edge@, state, w),
            decreases 6 - v,
        {
            if v != a.id() && v != b.id() {
                let other = VertexId::new(v);
                if self.edge_state(EdgeId::between(a, other)) == state && self.edge_state(
                    EdgeId::between(b, other),
                ) == state {
                    assert(closes_triangle_at(self@, edge@, state, v as int));
                    return true;
                }
            }
            v = v + 1;
        }
        false
    }

    /// Returns whether the board holds a triangle of one color, which ends
    /// the game.
    pub fn finished(&self) -> (r: bool)
        ensures
            r == has_mono_triangle(self@),
    {
        let mut i: u8 = 0;
        while i < 15
            invariant
                i <= 15,
                forall|e: int|
                    0 <= e < i ==> !(self@[e] != EdgeState::Uncolored && completes_triangle(
                        self@,
                        e,
                        #[trigger] self@[e],
                    )),
            decreases 15 - i,
        {
            let edge = EdgeId::new(i);
            let c = self.edge_state(edge);
            if !c.is_none() && self.would_create_triangle(edge, c) {
                proof {
                    lemma_closed_triangle(self@, i as int, c);
                }
                return true;
            }
            i = i + 1;
        }
        proof {
            if has_mono_triangle(self@) {
                let (x, y, z) = choose|x: int, y: int, z: int| #[trigger]
                    is_mono_triangle(self@, x, y, z);
                lemma_triangle_edge_closes(self@, x, y, z);
                let e = edge_between(x, y);
                assert(!(self@[e] != EdgeState::Uncolored && completes_triangle(self@, e, self@[e])));
            }
        }
        false
    }
}

} // verus!
