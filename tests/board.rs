use sim::game::{EdgeId, EdgeState, GameState, VertexId};
use sim::player::human::{edge_from_input, InputError};

const COLORS: [EdgeState; 3] = [EdgeState::Uncolored, EdgeState::Red, EdgeState::Blue];

fn board(codes: [u8; 15]) -> GameState {
    let mut g = GameState::new();
    for (i, c) in codes.iter().enumerate() {
        let state = match c {
            0 => EdgeState::Uncolored,
            1 => EdgeState::Red,
            _ => EdgeState::Blue,
        };
        g.set_edge(EdgeId::new(i as u8), state);
    }
    g
}

fn between(a: u8, b: u8) -> EdgeId {
    EdgeId::between(VertexId::new(a), VertexId::new(b))
}

#[test]
fn new_board_is_uncolored() {
    let g = GameState::new();
    for e in EdgeId::all_edges() {
        assert_eq!(g.edge_state(e), EdgeState::Uncolored);
        assert!(g.edge_state(e).is_none());
    }
    assert!(!g.finished());
}

#[test]
fn set_then_read_round_trip() {
    let start = board([1, 2, 0, 1, 2, 0, 1, 2, 0, 1, 2, 0, 1, 2, 0]);
    for e in 0..15u8 {
        for &c in COLORS.iter() {
            let mut g = start.clone();
            g.set_edge(EdgeId::new(e), c);
            assert_eq!(g.edge_state(EdgeId::new(e)), c);
            for other in 0..15u8 {
                if other != e {
                    assert_eq!(
                        g.edge_state(EdgeId::new(other)),
                        start.edge_state(EdgeId::new(other))
                    );
                }
            }
        }
    }
}

#[test]
fn set_back_to_uncolored() {
    let mut g = GameState::new();
    g.set_edge(EdgeId::new(14), EdgeState::Blue);
    g.set_edge(EdgeId::new(0), EdgeState::Red);
    g.set_edge(EdgeId::new(14), EdgeState::Uncolored);
    assert_eq!(g.edge_state(EdgeId::new(14)), EdgeState::Uncolored);
    assert_eq!(g.edge_state(EdgeId::new(0)), EdgeState::Red);
    assert_eq!(g.edge_state(EdgeId::new(13)), EdgeState::Uncolored);
}

#[test]
fn repeated_reads_agree() {
    let g = board([2, 1, 2, 0, 1, 1, 0, 2, 2, 0, 1, 2, 2, 1, 1]);
    for e in EdgeId::all_edges() {
        let first = g.edge_state(e);
        for _ in 0..3 {
            assert_eq!(g.edge_state(e), first);
        }
    }
}

#[test]
fn edge_and_vertex_ids() {
    assert_eq!(EdgeId::new(0).id(), 0);
    assert_eq!(EdgeId::new(14).id(), 14);
    assert_eq!(VertexId::new(5).id(), 5);
    let all = EdgeId::all_edges();
    assert_eq!(all.len(), 15);
    for (i, e) in all.iter().enumerate() {
        assert_eq!(e.id() as usize, i);
    }
}

#[test]
fn between_is_symmetric_and_inverts_endpoints() {
    for a in 0..6u8 {
        for b in 0..6u8 {
            if a == b {
                continue;
            }
            let e = between(a, b);
            assert_eq!(e, between(b, a));
            let (x, y) = e.endpoints();
            assert_eq!((x.id(), y.id()), (a.min(b), a.max(b)));
        }
    }
    for e in EdgeId::all_edges() {
        let (x, y) = e.endpoints();
        assert!(x.id() < y.id());
        assert_eq!(EdgeId::between(x, y), e);
    }
}

#[test]
fn edge_numbering() {
    assert_eq!(between(0, 1).id(), 0);
    assert_eq!(between(5, 0).id(), 4);
    assert_eq!(between(2, 1).id(), 5);
    assert_eq!(between(3, 2).id(), 9);
    assert_eq!(between(3, 4).id(), 12);
    assert_eq!(between(5, 3).id(), 13);
    assert_eq!(between(4, 5).id(), 14);
}

#[test]
fn triangle_detection() {
    let mut g = GameState::new();
    g.set_edge(between(0, 1), EdgeState::Red);
    g.set_edge(between(0, 2), EdgeState::Red);
    assert!(g.would_create_triangle(between(1, 2), EdgeState::Red));
    assert!(!g.would_create_triangle(between(1, 2), EdgeState::Blue));
    assert!(!g.would_create_triangle(between(1, 3), EdgeState::Red));
    assert!(!g.finished());
    g.set_edge(between(1, 2), EdgeState::Blue);
    assert!(!g.finished());
    g.set_edge(between(1, 2), EdgeState::Red);
    assert!(g.finished());
}

#[test]
fn triangle_through_far_vertex() {
    let mut g = GameState::new();
    g.set_edge(between(3, 5), EdgeState::Blue);
    g.set_edge(between(4, 5), EdgeState::Blue);
    assert!(g.would_create_triangle(between(3, 4), EdgeState::Blue));
    assert!(!g.would_create_triangle(between(3, 4), EdgeState::Red));
    assert!(!g.would_create_triangle(between(0, 4), EdgeState::Blue));
}

#[test]
fn every_full_board_has_a_triangle() {
    for mask in 0u32..(1 << 15) {
        let mut g = GameState::new();
        for e in 0..15u8 {
            let c = if mask & (1 << e) != 0 { EdgeState::Red } else { EdgeState::Blue };
            g.set_edge(EdgeId::new(e), c);
        }
        assert!(g.finished(), "coloring {:#x} has no triangle", mask);
    }
}

#[test]
fn board_without_triangle_is_not_finished() {
    // Edge 1 open; no triangle of one color among the other fourteen.
    let g = board([2, 0, 1, 1, 2, 2, 1, 2, 1, 1, 1, 2, 2, 2, 1]);
    assert!(!g.finished());
}

#[test]
fn human_input_accepted() {
    let g = GameState::new();
    assert_eq!(edge_from_input(&g, 2, 1), Ok(EdgeId::new(5)));
    assert_eq!(edge_from_input(&g, 4, 5), Ok(EdgeId::new(14)));
}

#[test]
fn human_input_bad_vertices() {
    let g = GameState::new();
    assert_eq!(edge_from_input(&g, 6, 1), Err(InputError::BadVertices));
    assert_eq!(edge_from_input(&g, 0, 9), Err(InputError::BadVertices));
    assert_eq!(edge_from_input(&g, 3, 3), Err(InputError::BadVertices));
}

#[test]
fn human_input_edge_taken() {
    let mut g = GameState::new();
    g.set_edge(EdgeId::new(5), EdgeState::Red);
    assert_eq!(edge_from_input(&g, 1, 2), Err(InputError::EdgeTaken));
    assert_eq!(edge_from_input(&g, 1, 3), Ok(EdgeId::new(6)));
}
