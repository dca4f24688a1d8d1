use sim::game::{EdgeId, EdgeState, GameState};
use sim::player::{DumbRandom, MiniMax, Player, Random};

fn board(codes: [u8; 15]) -> GameState {
    let mut g = GameState::new();
    for (i, c) in codes.iter().enumerate() {
        let state = match c {
            0 => EdgeState::Uncolored,
            1 => EdgeState::Red,
            _ => EdgeState::Blue,
        };
        g.set_edge(EdgeId::new(i as u8), state);
    }
    g
}

#[test]
fn single_remaining_edge_is_chosen() {
    // Edge 1 is the only uncolored one; there is no triangle yet.
    let g = board([2, 0, 1, 1, 2, 2, 1, 2, 1, 1, 1, 2, 2, 2, 1]);
    for color in [EdgeState::Red, EdgeState::Blue] {
        let mut p = MiniMax::new(color);
        assert_eq!(p.next_move(&g), EdgeId::new(1));
        let mut r = Random::new(color);
        assert_eq!(r.next_move(&g), EdgeId::new(1));
        let mut d = DumbRandom::new(color);
        assert_eq!(d.next_move(&g), EdgeId::new(1));
    }
}

#[test]
fn search_avoids_losing_edge() {
    // Blue to move; of the open edges 6, 10, 11 and 13, edge 6 completes a
    // blue triangle.
    let g = board([2, 1, 2, 2, 1, 2, 0, 1, 1, 1, 0, 0, 1, 0, 2]);
    assert!(g.would_create_triangle(EdgeId::new(6), EdgeState::Blue));
    let mut p = MiniMax::new(EdgeState::Blue);
    for _ in 0..20 {
        let e = p.next_move(&g);
        assert_ne!(e, EdgeId::new(6));
        assert!(g.edge_state(e).is_none());
    }
    // Edge 13 is Blue's only winning move.
    assert_eq!(p.next_move(&g), EdgeId::new(13));
}

#[test]
fn random_avoids_losing_edge() {
    let g = board([2, 1, 2, 2, 1, 2, 0, 1, 1, 1, 0, 0, 1, 0, 2]);
    let mut r = Random::new(EdgeState::Blue);
    for _ in 0..50 {
        let e = r.next_move(&g);
        assert_ne!(e, EdgeId::new(6));
        assert!([10, 11, 13].contains(&e.id()));
    }
}

#[test]
fn dumb_random_picks_open_edges() {
    let g = board([2, 1, 2, 2, 1, 2, 0, 1, 1, 1, 0, 0, 1, 0, 2]);
    let mut d = DumbRandom::new(EdgeState::Blue);
    for _ in 0..50 {
        let e = d.next_move(&g);
        assert!([6, 10, 11, 13].contains(&e.id()));
    }
}

#[test]
fn random_takes_losing_edge_when_nothing_else_is_left() {
    // Edge 0 (vertices 0 and 1) is the only open edge and closes a red
    // triangle with vertex 2.
    let mut codes = [2u8; 15];
    codes[0] = 0;
    codes[1] = 1;
    codes[5] = 1;
    let g = board(codes);
    assert!(g.would_create_triangle(EdgeId::new(0), EdgeState::Red));
    let mut r = Random::new(EdgeState::Red);
    assert_eq!(r.next_move(&g), EdgeId::new(0));
}

#[test]
fn forced_win_near_endgame() {
    // Red to move with edges 3, 6 and 9 open: edge 3 loses at once, edge 6
    // lets Blue win, edge 9 wins.
    let g = board([2, 1, 2, 0, 1, 1, 0, 2, 2, 0, 1, 2, 2, 1, 1]);
    assert!(g.would_create_triangle(EdgeId::new(3), EdgeState::Red));
    let mut p = MiniMax::new(EdgeState::Red);
    for _ in 0..5 {
        assert_eq!(p.next_move(&g), EdgeId::new(9));
    }
}

#[test]
fn forced_win_second_position() {
    // Red to move with edges 4, 10 and 12 open; only edge 10 wins.
    let g = board([1, 1, 2, 2, 0, 2, 2, 1, 1, 1, 0, 1, 0, 2, 2]);
    let mut p = MiniMax::new(EdgeState::Red);
    assert_eq!(p.next_move(&g), EdgeId::new(10));
}

#[test]
fn forced_win_six_open_edges() {
    // Blue to move with six open edges; edge 14 is the only winning move.
    let g = board([2, 2, 0, 0, 0, 1, 1, 1, 2, 0, 0, 1, 2, 1, 0]);
    let mut p = MiniMax::new(EdgeState::Blue);
    assert_eq!(p.next_move(&g), EdgeId::new(14));
}

#[test]
fn no_forced_win_still_avoids_loss() {
    // Red to move; edges 9 and 13 are the only moves that do not lose at
    // once, and neither wins.
    let g = board([1, 2, 1, 0, 0, 2, 2, 1, 1, 0, 2, 1, 2, 0, 0]);
    let mut p = MiniMax::new(EdgeState::Red);
    for _ in 0..20 {
        let e = p.next_move(&g);
        assert!(e == EdgeId::new(9) || e == EdgeId::new(13));
    }
}

#[test]
fn search_restores_scratch_board() {
    let g = board([2, 2, 0, 0, 0, 1, 1, 1, 2, 0, 0, 1, 2, 1, 0]);
    let mut p = MiniMax::new(EdgeState::Blue);
    let mut scratch = g.clone();
    let e = p.mini_max_move(&mut scratch);
    assert_eq!(e, EdgeId::new(14));
    for i in EdgeId::all_edges() {
        assert_eq!(scratch.edge_state(i), g.edge_state(i));
    }
}

#[test]
fn opening_moves_are_open_edges() {
    let mut g = GameState::new();
    let mut p = MiniMax::new(EdgeState::Red);
    let first = p.next_move(&g);
    assert!(g.edge_state(first).is_none());
    g.set_edge(first, EdgeState::Red);
    let mut q = MiniMax::new(EdgeState::Blue);
    let second = q.next_move(&g);
    assert!(g.edge_state(second).is_none());
}

#[test]
fn smallest_winning_edge_is_returned() {
    // Red to move with edges 0, 2, 5, 9 and 13 open; edges 0, 9 and 13 all
    // win, and the search returns the smallest of them every time.
    let g = board([0, 1, 0, 2, 1, 0, 2, 1, 2, 0, 1, 2, 2, 0, 1]);
    let mut p = MiniMax::new(EdgeState::Red);
    for _ in 0..5 {
        assert_eq!(p.next_move(&g), EdgeId::new(0));
    }
}
