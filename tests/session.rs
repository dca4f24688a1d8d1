use sim::game::{EdgeId, EdgeState};
use sim::session::Session;

#[test]
fn new_session_red_moves_first() {
    let s = Session::new();
    assert!(s.reds_turn);
    assert!(!s.game_end);
    assert_eq!(s.active_color(), EdgeState::Red);
    for e in EdgeId::all_edges() {
        assert!(s.state.edge_state(e).is_none());
    }
}

#[test]
fn moves_alternate_colors() {
    let mut s = Session::new();
    assert!(!s.execute_move(EdgeId::new(0)));
    assert_eq!(s.state.edge_state(EdgeId::new(0)), EdgeState::Red);
    assert_eq!(s.active_color(), EdgeState::Blue);
    assert!(!s.execute_move(EdgeId::new(3)));
    assert_eq!(s.state.edge_state(EdgeId::new(3)), EdgeState::Blue);
    assert_eq!(s.active_color(), EdgeState::Red);
    assert!(!s.game_end);
}

#[test]
fn completing_own_triangle_ends_game() {
    let mut s = Session::new();
    // Red: (0,1); Blue: (3,4); Red: (0,2); Blue: (3,5); Red closes (1,2).
    assert!(!s.execute_move(EdgeId::new(0)));
    assert!(!s.execute_move(EdgeId::new(12)));
    assert!(!s.execute_move(EdgeId::new(1)));
    assert!(!s.execute_move(EdgeId::new(13)));
    assert!(s.execute_move(EdgeId::new(5)));
    assert!(s.game_end);
    assert!(s.state.finished());
    assert_eq!(s.active_color(), EdgeState::Blue);
}

#[test]
fn waiting_for_input_follows_turn() {
    let mut s = Session::new();
    assert!(s.waiting_for_input(true, false));
    assert!(!s.waiting_for_input(false, true));
    s.execute_move(EdgeId::new(7));
    assert!(s.waiting_for_input(false, true));
    assert!(!s.waiting_for_input(true, false));
    s.game_end = true;
    assert!(!s.waiting_for_input(true, true));
}
