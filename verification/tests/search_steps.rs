use graph_visualiser::graph::CAPACITY;
use graph_visualiser::graph::Edge;
use graph_visualiser::search::SearchState;

fn line(destination: usize, distance: u16) -> Edge {
    Edge {
        destination,
        distance,
    }
}

#[test]
fn fresh_state_knows_the_start_only() {
    let state = SearchState::new(4);
    for id in 0..CAPACITY {
        assert!(!state.is_visited(id));
        if id == 4 {
            assert_eq!(state.distance(id), Some(0));
            assert_eq!(state.parent(id), Some(4));
        } else {
            assert_eq!(state.distance(id), None);
            assert_eq!(state.parent(id), None);
        }
    }
    assert_eq!(state.nearest_pending(), Some(4));
    assert_eq!(state.distance(CAPACITY), None);
    assert_eq!(state.parent(CAPACITY), None);
    assert!(!state.is_visited(CAPACITY));
}

#[test]
fn fresh_state_from_no_slot_knows_nothing() {
    let state = SearchState::new(CAPACITY);
    assert_eq!(state.nearest_pending(), None);
    for id in 0..CAPACITY {
        assert_eq!(state.distance(id), None);
    }
}

#[test]
fn relax_reaches_a_node_for_the_first_time() {
    let mut state = SearchState::new(0);
    state.settle(0);
    assert!(state.relax(0, line(3, 7), false));
    assert_eq!(state.distance(3), Some(7));
    assert_eq!(state.parent(3), Some(0));
    assert!(!state.is_visited(3));
    assert_eq!(state.nearest_pending(), Some(3));
}

#[test]
fn relax_takes_the_shorter_way_only() {
    let mut state = SearchState::new(0);
    state.settle(0);
    assert!(state.relax(0, line(1, 2), false));
    assert!(state.relax(0, line(2, 10), false));
    state.settle(1);
    // 2 + 9 is longer than 10, with or without preference.
    assert!(!state.relax(1, line(2, 9), false));
    assert!(!state.relax(1, line(2, 9), true));
    assert_eq!(state.distance(2), Some(10));
    assert_eq!(state.parent(2), Some(0));
    // 2 + 7 is shorter.
    assert!(state.relax(1, line(2, 7), false));
    assert_eq!(state.distance(2), Some(9));
    assert_eq!(state.parent(2), Some(1));
}

#[test]
fn relax_on_a_tie_goes_by_the_preference() {
    let mut state = SearchState::new(0);
    state.settle(0);
    assert!(state.relax(0, line(1, 2), false));
    assert!(state.relax(0, line(2, 10), false));
    state.settle(1);
    assert!(state.is_tie(1, line(2, 8)));
    assert!(!state.is_tie(1, line(2, 7)));
    assert!(!state.is_tie(1, line(2, 9)));
    assert!(!state.relax(1, line(2, 8), false));
    assert_eq!(state.distance(2), Some(10));
    assert_eq!(state.parent(2), Some(0));
    assert!(state.relax(1, line(2, 8), true));
    assert_eq!(state.distance(2), Some(10));
    assert_eq!(state.parent(2), Some(1));
}

#[test]
fn relax_leaves_visited_nodes_alone() {
    let mut state = SearchState::new(0);
    state.settle(0);
    assert!(state.relax(0, line(1, 0), false));
    state.settle(1);
    assert!(!state.is_tie(1, line(0, 0)));
    assert!(!state.relax(1, line(0, 0), true));
    assert_eq!(state.distance(0), Some(0));
    assert_eq!(state.parent(0), Some(0));
}

#[test]
fn relax_from_an_unknown_node_or_beyond_the_slots_does_nothing() {
    let mut state = SearchState::new(0);
    assert!(!state.relax(5, line(6, 1), true));
    assert!(!state.relax(0, line(CAPACITY, 1), true));
    assert!(!state.relax(CAPACITY, line(1, 1), true));
    assert!(!state.is_tie(5, line(6, 1)));
    assert!(!state.is_tie(0, line(CAPACITY, 1)));
    assert!(!state.is_tie(CAPACITY, line(1, 1)));
    state.settle(CAPACITY);
    for id in 0..CAPACITY {
        assert!(!state.is_visited(id));
        assert_eq!(state.distance(id), if id == 0 { Some(0) } else { None });
    }
}

#[test]
fn nearest_pending_is_the_lowest_id_among_the_nearest() {
    let mut state = SearchState::new(9);
    state.settle(9);
    assert_eq!(state.nearest_pending(), None);
    assert!(state.relax(9, line(7, 5), false));
    assert!(state.relax(9, line(3, 5), false));
    assert!(state.relax(9, line(5, 6), false));
    assert!(state.relax(9, line(1, 8), false));
    assert_eq!(state.nearest_pending(), Some(3));
    state.settle(3);
    assert_eq!(state.nearest_pending(), Some(7));
    state.settle(7);
    assert_eq!(state.nearest_pending(), Some(5));
    state.settle(5);
    assert_eq!(state.nearest_pending(), Some(1));
    state.settle(1);
    assert_eq!(state.nearest_pending(), None);
}

#[test]
fn distances_add_up_along_the_longest_lines() {
    let mut state = SearchState::new(0);
    for id in 0..CAPACITY - 1 {
        state.settle(id);
        assert!(state.relax(id, line(id + 1, u16::MAX), false));
    }
    assert_eq!(state.distance(CAPACITY - 1), Some(99 * 65535));
    assert_eq!(state.parent(CAPACITY - 1), Some(CAPACITY - 2));
}
