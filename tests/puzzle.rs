use puzzle_gate::board::{press_indicator, same_board, encode, INDICATOR_COUNT, START_STATE, TARGET_STATE};
use puzzle_gate::color::NodeColor;
use puzzle_gate::solver::shortest_solution;

#[test]
fn default_state_is_all_off() {
    assert_eq!(START_STATE, [NodeColor::Off; INDICATOR_COUNT]);
}

#[test]
fn shortest_solution_from_default_reaches_target() {
    let path = shortest_solution(START_STATE, TARGET_STATE).expect("path should exist");
    let mut state = START_STATE;
    for index in path {
        state = press_indicator(state, index);
    }
    assert_eq!(state, TARGET_STATE);
}

#[test]
fn default_solution_sequence_matches_expected_walkthrough() {
    let path = shortest_solution(START_STATE, TARGET_STATE).expect("path should exist");
    let expected = vec![0, 1, 1, 2, 2, 2, 2, 2, 3, 4, 4, 5, 5, 5, 5, 5];
    assert_eq!(path, expected);
}

#[test]
fn color_cycle_order_wraps_around() {
    let order = [
        NodeColor::Off,
        NodeColor::Green,
        NodeColor::Blue,
        NodeColor::Red,
        NodeColor::Purple,
        NodeColor::White,
    ];
    for k in 0..6 {
        assert_eq!(order[k].next(), order[(k + 1) % 6]);
    }
    assert_eq!(NodeColor::White.next(), NodeColor::Off);
}

#[test]
fn color_names() {
    assert_eq!(NodeColor::Off.as_str(), "OFF");
    assert_eq!(NodeColor::Green.as_str(), "GREEN");
    assert_eq!(NodeColor::Blue.as_str(), "BLUE");
    assert_eq!(NodeColor::Red.as_str(), "RED");
    assert_eq!(NodeColor::Purple.as_str(), "PURPLE");
    assert_eq!(NodeColor::White.as_str(), "WHITE");
}

fn position(c: NodeColor) -> usize {
    match c {
        NodeColor::Off => 0,
        NodeColor::Green => 1,
        NodeColor::Blue => 2,
        NodeColor::Red => 3,
        NodeColor::Purple => 4,
        NodeColor::White => 5,
    }
}

#[test]
fn press_from_start_follows_distance_table() {
    let after = press_indicator(START_STATE, 0);
    assert_eq!(
        after,
        [
            NodeColor::Blue,
            NodeColor::Green,
            NodeColor::White,
            NodeColor::Red,
            NodeColor::White,
            NodeColor::Green,
        ]
    );
}

#[test]
fn press_advance_counts_match_table_for_every_index() {
    let state = [
        NodeColor::Green,
        NodeColor::Red,
        NodeColor::White,
        NodeColor::Off,
        NodeColor::Blue,
        NodeColor::Purple,
    ];
    for i in 0..6usize {
        let after = press_indicator(state, i);
        for t in 0..6usize {
            let cw = (t + 6 - i) % 6;
            let d = cw.min(6 - cw);
            let expected = match d {
                0 => 2,
                1 => 1,
                2 => 5,
                _ => 3,
            };
            let advanced = (position(after[t]) + 6 - position(state[t])) % 6;
            assert_eq!(advanced, expected, "index {} target {}", i, t);
        }
    }
}

#[test]
fn press_is_deterministic() {
    let state = TARGET_STATE;
    for i in 0..6 {
        assert_eq!(press_indicator(state, i), press_indicator(state, i));
    }
}

#[test]
fn shortest_solution_to_itself_is_empty() {
    assert_eq!(shortest_solution(START_STATE, START_STATE), Some(vec![]));
    assert_eq!(shortest_solution(TARGET_STATE, TARGET_STATE), Some(vec![]));
}

#[test]
fn shortest_solution_one_press_away() {
    let near = press_indicator(START_STATE, 3);
    let path = shortest_solution(START_STATE, near).expect("one press away");
    assert_eq!(path.len(), 1);
    assert_eq!(press_indicator(START_STATE, path[0]), near);
}

#[test]
fn shortest_solution_has_sixteen_presses_and_no_shorter_exists() {
    let path = shortest_solution(START_STATE, TARGET_STATE).expect("path should exist");
    assert_eq!(path.len(), 16);
    // Breadth-first over all boards up to fifteen presses never meets the target.
    let mut layer = vec![START_STATE];
    let mut seen = std::collections::HashSet::new();
    seen.insert(START_STATE);
    for _ in 0..15 {
        let mut next_layer = Vec::new();
        for b in &layer {
            for i in 0..6 {
                let n = press_indicator(*b, i);
                assert_ne!(n, TARGET_STATE);
                if seen.insert(n) {
                    next_layer.push(n);
                }
            }
        }
        layer = next_layer;
    }
}

#[test]
fn board_helpers() {
    assert!(same_board(&START_STATE, &[NodeColor::Off; 6]));
    assert!(!same_board(&START_STATE, &TARGET_STATE));
    assert_eq!(encode(&START_STATE), 0);
    assert_eq!(encode(&[NodeColor::White; 6]), 46655);
    assert_eq!(encode(&TARGET_STATE), 5 + 6 * 4 + 36 * 1 + 216 * 5 + 1296 * 4 + 7776 * 1);
}
