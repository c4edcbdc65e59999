use figurehead::model::{EdgeData, NodeData, NodeShape};
use figurehead::state::database::{StateDatabase, START_TERMINAL};
use figurehead::state::layout::{StateLayoutAlgorithm, TransitionRoute};
use std::collections::HashSet;

#[test]
fn layout_test_empty_layout() {
    let db = StateDatabase::new();
    let algo = StateLayoutAlgorithm::new();
    let result = algo.layout(&db).unwrap();

    assert!(result.states.is_empty());
    assert!(result.transitions.is_empty());
}

#[test]
fn test_single_state_layout() {
    let mut db = StateDatabase::new();
    db.add_state(NodeData::new("Idle", "Idle")).unwrap();

    let algo = StateLayoutAlgorithm::new();
    let result = algo.layout(&db).unwrap();

    assert_eq!(result.states.len(), 1);
    assert_eq!(result.states[0].id, "Idle");
}

#[test]
fn test_linear_layout() {
    let mut db = StateDatabase::new();
    db.add_transition(EdgeData::new("[*]", "Idle")).unwrap();
    db.add_transition(EdgeData::new("Idle", "Running")).unwrap();
    db.add_transition(EdgeData::new("Running", "[*]")).unwrap();

    let algo = StateLayoutAlgorithm::new();
    let result = algo.layout(&db).unwrap();

    assert!(result.states.len() >= 3);

    let y_positions: Vec<usize> = result.states.iter().map(|s| s.y).collect();
    assert!(y_positions.iter().collect::<HashSet<_>>().len() > 1);
}

#[test]
fn test_terminal_state_size() {
    let algo = StateLayoutAlgorithm::new();
    let (w, h) = algo.calculate_state_size("", NodeShape::Terminal);
    assert_eq!(w, algo.terminal_size());
    assert_eq!(h, algo.terminal_size());
}

#[test]
fn test_branching_layout() {
    let mut db = StateDatabase::new();
    db.add_transition(EdgeData::new("[*]", "Idle")).unwrap();
    db.add_transition(EdgeData::new("Idle", "Processing")).unwrap();
    db.add_transition(EdgeData::new("Processing", "Success")).unwrap();
    db.add_transition(EdgeData::new("Processing", "Failed")).unwrap();
    db.add_transition(EdgeData::new("Success", "[*]")).unwrap();
    db.add_transition(EdgeData::new("Failed", "[*]")).unwrap();

    let algo = StateLayoutAlgorithm::new();
    let result = algo.layout(&db).unwrap();

    let start = result.states.iter().find(|s| s.id == START_TERMINAL).unwrap();

    assert!(start.x > 0, "Start terminal x={} should be > 0", start.x);
}

#[test]
fn ranks_are_shortest_distances_from_start() {
    let mut db = StateDatabase::new();
    db.add_transition(EdgeData::new("[*]", "A")).unwrap();
    db.add_transition(EdgeData::new("A", "B")).unwrap();
    db.add_transition(EdgeData::new("B", "C")).unwrap();
    db.add_transition(EdgeData::new("A", "C")).unwrap();
    let result = StateLayoutAlgorithm::new().layout(&db).unwrap();
    let rank = |id: &str| result.states.iter().find(|s| s.id == id).unwrap().rank;
    assert_eq!(rank(START_TERMINAL), 0);
    assert_eq!(rank("A"), 1);
    assert_eq!(rank("B"), 2);
    assert_eq!(rank("C"), 2);
}

#[test]
fn every_state_is_placed_once() {
    let mut db = StateDatabase::new();
    db.add_transition(EdgeData::new("[*]", "A")).unwrap();
    db.add_transition(EdgeData::new("A", "B")).unwrap();
    db.add_transition(EdgeData::new("B", "A")).unwrap();
    db.add_state(NodeData::new("Lonely", "Lonely")).unwrap();
    let result = StateLayoutAlgorithm::new().layout(&db).unwrap();
    assert_eq!(result.states.len(), db.state_count());
    for s in db.states() {
        assert_eq!(result.states.iter().filter(|p| p.id == s.id).count(), 1);
    }
}

#[test]
fn plain_state_is_three_rows_high() {
    let algo = StateLayoutAlgorithm::new();
    let (w, h) = algo.calculate_state_size("Idle", NodeShape::Rectangle);
    assert_eq!(h, 3);
    assert!(w >= 4 + 2);
}

fn state_named<'a>(
    result: &'a figurehead::state::layout::StateLayoutResult,
    id: &str,
) -> &'a figurehead::state::layout::PositionedState {
    let found: Vec<_> = result.states.iter().filter(|s| s.id == id).collect();
    assert_eq!(found.len(), 1, "one placed state named {id}");
    found[0]
}

#[test]
fn transitions_meet_the_states_they_connect() {
    let mut db = StateDatabase::new();
    for (from, to) in [("[*]", "A"), ("A", "B"), ("A", "C"), ("B", "C"), ("C", "A"), ("B", "A"), ("A", "A"), ("B", "B")] {
        db.add_transition(EdgeData::new(from, to)).unwrap();
    }
    let result = StateLayoutAlgorithm::new().layout(&db).unwrap();
    let mut backs = 0;
    let mut loops = 0;
    for t in &result.transitions {
        let a = state_named(&result, &t.from_id);
        let b = state_named(&result, &t.to_id);
        assert_eq!(t.route == TransitionRoute::SelfLoop, a.id == b.id);
        match t.route {
            TransitionRoute::Forward => {
                assert!(b.rank > a.rank);
                assert_eq!((t.from_x, t.from_y), (a.x + a.width / 2, a.y + a.height));
                assert_eq!((t.to_x, t.to_y), (b.x + b.width / 2, b.y));
                assert_eq!(t.lane, 0);
            }
            TransitionRoute::Backward => {
                assert!(b.rank < a.rank);
                assert_eq!((t.from_x, t.from_y, t.to_x, t.to_y), (a.x, a.y + 1, b.x, b.y + 1));
                assert_eq!(t.lane, backs);
                backs += 1;
            }
            TransitionRoute::Horizontal => {
                assert_eq!(b.rank, a.rank);
                assert_eq!((t.from_y, t.to_y), (a.y + 1, b.y + 1));
                if a.x < b.x {
                    assert_eq!((t.from_x, t.to_x), (a.x + a.width, b.x));
                } else {
                    assert_eq!((t.from_x, t.to_x), (a.x, b.x + b.width));
                }
                assert_eq!(t.lane, 0);
            }
            TransitionRoute::SelfLoop => {
                assert_eq!((t.from_x, t.from_y), (a.x + a.width, a.y + 1));
                assert_eq!((t.to_x, t.to_y), (a.x + a.width / 2, a.y + a.height));
                assert_eq!(t.lane, loops);
                loops += 1;
            }
        }
    }
    assert_eq!(backs, 2);
    assert_eq!(loops, 2);
    assert_eq!(state_named(&result, "B").rank, state_named(&result, "C").rank);
}

#[test]
fn unreachable_states_rank_below_the_deepest() {
    let mut db = StateDatabase::new();
    db.add_transition(EdgeData::new("[*]", "A")).unwrap();
    db.add_transition(EdgeData::new("A", "B")).unwrap();
    db.add_state(NodeData::new("X", "X")).unwrap();
    db.add_transition(EdgeData::new("Z", "X")).unwrap();
    let result = StateLayoutAlgorithm::new().layout(&db).unwrap();
    assert_eq!(state_named(&result, START_TERMINAL).rank, 0);
    assert_eq!(state_named(&result, "A").rank, 1);
    assert_eq!(state_named(&result, "B").rank, 2);
    assert_eq!(state_named(&result, "X").rank, 3);
    assert_eq!(state_named(&result, "Z").rank, 3);
}
