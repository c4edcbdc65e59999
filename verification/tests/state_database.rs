use figurehead::model::{EdgeData, EdgeType, NodeData, NodeShape};
use figurehead::state::database::{StateDatabase, END_TERMINAL, START_TERMINAL};

#[test]
fn test_add_state() {
    let mut db = StateDatabase::new();
    db.add_state(NodeData::new("Idle", "Idle")).unwrap();
    db.add_state(NodeData::new("Running", "Running")).unwrap();
    assert_eq!(db.state_count(), 2);
}

#[test]
fn test_no_duplicate_states() {
    let mut db = StateDatabase::new();
    db.add_state(NodeData::new("Idle", "Idle")).unwrap();
    db.add_state(NodeData::new("Idle", "Idle")).unwrap();
    assert_eq!(db.state_count(), 1);
}

#[test]
fn test_add_transition_creates_implicit_states() {
    let mut db = StateDatabase::new();
    db.add_transition(EdgeData::new("Idle", "Running")).unwrap();
    assert_eq!(db.state_count(), 2);
    assert_eq!(db.transition_count(), 1);
}

#[test]
fn test_start_terminal_converted() {
    let mut db = StateDatabase::new();
    db.add_transition(EdgeData::new("[*]", "Idle")).unwrap();

    assert!(db.has_start_terminal());
    assert!(db.get_node(START_TERMINAL).is_some());
    assert_eq!(db.get_node(START_TERMINAL).unwrap().shape, NodeShape::Terminal);
}

#[test]
fn test_end_terminal_converted() {
    let mut db = StateDatabase::new();
    db.add_transition(EdgeData::new("Done", "[*]")).unwrap();

    assert!(db.has_end_terminal());
    assert!(db.get_node(END_TERMINAL).is_some());
    assert_eq!(db.get_node(END_TERMINAL).unwrap().shape, NodeShape::Terminal);
}

#[test]
fn test_both_terminals_separate() {
    let mut db = StateDatabase::new();
    db.add_transition(EdgeData::new("[*]", "Idle")).unwrap();
    db.add_transition(EdgeData::new("Idle", "[*]")).unwrap();

    assert_eq!(db.state_count(), 3);
    assert!(db.has_start_terminal());
    assert!(db.has_end_terminal());
    assert!(db.get_node(START_TERMINAL).is_some());
    assert!(db.get_node(END_TERMINAL).is_some());
}

#[test]
fn test_transition_with_label() {
    let mut db = StateDatabase::new();
    let edge = EdgeData::with_label("Idle", "Running", EdgeType::Arrow, "start");
    db.add_transition(edge).unwrap();

    let transition = &db.transitions()[0];
    assert_eq!(transition.label, Some("start".to_string()));
}

#[test]
fn adding_a_state_twice_keeps_latest_label() {
    let mut db = StateDatabase::new();
    db.add_state(NodeData::new("Idle", "Idle")).unwrap();
    db.add_state(NodeData::new("Idle", "Waiting")).unwrap();
    assert_eq!(db.state_count(), 1);
    assert_eq!(db.get_node("Idle").unwrap().label, "Waiting");
}

#[test]
fn special_shape_survives_plain_redeclaration() {
    let mut db = StateDatabase::new();
    db.add_state(NodeData::with_shape("D", "D", NodeShape::Diamond)).unwrap();
    db.add_state(NodeData::new("D", "Pick")).unwrap();
    let n = db.get_node("D").unwrap();
    assert_eq!(n.shape, NodeShape::Diamond);
    assert_eq!(n.label, "Pick");
}

#[test]
fn transition_endpoints_are_rewritten_for_terminals() {
    let mut db = StateDatabase::new();
    db.add_transition(EdgeData::new("[*]", "A")).unwrap();
    db.add_transition(EdgeData::new("A", "[*]")).unwrap();
    assert_eq!(db.transitions()[0].from, START_TERMINAL);
    assert_eq!(db.transitions()[1].to, END_TERMINAL);
    assert_eq!(db.state_index("A"), Some(1));
}

#[test]
fn clear_all_empties_the_database() {
    let mut db = StateDatabase::new();
    db.add_transition(EdgeData::new("[*]", "A")).unwrap();
    db.clear_all();
    assert_eq!(db.state_count(), 0);
    assert_eq!(db.transition_count(), 0);
    assert!(!db.has_start_terminal());
    assert!(!db.has_end_terminal());
}
