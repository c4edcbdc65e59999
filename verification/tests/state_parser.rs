use figurehead::model::NodeShape;
use figurehead::state::database::{NoteSide, StateDatabase};
use figurehead::state::parser::{Statement, StateParser};

#[test]
fn test_parse_simple_transition() {
    let parser = StateParser::new();
    let result = parser.parse_statement("Idle --> Running").unwrap();
    assert_eq!(
        result,
        Statement::Transition {
            from: "Idle".to_string(),
            to: "Running".to_string(),
            label: None,
        }
    );
}

#[test]
fn test_parse_transition_with_label() {
    let parser = StateParser::new();
    let result = parser.parse_statement("Idle --> Running : start").unwrap();
    assert_eq!(
        result,
        Statement::Transition {
            from: "Idle".to_string(),
            to: "Running".to_string(),
            label: Some("start".to_string()),
        }
    );
}

#[test]
fn test_parse_terminal_transition() {
    let parser = StateParser::new();
    let result = parser.parse_statement("[*] --> Idle").unwrap();
    assert_eq!(
        result,
        Statement::Transition {
            from: "[*]".to_string(),
            to: "Idle".to_string(),
            label: None,
        }
    );
}

#[test]
fn test_parse_state_declaration() {
    let parser = StateParser::new();
    let result = parser
        .parse_statement("state \"Processing data\" as s1")
        .unwrap();
    assert_eq!(
        result,
        Statement::StateDecl {
            id: "s1".to_string(),
            label: "Processing data".to_string(),
        }
    );
}

#[test]
fn test_parse_full_diagram() {
    let parser = StateParser::new();
    let mut db = StateDatabase::new();

    let input = r#"
stateDiagram-v2
[*] --> Idle
Idle --> Processing : start
Processing --> Done : complete
Done --> [*]
"#;

    parser.parse(input, &mut db).unwrap();

    assert_eq!(db.state_count(), 5); // [*]_start, Idle, Processing, Done, [*]_end
    assert_eq!(db.transition_count(), 4);
}

#[test]
fn test_skips_comments() {
    let parser = StateParser::new();
    let mut db = StateDatabase::new();

    let input = r#"
stateDiagram-v2
%% This is a comment
[*] --> Idle
"#;

    parser.parse(input, &mut db).unwrap();
    assert_eq!(db.transition_count(), 1);
}

#[test]
fn test_can_parse() {
    let parser = StateParser::new();
    assert!(parser.can_parse("stateDiagram-v2\n[*] --> Idle"));
    assert!(parser.can_parse("[*] --> Idle"));
    assert!(!parser.can_parse("graph TD\nA --> B"));
}

#[test]
fn test_parses_notes_descriptions_and_special_states() {
    let parser = StateParser::new();
    let mut db = StateDatabase::new();
    parser
        .parse(
            r#"stateDiagram-v2
Pending: Waiting for review
state Decision <<choice>>
state Parallel <<fork>>
state Complete <<join>>
Pending --> Decision
note right of Pending
    First line
    Second line
end note
note left of Decision: Pick a path"#,
            &mut db,
        )
        .unwrap();

    assert_eq!(db.get_node("Pending").unwrap().label, "Waiting for review");
    assert_eq!(db.get_node("Decision").unwrap().shape, NodeShape::Diamond);
    assert_eq!(db.get_node("Parallel").unwrap().shape, NodeShape::Diamond);
    assert_eq!(db.get_node("Complete").unwrap().shape, NodeShape::Diamond);
    assert_eq!(db.notes().len(), 2);
    assert_eq!(db.notes()[0].text, ["First line", "Second line"]);
    assert_eq!(db.notes()[1].side, NoteSide::Left);
}

#[test]
fn test_description_preserves_special_state_shape() {
    let parser = StateParser::new();
    let mut db = StateDatabase::new();
    parser
        .parse(
            "stateDiagram-v2\nstate Decision <<choice>>\nDecision: Pick a path",
            &mut db,
        )
        .unwrap();

    let state = db.get_node("Decision").unwrap();
    assert_eq!(state.label, "Pick a path");
    assert_eq!(state.shape, NodeShape::Diamond);
}

#[test]
fn test_rejects_note_for_unknown_state() {
    let parser = StateParser::new();
    let mut db = StateDatabase::new();
    let error = parser
        .parse(
            "stateDiagram-v2\nnote right of Missing: This should not disappear",
            &mut db,
        )
        .unwrap_err();

    assert_eq!(error.message(), "Note references unknown state: Missing");
}

#[test]
fn parse_statement_rejects_other_lines() {
    let parser = StateParser::new();
    assert!(parser.parse_statement("note right of A: x").is_err());
    assert!(parser.parse_statement("").is_err());
}

#[test]
fn state_parser_names_its_kind() {
    let parser = StateParser::new();
    assert_eq!(parser.name(), "state");
    assert_eq!(parser.version(), "0.1.0");
}

#[test]
fn unknown_note_error_keeps_parsed_states() {
    let parser = StateParser::new();
    let mut db = StateDatabase::new();
    let error = parser.parse("stateDiagram-v2\nA --> B\nnote left of C: x", &mut db).unwrap_err();
    assert_eq!(error.message(), "Note references unknown state: C");
    assert_eq!(db.state_count(), 2);
}
