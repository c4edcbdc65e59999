use figurehead::canvas::AsciiCanvas;
use figurehead::model::{CharacterSet, EdgeData, NodeData};
use figurehead::state::database::StateDatabase;
use figurehead::state::layout::{PositionedTransition, TransitionRoute};
use figurehead::state::parser::StateParser;
use figurehead::state::renderer::StateRenderer;

fn render_source(source: &str) -> String {
    let mut db = StateDatabase::new();
    StateParser::new().parse(source, &mut db).unwrap();
    StateRenderer::new().render(&db).unwrap()
}

#[test]
fn renderer_test_render_empty() {
    let db = StateDatabase::new();
    let renderer = StateRenderer::new();
    let output = renderer.render(&db).unwrap();
    assert!(output.is_empty());
}

#[test]
fn test_render_single_state() {
    let mut db = StateDatabase::new();
    db.add_state(NodeData::new("Idle", "Idle")).unwrap();

    let renderer = StateRenderer::new();
    let output = renderer.render(&db).unwrap();

    assert!(output.contains("Idle"));
    assert!(output.contains('┌') || output.contains('+'));
}

#[test]
fn test_render_with_terminal() {
    let mut db = StateDatabase::new();
    db.add_transition(EdgeData::new("[*]", "Idle")).unwrap();

    let renderer = StateRenderer::new();
    let output = renderer.render(&db).unwrap();

    assert!(output.contains("●") || output.contains("*"));
    assert!(output.contains("Idle"));
}

#[test]
fn test_render_ascii_mode() {
    let mut db = StateDatabase::new();
    db.add_state(NodeData::new("Test", "Test")).unwrap();

    let renderer = StateRenderer::with_style(CharacterSet::Ascii);
    let output = renderer.render(&db).unwrap();

    assert!(output.contains('+'));
    assert!(output.contains('-'));
}

#[test]
fn test_render_branching() {
    let mut db = StateDatabase::new();
    db.add_transition(EdgeData::new("[*]", "Idle")).unwrap();
    db.add_transition(EdgeData::new("Idle", "Processing")).unwrap();
    db.add_transition(EdgeData::new("Processing", "Success")).unwrap();
    db.add_transition(EdgeData::new("Processing", "Failed")).unwrap();
    db.add_transition(EdgeData::new("Success", "[*]")).unwrap();
    db.add_transition(EdgeData::new("Failed", "[*]")).unwrap();

    let renderer = StateRenderer::new();
    let output = renderer.render(&db).unwrap();

    let first_line = output.lines().next().unwrap();
    assert!(
        first_line.starts_with("  ") || first_line.trim().is_empty(),
        "First line should have leading spaces or be empty, got: '{}'",
        first_line
    );
}

#[test]
fn test_render_cyclic_payment_state_diagram_with_note() {
    let output = render_source(
        r#"stateDiagram-v2
    [*] --> Processing: instruction sent to Citi
    Processing --> Credited: success
    Processing --> ManualRetryRequired: technical failure (1524)
    Processing --> Returned: bank return CAMT.056 (1522)
    Processing --> Rejected: Citi RJCT (1522)
    ManualRetryRequired --> Processing: Retry (same instruction, no changes)
    ManualRetryRequired --> ManualRetryRequired: Retry fails again
    Rejected --> NewBatch: Resubmit (new instruction, live WSE bank details)
    Returned --> NewBatch: Resubmit (new instruction, live WSE bank details)
    NewBatch --> Processing: Authorize -> Book FX -> Send
    Credited --> [*]
    note right of Rejected
        Original failure row is preserved
        in Audit Log + Pay Ledger (AC6)
    end note"#,
    );

    for expected in [
        "Processing",
        "ManualRetryRequired",
        "Retry fails again",
        "Authorize -> Book FX -> Send",
        "Original failure row is preserved",
        "in Audit Log + Pay Ledger (AC6)",
    ] {
        assert!(output.contains(expected), "missing {expected:?}:\n{output}");
    }
    assert!(output.contains('◀') || output.contains('▶'));
    assert!(output.contains('▲'));
    assert!(!output.contains("Transitions:"));
}

#[test]
fn test_render_complex_choice_diagram() {
    let output = render_source(
        r#"stateDiagram-v2
    state "Waiting for payment" as Waiting
    state Decision <<choice>>
    [*] --> Waiting
    Waiting --> Decision: funds received
    Decision --> Settled: amount matches
    Decision --> Review: discrepancy
    Review --> Waiting: request correction
    Review --> Review: still incomplete
    Settled --> [*]
    note left of Decision: Validate currency and amount
    note right of Review
        Keep the original submission
        for the audit trail
    end note"#,
    );

    for expected in [
        "Waiting for payment",
        "Decision",
        "Settled",
        "Review",
        "Validate currency and amount",
        "Keep the original submission",
        "still incomplete",
    ] {
        assert!(output.contains(expected), "missing {expected:?}:\n{output}");
    }
    assert!(output.contains('◆'));
}

#[test]
fn test_self_loop_closes_after_label() {
    let output = render_source(
        r#"stateDiagram-v2
    [*] --> ManualRetryRequired
    ManualRetryRequired --> ManualRetryRequired: Retry fails again"#,
    );

    let label_line = output.lines().find(|line| line.contains("Retry fails again")).unwrap();
    let after_label = label_line.split_once("Retry fails again").unwrap().1;
    assert!(after_label.contains('─'));
    assert!(after_label.contains('│'));
}

#[test]
fn test_horizontal_edge_connects_different_rows() {
    let renderer = StateRenderer::new();
    let mut canvas = AsciiCanvas::new(12, 8);
    let edge = PositionedTransition {
        from_id: "Short".to_string(),
        to_id: "Tall".to_string(),
        label: None,
        from_x: 2,
        from_y: 2,
        to_x: 8,
        to_y: 5,
        route: TransitionRoute::Horizontal,
        lane: 0,
    };

    renderer.draw_horizontal_edge(&mut canvas, &edge);

    assert_eq!(canvas.get_char(7, 2), '─');
    assert_eq!(canvas.get_char(7, 3), '│');
    assert_eq!(canvas.get_char(7, 4), '│');
    assert_eq!(canvas.get_char(7, 5), '▶');
}

#[test]
fn ascii_style_uses_no_box_drawing() {
    let output = {
        let mut db = StateDatabase::new();
        db.add_transition(EdgeData::new("[*]", "Idle")).unwrap();
        db.add_transition(EdgeData::new("Idle", "[*]")).unwrap();
        StateRenderer::with_style(CharacterSet::Ascii).render(&db).unwrap()
    };
    assert!(output.is_ascii(), "{output}");
    assert!(output.contains("Idle"));
}

#[test]
fn long_label_state_lays_out_and_renders() {
    let label: String = std::iter::repeat('q').take(5000).collect();
    let mut db = StateDatabase::new();
    db.add_state(NodeData::new("Long", &label)).unwrap();
    db.add_transition(EdgeData::new("[*]", "Long")).unwrap();
    let output = StateRenderer::new().render(&db).unwrap();
    assert!(output.contains(&label));
    assert!(output.contains("(●)"));
}

#[test]
fn every_state_is_visible_in_both_styles() {
    let source = "stateDiagram-v2\n    [*] --> Idle\n    Idle --> Busy : start job\n    Busy --> Idle : done\n    Busy --> Busy : retry\n    Busy --> Failed\n    Idle --> Failed\n    Failed --> [*]\n";
    let mut db = StateDatabase::new();
    StateParser::new().parse(source, &mut db).unwrap();
    let unicode = StateRenderer::new().render(&db).unwrap();
    for label in ["Idle", "Busy", "Failed", "(●)", "(○)"] {
        assert!(unicode.contains(label), "missing {label}");
    }
    let ascii = StateRenderer::with_style(CharacterSet::Ascii).render(&db).unwrap();
    for label in ["Idle", "Busy", "Failed", "(*)", "(o)"] {
        assert!(ascii.contains(label), "missing {label}");
    }
}
