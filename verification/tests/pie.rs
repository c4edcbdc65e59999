use figurehead::pie::detector::PieDetector;
use figurehead::pie::parser::{PieLine, PieParser};
use figurehead::pie::renderer::PieRenderer;

#[test]
fn test_detects_pie_keyword() {
    let detector = PieDetector::new();

    assert!(detector.detect("pie\n    \"Dogs\" : 386"));
    assert!(detector.detect("PIE\n    \"Dogs\" : 386"));
    assert!(detector.detect("pie showData\n    \"Dogs\" : 386"));
    assert!(detector.detect("pie title Pets\n    \"Dogs\" : 386"));
}

#[test]
fn test_rejects_other_diagrams() {
    let detector = PieDetector::new();

    assert!(!detector.detect("graph TD\n    A --> B"));
    assert!(!detector.detect("sequenceDiagram\n    A->>B: Hi"));
}

#[test]
fn pie_confidence_values() {
    let detector = PieDetector::new();
    assert_eq!(detector.confidence("  pie title X"), 100);
    assert_eq!(detector.confidence("pies are good"), 0);
    assert_eq!(detector.diagram_type(), "pie");
}

#[test]
fn parse_lines_reads_header_title_and_slices() {
    let lines = PieParser::new().parse_lines(
        "pie showData title Pets\n    title Animals\n    %% note\n    \"Dogs\" : 386\n    \"Cats\" : 85.5\n    junk",
    );
    assert_eq!(
        lines,
        vec![
            PieLine::Header { show_data: true, title: Some("Pets".to_string()) },
            PieLine::Title("Animals".to_string()),
            PieLine::Slice { label: "Dogs".to_string(), value: "386".to_string() },
            PieLine::Slice { label: "Cats".to_string(), value: "85.5".to_string() },
        ]
    );
}

#[test]
fn slice_line_uses_last_colon_and_strips_quotes() {
    let parser = PieParser::new();
    assert_eq!(
        parser.parse_slice_line("  \"a:b\" : 3 "),
        Some(("a:b".to_string(), "3".to_string()))
    );
    assert_eq!(parser.parse_slice_line("\"Dogs\" :"), None);
    assert_eq!(parser.parse_slice_line("no colon here"), None);
    assert_eq!(parser.parse_slice_line("%% \"x\" : 1"), None);
}

#[test]
fn header_and_title_lines() {
    let parser = PieParser::new();
    assert_eq!(parser.parse_header("pie"), (false, None));
    assert_eq!(parser.parse_header("pie showData"), (true, None));
    assert_eq!(parser.parse_header("pie title  Pets "), (false, Some("Pets".to_string())));
    assert_eq!(parser.parse_title_line("  title Zoo "), Some("Zoo".to_string()));
    assert_eq!(parser.parse_title_line("title   "), None);
}

#[test]
fn legend_symbols_and_colors() {
    assert_eq!(PieRenderer::symbol(0), '1');
    assert_eq!(PieRenderer::symbol(9), 'A');
    assert_eq!(PieRenderer::symbol(60), 'z');
    assert_eq!(PieRenderer::symbol(61), '*');
    assert_eq!(PieRenderer::symbol(1000), '*');
    assert_eq!(PieRenderer::color_code(0), 31);
    assert_eq!(PieRenderer::color_code(12), 31);
    assert_eq!(PieRenderer::color_code(7), 92);
    assert_eq!(PieRenderer::with_color(false).render_symbol(1), "2");
    assert_eq!(PieRenderer::new().render_symbol(0), "\x1b[31m1\x1b[0m");
}

#[test]
fn test_parse_simple_pie() {
    let parser = PieParser::new();
    let lines = parser.parse_lines(
        r#"pie
    title Pets adopted by volunteers
    "Dogs" : 386
    "Cats" : 85
    "Rats" : 15"#,
    );
    let outline = parser.outline(&lines).unwrap();
    assert_eq!(outline.title.as_deref(), Some("Pets adopted by volunteers"));
    assert_eq!(outline.slices.len(), 3);
    assert_eq!(outline.slices[0].0, "Dogs");
    let values: Vec<&str> = outline.slices.iter().map(|s| s.1.as_str()).collect();
    assert_eq!(values, vec!["386", "85", "15"]);
}

#[test]
fn test_parse_header_options() {
    let parser = PieParser::new();
    let lines = parser.parse_lines("pie showData title Pets\n    \"Dogs\" : 386");
    let outline = parser.outline(&lines).unwrap();
    assert!(outline.show_data);
    assert_eq!(outline.title.as_deref(), Some("Pets"));
}

#[test]
fn test_parse_uppercase_header() {
    let parser = PieParser::new();
    let lines = parser.parse_lines("PIE\n    \"Dogs\" : 386");
    let outline = parser.outline(&lines).unwrap();
    assert_eq!(outline.slices.len(), 1);
}

#[test]
fn outline_errors_without_header_or_slices() {
    let parser = PieParser::new();
    let no_header = parser.parse_lines("title Pets\n\"Dogs\" : 3");
    assert_eq!(
        parser.outline(&no_header).unwrap_err().message(),
        "Parse error: expected pie diagram header"
    );
    let no_slices = parser.parse_lines("pie title Pets");
    assert_eq!(
        parser.outline(&no_slices).unwrap_err().message(),
        "Parse error: pie diagram contains no slices"
    );
}

#[test]
fn later_title_wins_and_empty_title_clears() {
    let parser = PieParser::new();
    let lines = parser.parse_lines("pie title First\ntitle Second\n\"a\" : 1");
    assert_eq!(parser.outline(&lines).unwrap().title.as_deref(), Some("Second"));
    let lines = parser.parse_lines("pie title\n\"a\" : 1");
    assert_eq!(parser.outline(&lines).unwrap().title, None);
}
