use figurehead::cli::{
    ColorChoice, DiamondChoice, FigureheadApp, LogFormat, LogLevel, StyleChoice,
};
use figurehead::model::{CharacterSet, DiamondStyle};
use figurehead::orchestrator::{DiagramKind, Orchestrator, Processed};
use figurehead::pie::parser::PieLine;
use figurehead::{render, render_with_style};

#[test]
fn test_render_er() {
    let input = r#"erDiagram
    PayGroup {
        int Id PK
        varchar Name
        varchar CountryCode
        varchar CurrencyCode
        int PayFrequency
    }

    PayGroupUserMapping {
        int Id PK
        int PayGroupId FK
        varchar UserId
    }

    PayGroup ||--o{ PayGroupUserMapping : "has users"
    PayGroup ||--o{ PayGroupEmployeeMapping : "has employees""#;
    let result = render(input);
    assert!(result.is_ok(), "render failed: {:?}", result.err());
    let output = result.unwrap();
    assert!(output.contains("PayGroup"));
    assert!(output.contains("PayGroupUserMapping"));
    assert!(output.contains("||"));
    assert!(output.contains("o{"));
    assert!(output.contains("has users"));
}

#[test]
fn test_figurehead_app_creation() {
    let _app = FigureheadApp::new();
}

#[test]
fn test_figurehead_app_default() {
    let _app = FigureheadApp::default();
}

#[test]
fn test_detect_command_with_non_flowchart() {
    let app = FigureheadApp::new();
    let input = "This is not a diagram";

    let result = app.orchestrator().detect_diagram_type(input);
    assert!(result.is_err());
}

#[test]
fn test_validate_command_invalid_diagram() {
    let app = FigureheadApp::new();
    let input = "This is not a diagram";

    let detection_result = app.orchestrator().detect_diagram_type(input);
    assert!(detection_result.is_err());
}

#[test]
fn detection_names_each_kind() {
    let o = Orchestrator::with_all_plugins();
    assert_eq!(o.detect_diagram_type("pie\n \"a\" : 1").unwrap(), "pie");
    assert_eq!(o.detect_diagram_type("erDiagram\n A").unwrap(), "er");
    assert_eq!(o.detect_diagram_type("stateDiagram-v2\n [*] --> A").unwrap(), "state");
    assert_eq!(o.detect("A ||--o{ B"), Some(DiagramKind::Er));
    assert_eq!(o.detect("[*] --> A"), Some(DiagramKind::State));
    assert_eq!(o.detect_diagram_type("graph TD").unwrap_err().message(), "Unknown diagram type");
}

#[test]
fn processing_a_pie_chart_hands_back_its_lines() {
    let o = Orchestrator::with_all_plugins();
    match o.process("pie\n  \"Dogs\" : 3").unwrap() {
        Processed::Pie(lines) => {
            assert_eq!(lines.len(), 2);
            assert_eq!(lines[1], PieLine::Slice { label: "Dogs".to_string(), value: "3".to_string() });
        }
        Processed::Text(t) => panic!("unexpected text {t}"),
    }
    assert!(render("pie\n  \"Dogs\" : 3").is_err());
}

#[test]
fn state_diagram_renders_through_the_pipeline() {
    let out = render("stateDiagram-v2\n  [*] --> Idle\n  Idle --> Busy : go").unwrap();
    assert!(out.contains("Idle"));
    assert!(out.contains("Busy"));
    assert!(out.contains("go"));
    let ascii = render_with_style("stateDiagram-v2\n  [*] --> Idle", CharacterSet::Ascii).unwrap();
    assert!(ascii.is_ascii());
    assert!(ascii.contains("Idle"));
}

#[test]
fn pipeline_reports_parse_errors() {
    let err = render("stateDiagram-v2\nnote left of X: y").unwrap_err();
    assert_eq!(err.message(), "Note references unknown state: X");
    assert!(render("erDiagram\n  A {").is_err());
    assert_eq!(render("hello").unwrap_err().message(), "Unknown diagram type");
}

#[test]
fn log_names() {
    assert_eq!(LogLevel::Trace.as_str(), "trace");
    assert_eq!(LogLevel::Debug.as_str(), "debug");
    assert_eq!(LogLevel::Info.as_str(), "info");
    assert_eq!(LogLevel::Warn.as_str(), "warn");
    assert_eq!(LogLevel::Error.as_str(), "error");
    assert_eq!(LogFormat::Compact.as_str(), "compact");
    assert_eq!(LogFormat::Pretty.as_str(), "pretty");
    assert_eq!(LogFormat::Json.as_str(), "json");
}

#[test]
fn options_select_styles() {
    assert_eq!(CharacterSet::from(StyleChoice::UnicodeMath), CharacterSet::UnicodeMath);
    assert_eq!(DiamondStyle::from(DiamondChoice::Tall), DiamondStyle::Tall);
    assert_eq!(DiamondChoice::default(), DiamondChoice::Box);
    assert_eq!(ColorChoice::default(), ColorChoice::Auto);
    let c = FigureheadApp::build_config(StyleChoice::Ascii, DiamondChoice::Inline);
    assert_eq!(c.style, CharacterSet::Ascii);
    assert_eq!(c.diamond_style, DiamondStyle::Inline);
    assert!(!c.color);
    let mut app = FigureheadApp::new();
    app.configure(StyleChoice::Compact, DiamondChoice::Box, true);
    let cfg = app.orchestrator().render_config();
    assert_eq!(cfg.style, CharacterSet::Compact);
    assert!(cfg.color);
}

#[test]
fn colour_decisions() {
    let dash = Some("-".to_string());
    let file = Some("out.txt".to_string());
    assert!(FigureheadApp::should_colorize(&file, ColorChoice::Always, true, false));
    assert!(!FigureheadApp::should_colorize(&None, ColorChoice::Never, false, true));
    assert!(FigureheadApp::should_colorize(&None, ColorChoice::Auto, false, true));
    assert!(FigureheadApp::should_colorize(&dash, ColorChoice::Auto, false, true));
    assert!(!FigureheadApp::should_colorize(&file, ColorChoice::Auto, false, true));
    assert!(!FigureheadApp::should_colorize(&None, ColorChoice::Auto, true, true));
    assert!(!FigureheadApp::should_colorize(&None, ColorChoice::Auto, false, false));
}

#[test]
fn stdout_text_ends_with_a_line_break() {
    assert_eq!(FigureheadApp::stdout_content(""), "");
    assert_eq!(FigureheadApp::stdout_content("abc"), "abc\n");
    assert_eq!(FigureheadApp::stdout_content("abc\n"), "abc\n");
}
