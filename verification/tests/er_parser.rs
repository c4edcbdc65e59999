use figurehead::er::database::{Cardinality, ErDatabase, KeyKind};
use figurehead::er::parser::ErParser;

#[test]
fn parser_test_parse_simple_entity() {
    let parser = ErParser::new();
    let mut db = ErDatabase::new();

    parser
        .parse("erDiagram\n    PayGroup { int Id PK }", &mut db)
        .unwrap();

    assert_eq!(db.entity_count(), 1);
    assert_eq!(db.entities()[0].name, "PayGroup");
    assert_eq!(db.entities()[0].attributes.len(), 1);
    assert_eq!(db.entities()[0].attributes[0].keys, vec![KeyKind::Pk]);
}

#[test]
fn test_parse_relationship_creates_entities() {
    let parser = ErParser::new();
    let mut db = ErDatabase::new();

    parser
        .parse(
            r#"erDiagram
PayGroup ||--o{ PayGroupUserMapping : "has users""#,
            &mut db,
        )
        .unwrap();

    assert_eq!(db.entity_count(), 2);
    assert_eq!(db.relationship_count(), 1);
    let rel = &db.relationships()[0];
    assert_eq!(rel.from, "PayGroup");
    assert_eq!(rel.to, "PayGroupUserMapping");
    assert_eq!(rel.from_cardinality, Cardinality::ExactlyOne);
    assert_eq!(rel.to_cardinality, Cardinality::ZeroOrMore);
    assert_eq!(rel.label.as_deref(), Some("has users"));
}

#[test]
fn parser_test_parse_full_diagram() {
    let parser = ErParser::new();
    let mut db = ErDatabase::new();

    let input = r#"erDiagram
PayGroup {
    int Id PK
    varchar Name
    varchar CountryCode
}
PayGroupUserMapping {
    int Id PK
    int PayGroupId FK
    varchar UserId
}
PayGroup ||--o{ PayGroupUserMapping : "has users""#;

    parser.parse(input, &mut db).unwrap();

    assert_eq!(db.entity_count(), 2);
    assert_eq!(db.relationship_count(), 1);
    assert_eq!(db.entities()[1].attributes.len(), 3);
}

#[test]
fn test_parse_comments_ignored() {
    let parser = ErParser::new();
    let mut db = ErDatabase::new();

    let input = r#"erDiagram
%% top comment
PayGroup {
    int Id PK
}"#;

    parser.parse(input, &mut db).unwrap();

    assert_eq!(db.entity_count(), 1);
    assert_eq!(db.entities()[0].name, "PayGroup");
}

#[test]
fn parse_error_leaves_database_unchanged() {
    let parser = ErParser::new();
    let mut db = ErDatabase::new();
    parser.parse("erDiagram\n    A { int Id PK }", &mut db).unwrap();
    assert!(parser.parse("erDiagram\n    B { int", &mut db).is_err());
    assert_eq!(db.entity_count(), 1);
    assert_eq!(db.entities()[0].name, "A");
}

#[test]
fn relationship_does_not_duplicate_defined_entity() {
    let parser = ErParser::new();
    let mut db = ErDatabase::new();
    parser
        .parse("erDiagram\n    A { int Id PK }\n    A ||--o{ B : has\n    A ||--|| B", &mut db)
        .unwrap();
    assert_eq!(db.entity_count(), 2);
    assert_eq!(db.relationship_count(), 2);
    assert_eq!(db.entities()[0].attributes.len(), 1);
    assert_eq!(db.entities()[1].name, "B");
}

#[test]
fn er_parser_names_its_kind() {
    let parser = ErParser::new();
    assert_eq!(parser.name(), "er");
    assert_eq!(parser.version(), "0.1.0");
    assert!(parser.can_parse("erDiagram\n A"));
    assert!(!parser.can_parse("graph TD"));
}
