use figurehead::er::database::{Cardinality, KeyKind};
use figurehead::er::grammar::Direction;
use figurehead::er::parser::{ChumskyErParser, Statement};

#[test]
fn chumsky_parser_test_parse_simple_entity() {
    let parser = ChumskyErParser::new();
    let result = parser.parse_statement("PayGroup { int Id PK }").unwrap();

    match result {
        Statement::Entity(entity) => {
            assert_eq!(entity.name, "PayGroup");
            assert_eq!(entity.attributes.len(), 1);
            assert_eq!(entity.attributes[0].attr_type, "int");
            assert_eq!(entity.attributes[0].name, "Id");
            assert_eq!(entity.attributes[0].keys, vec![KeyKind::Pk]);
        }
        _ => panic!("Expected entity statement"),
    }
}

#[test]
fn test_parse_entity_with_comment() {
    let parser = ChumskyErParser::new();
    let input = r#"FileUUID { varchar FileUUID "DMS document reference" }"#;
    let result = parser.parse_statement(input).unwrap();

    match result {
        Statement::Entity(entity) => {
            assert_eq!(
                entity.attributes[0].comment.as_deref(),
                Some("DMS document reference")
            );
        }
        _ => panic!("Expected entity statement"),
    }
}

#[test]
fn test_parse_entity_multiline() {
    let parser = ChumskyErParser::new();
    let input = "PayGroup {\n    int Id PK\n    varchar Name\n}";
    let result = parser.parse_statement(input).unwrap();

    match result {
        Statement::Entity(entity) => {
            assert_eq!(entity.name, "PayGroup");
            assert_eq!(entity.attributes.len(), 2);
            assert_eq!(entity.attributes[1].name, "Name");
            assert!(entity.attributes[1].keys.is_empty());
        }
        _ => panic!("Expected entity statement"),
    }
}

#[test]
fn test_parse_entity_with_alias() {
    let parser = ChumskyErParser::new();
    let result = parser
        .parse_statement("PERSON[Customer] { int Id PK }")
        .unwrap();

    match result {
        Statement::Entity(entity) => {
            assert_eq!(entity.name, "PERSON");
            assert_eq!(entity.alias.as_deref(), Some("Customer"));
        }
        _ => panic!("Expected entity statement"),
    }
}

#[test]
fn test_parse_entity_quoted_name() {
    let parser = ChumskyErParser::new();
    let result = parser
        .parse_statement(r#""name with space" { int Id PK }"#)
        .unwrap();

    match result {
        Statement::Entity(entity) => {
            assert_eq!(entity.name, "name with space");
        }
        _ => panic!("Expected entity statement"),
    }
}

#[test]
fn test_parse_type_with_parens() {
    let parser = ChumskyErParser::new();
    let result = parser
        .parse_statement("User { varchar(255) Name }")
        .unwrap();

    match result {
        Statement::Entity(entity) => {
            assert_eq!(entity.attributes[0].attr_type, "varchar(255)");
        }
        _ => panic!("Expected entity statement"),
    }
}

#[test]
fn test_parse_type_decimal_with_precision() {
    let parser = ChumskyErParser::new();
    let result = parser
        .parse_statement("Price { decimal(10,2) Amount }")
        .unwrap();

    match result {
        Statement::Entity(entity) => {
            assert_eq!(entity.attributes[0].attr_type, "decimal(10,2)");
        }
        _ => panic!("Expected entity statement"),
    }
}

#[test]
fn test_parse_uk_key() {
    let parser = ChumskyErParser::new();
    let result = parser.parse_statement("User { varchar Email UK }").unwrap();

    match result {
        Statement::Entity(entity) => {
            assert_eq!(entity.attributes[0].keys, vec![KeyKind::Uk]);
        }
        _ => panic!("Expected entity statement"),
    }
}

#[test]
fn test_parse_multiple_keys() {
    let parser = ChumskyErParser::new();
    let result = parser.parse_statement("User { int Id PK, FK }").unwrap();

    match result {
        Statement::Entity(entity) => {
            assert_eq!(entity.attributes[0].keys, vec![KeyKind::Pk, KeyKind::Fk]);
        }
        _ => panic!("Expected entity statement"),
    }
}

#[test]
fn test_parse_relationship() {
    let parser = ChumskyErParser::new();
    let result = parser
        .parse_statement(r#"PayGroup ||--o{ PayGroupUserMapping : "has users""#)
        .unwrap();

    match result {
        Statement::Relationship(rel) => {
            assert_eq!(rel.from, "PayGroup");
            assert_eq!(rel.to, "PayGroupUserMapping");
            assert_eq!(rel.from_cardinality, Cardinality::ExactlyOne);
            assert_eq!(rel.to_cardinality, Cardinality::ZeroOrMore);
            assert_eq!(rel.label.as_deref(), Some("has users"));
        }
        _ => panic!("Expected relationship statement"),
    }
}

#[test]
fn test_parse_relationship_no_label() {
    let parser = ChumskyErParser::new();
    let result = parser
        .parse_statement("CustomerSubscription }o--|| SubscriptionType")
        .unwrap();

    match result {
        Statement::Relationship(rel) => {
            assert_eq!(rel.from_cardinality, Cardinality::ZeroOrMore);
            assert_eq!(rel.to_cardinality, Cardinality::ExactlyOne);
            assert!(rel.label.is_none());
        }
        _ => panic!("Expected relationship statement"),
    }
}

#[test]
fn test_parse_relationship_bare_label() {
    let parser = ChumskyErParser::new();
    let result = parser
        .parse_statement("Invoice ||--o| InvoiceSubscription : recurring")
        .unwrap();

    match result {
        Statement::Relationship(rel) => {
            assert_eq!(rel.to_cardinality, Cardinality::ZeroOrOne);
            assert_eq!(rel.label.as_deref(), Some("recurring"));
        }
        _ => panic!("Expected relationship statement"),
    }
}

#[test]
fn test_parse_relationship_cardinality_words() {
    let parser = ChumskyErParser::new();
    let result = parser
        .parse_statement("A one or more -- zero or more B")
        .unwrap();

    match result {
        Statement::Relationship(rel) => {
            assert_eq!(rel.from_cardinality, Cardinality::OneOrMore);
            assert_eq!(rel.to_cardinality, Cardinality::ZeroOrMore);
        }
        _ => panic!("Expected relationship statement"),
    }
}

#[test]
fn test_parse_relationship_cardinality_1plus() {
    let parser = ChumskyErParser::new();
    let result = parser.parse_statement("A 1+ -- 0+ B").unwrap();

    match result {
        Statement::Relationship(rel) => {
            assert_eq!(rel.from_cardinality, Cardinality::OneOrMore);
            assert_eq!(rel.to_cardinality, Cardinality::ZeroOrMore);
        }
        _ => panic!("Expected relationship statement"),
    }
}

#[test]
fn test_parse_relationship_connector_to() {
    let parser = ChumskyErParser::new();
    let result = parser.parse_statement("A || to || B").unwrap();

    match result {
        Statement::Relationship(rel) => {
            assert_eq!(rel.from_cardinality, Cardinality::ExactlyOne);
            assert_eq!(rel.to_cardinality, Cardinality::ExactlyOne);
        }
        _ => panic!("Expected relationship statement"),
    }
}

#[test]
fn test_parse_relationship_connector_optionally_to() {
    let parser = ChumskyErParser::new();
    let result = parser
        .parse_statement(r#"A }o optionally to o{ B : "rel""#)
        .unwrap();

    match result {
        Statement::Relationship(rel) => {
            assert_eq!(rel.from_cardinality, Cardinality::ZeroOrMore);
            assert_eq!(rel.to_cardinality, Cardinality::ZeroOrMore);
        }
        _ => panic!("Expected relationship statement"),
    }
}

#[test]
fn test_parse_relationship_dashed() {
    let parser = ChumskyErParser::new();
    let result = parser
        .parse_statement(r#"PERSON }|..|{ CAR : "driver""#)
        .unwrap();

    match result {
        Statement::Relationship(rel) => {
            assert_eq!(rel.from_cardinality, Cardinality::OneOrMore);
            assert_eq!(rel.to_cardinality, Cardinality::OneOrMore);
            assert_eq!(rel.label.as_deref(), Some("driver"));
        }
        _ => panic!("Expected relationship statement"),
    }
}

#[test]
fn test_parse_direction() {
    let parser = ChumskyErParser::new();
    assert!(matches!(
        parser.parse_statement("direction LR").unwrap(),
        Statement::Direction(Direction::Lr)
    ));
    assert!(matches!(
        parser.parse_statement("direction TB").unwrap(),
        Statement::Direction(Direction::Tb)
    ));
}

#[test]
fn test_parse_standalone_entity() {
    let parser = ChumskyErParser::new();
    let result = parser.parse_statement("CUSTOMER").unwrap();
    match result {
        Statement::Entity(entity) => {
            assert_eq!(entity.name, "CUSTOMER");
            assert!(entity.attributes.is_empty());
        }
        _ => panic!("Expected entity statement"),
    }
}

#[test]
fn test_parse_attribute_star_prefix() {
    let parser = ChumskyErParser::new();
    let result = parser.parse_statement("User { int *Id }").unwrap();
    match result {
        Statement::Entity(entity) => {
            assert_eq!(entity.attributes[0].name, "Id");
            assert_eq!(entity.attributes[0].keys, vec![KeyKind::Pk]);
        }
        _ => panic!("Expected entity statement"),
    }
}

#[test]
fn test_parse_attribute_star_plus_explicit_key() {
    let parser = ChumskyErParser::new();
    let result = parser.parse_statement("User { int *Id FK }").unwrap();
    match result {
        Statement::Entity(entity) => {
            assert_eq!(entity.attributes[0].name, "Id");
            assert_eq!(entity.attributes[0].keys, vec![KeyKind::Pk, KeyKind::Fk]);
        }
        _ => panic!("Expected entity statement"),
    }
}

#[test]
fn test_parse_class_apply_on_entity() {
    let parser = ChumskyErParser::new();
    let result = parser
        .parse_statement("User:::highlight { int Id PK }")
        .unwrap();
    match result {
        Statement::Entity(entity) => {
            assert_eq!(entity.name, "User");
        }
        _ => panic!("Expected entity statement"),
    }
}

#[test]
fn test_parse_class_apply_on_relationship() {
    let parser = ChumskyErParser::new();
    let result = parser
        .parse_statement("A ||--o{ B:::highlight : rel")
        .unwrap();
    match result {
        Statement::Relationship(rel) => {
            assert_eq!(rel.from, "A");
            assert_eq!(rel.to, "B");
        }
        _ => panic!("Expected relationship statement"),
    }
}

#[test]
fn test_parse_standalone_entity_with_class_apply() {
    let parser = ChumskyErParser::new();
    let result = parser.parse_statement("CUSTOMER:::foo").unwrap();
    match result {
        Statement::Entity(entity) => {
            assert_eq!(entity.name, "CUSTOMER");
        }
        _ => panic!("Expected entity statement"),
    }
}

#[test]
fn test_parse_style_ignored() {
    let parser = ChumskyErParser::new();
    assert!(matches!(
        parser.parse_statement("style Person fill:#f9f").unwrap(),
        Statement::Style
    ));
    assert!(matches!(
        parser.parse_statement("classDef foo fill:#f9f").unwrap(),
        Statement::Style
    ));
}

#[test]
fn chumsky_parser_test_parse_full_diagram() {
    let parser = ChumskyErParser::new();
    let input = r#"erDiagram
PayGroup {
    int Id PK
    varchar Name
}
PayGroup ||--o{ PayGroupUserMapping : "has users""#;

    let result = parser.parse_diagram(input).unwrap();
    assert_eq!(result.len(), 2);
}

#[test]
fn test_parse_diagram_with_comments() {
    let parser = ChumskyErParser::new();
    let input = r#"erDiagram
%% a comment
PayGroup {
    int Id PK
}"#;

    let result = parser.parse_diagram(input).unwrap();
    assert_eq!(result.len(), 2);
    assert!(matches!(result[0], Statement::Comment));
}
