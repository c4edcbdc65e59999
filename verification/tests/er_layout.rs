use figurehead::er::database::{Attribute, Cardinality, Entity, ErDatabase, KeyKind, Relationship};
use figurehead::er::detector::ErDetector;
use figurehead::er::layout::{ErLayoutAlgorithm, PortSide};

#[test]
fn test_detects_er_diagram_keyword() {
    let detector = ErDetector::new();
    assert!(detector.detect("erDiagram\n    PayGroup {"));
    assert!(detector.detect("ERDIAGRAM\n    PayGroup {"));
    assert!(detector.detect("\nerDiagram\n    A ||--o{ B"));
}

#[test]
fn test_detects_er_markers() {
    let detector = ErDetector::new();
    assert!(detector.detect("A ||--o{ B : has"));
    assert!(detector.detect("A }o--|| B"));
}

#[test]
fn test_confidence_scoring() {
    let detector = ErDetector::new();
    assert_eq!(detector.confidence("erDiagram\n    A"), 100);
    assert!(detector.confidence("A ||--o{ B") >= 80);
    assert_eq!(detector.confidence("graph TD; A-->B"), 0);
}

#[test]
fn test_rejects_flowchart() {
    let detector = ErDetector::new();
    assert!(!detector.detect("graph TD; A-->B"));
    assert!(!detector.detect("flowchart LR; A-->B"));
}

#[test]
fn test_rejects_class() {
    let detector = ErDetector::new();
    assert!(!detector.detect("classDiagram\n    class Animal"));
}

#[test]
fn test_rejects_sequence() {
    let detector = ErDetector::new();
    assert!(!detector.detect("sequenceDiagram\n    Alice->>Bob: Hello"));
}

#[test]
fn detector_reports_its_type() {
    assert_eq!(ErDetector::new().diagram_type(), "er");
}

#[test]
fn test_empty_layout() {
    let db = ErDatabase::new();
    let layout = ErLayoutAlgorithm::new();
    let result = layout.layout(&db).unwrap();
    assert_eq!(result.entities.len(), 0);
}

#[test]
fn test_single_entity() {
    let mut db = ErDatabase::new();
    db.add_entity(Entity::new("PayGroup")).unwrap();

    let layout = ErLayoutAlgorithm::new();
    let result = layout.layout(&db).unwrap();

    assert_eq!(result.entities.len(), 1);
    assert_eq!(result.entities[0].name, "PayGroup");
}

#[test]
fn test_entity_with_attributes_width() {
    let mut db = ErDatabase::new();
    let mut e = Entity::new("PayGroup");
    e.add_attribute(Attribute::new("Id", "int").with_key(KeyKind::Pk));
    e.add_attribute(Attribute::new("Name", "varchar"));
    db.add_entity(e).unwrap();

    let layout = ErLayoutAlgorithm::new();
    let result = layout.layout(&db).unwrap();

    assert!(result.entities[0].width > 10);
    assert_eq!(result.entities[0].attribute_lines.len(), 2);
}

#[test]
fn test_multiple_entities_grid() {
    let mut db = ErDatabase::new();
    db.add_entity(Entity::new("A")).unwrap();
    db.add_entity(Entity::new("B")).unwrap();
    db.add_entity(Entity::new("C")).unwrap();
    db.add_entity(Entity::new("D")).unwrap();

    let layout = ErLayoutAlgorithm::new();
    let result = layout.layout(&db).unwrap();

    assert_eq!(result.entities.len(), 4);
    assert_eq!(result.entities[0].y, result.entities[1].y);
    assert!(result.entities[3].y > result.entities[0].y);
}

#[test]
fn test_relationship_positioning_horizontal() {
    let mut db = ErDatabase::new();
    db.add_entity(Entity::new("A")).unwrap();
    db.add_entity(Entity::new("B")).unwrap();
    db.add_relationship(Relationship::new("A", "B", Cardinality::ExactlyOne, Cardinality::ZeroOrMore))
        .unwrap();

    let layout = ErLayoutAlgorithm::new();
    let result = layout.layout(&db).unwrap();

    assert_eq!(result.relationships.len(), 1);
    assert!(result.relationships[0].horizontal);
}

#[test]
fn test_comment_wraps_to_second_line() {
    let mut db = ErDatabase::new();
    let mut e = Entity::new("Doc");
    e.add_attribute(Attribute::new("Id", "int").with_key(KeyKind::Pk));
    e.add_attribute(Attribute::new("Name", "varchar").with_comment("a very long comment that overflows"));
    db.add_entity(e).unwrap();

    let layout = ErLayoutAlgorithm::new();
    let result = layout.layout(&db).unwrap();

    let lines = &result.entities[0].attribute_lines;
    assert!(lines.len() >= 3);
    assert!(lines[2].starts_with("  \""));
}

#[test]
fn test_entity_alias_displayed() {
    let mut db = ErDatabase::new();
    db.add_entity(Entity::new("PERSON").with_alias("Customer")).unwrap();

    let layout = ErLayoutAlgorithm::new();
    let result = layout.layout(&db).unwrap();

    assert_eq!(result.entities[0].name, "Customer");
}

#[test]
fn test_needed_spacing_accounts_for_labels() {
    let mut db = ErDatabase::new();
    db.add_entity(Entity::new("A")).unwrap();
    db.add_entity(Entity::new("B")).unwrap();
    db.add_relationship(
        Relationship::new("A", "B", Cardinality::ExactlyOne, Cardinality::ZeroOrMore)
            .with_label("a very long relationship label"),
    )
    .unwrap();

    let layout = ErLayoutAlgorithm::new();
    let result = layout.layout(&db).unwrap();

    let a = result.entities.iter().find(|e| e.name == "A").unwrap();
    let b = result.entities.iter().find(|e| e.name == "B").unwrap();
    let gap = b.x - (a.x + a.width);
    assert!(gap > 4, "gap={gap} should accommodate the long label");
}

#[test]
fn layout_places_single_box_at_origin_with_exact_size() {
    let mut db = ErDatabase::new();
    db.add_entity(Entity::new("AB")).unwrap();
    let result = ErLayoutAlgorithm::new().layout(&db).unwrap();
    let e = &result.entities[0];
    assert_eq!((e.x, e.y), (0, 0));
    assert_eq!(e.height, 3);
    assert!(e.width >= 2 + 4);
}

#[test]
fn horizontal_relationship_runs_from_right_side_to_left_side() {
    let mut db = ErDatabase::new();
    db.add_entity(Entity::new("A")).unwrap();
    db.add_entity(Entity::new("B")).unwrap();
    db.add_relationship(Relationship::new("A", "B", Cardinality::ExactlyOne, Cardinality::ZeroOrMore))
        .unwrap();
    let result = ErLayoutAlgorithm::new().layout(&db).unwrap();
    let r = &result.relationships[0];
    assert_eq!(r.from_side, PortSide::Right);
    assert_eq!(r.to_side, PortSide::Left);
    assert_eq!(r.from_y, r.to_y);
    assert!(r.from_x < r.to_x);
}

#[test]
fn relationship_to_unknown_entity_is_not_placed() {
    let mut db = ErDatabase::new();
    db.add_entity(Entity::new("A")).unwrap();
    db.add_relationship(Relationship::new("A", "Z", Cardinality::ExactlyOne, Cardinality::ZeroOrMore))
        .unwrap();
    let result = ErLayoutAlgorithm::new().layout(&db).unwrap();
    assert_eq!(result.relationships.len(), 0);
}

#[test]
fn boxes_never_overlap() {
    let mut db = ErDatabase::new();
    for (name, attrs) in [("A", 0), ("LongerName", 2), ("C", 5), ("D", 1), ("E", 0)] {
        let mut e = Entity::new(name);
        for k in 0..attrs {
            e.add_attribute(Attribute::new(&format!("f{k}"), "int"));
        }
        db.add_entity(e).unwrap();
    }
    let result = ErLayoutAlgorithm::new().layout(&db).unwrap();
    let es = &result.entities;
    for i in 0..es.len() {
        for j in (i + 1)..es.len() {
            let (a, b) = (&es[i], &es[j]);
            let side_by_side = j == i + 1 && i % 2 == 0 && a.y == b.y && a.x + a.width + 8 == b.x;
            let below = a.y + a.height + 4 <= b.y;
            assert!(side_by_side || below, "{i} and {j} overlap");
        }
    }
}

#[test]
fn box_width_follows_display_width() {
    let mut db = ErDatabase::new();
    db.add_entity(Entity::new("漢字")).unwrap();
    db.add_entity(Entity::new("ab")).unwrap();
    let result = ErLayoutAlgorithm::new().layout(&db).unwrap();
    assert_eq!(result.entities[0].width, 8);
    assert_eq!(result.entities[1].width, 6);
}

#[test]
fn long_entity_name_lays_out() {
    let name: String = std::iter::repeat('E').take(40000).collect();
    let mut db = ErDatabase::new();
    db.add_entity(Entity::new(&name)).unwrap();
    db.add_entity(Entity::new("Other")).unwrap();
    let result = ErLayoutAlgorithm::new().layout(&db).unwrap();
    assert_eq!(result.entities.len(), 2);
    assert!(result.entities[0].width >= 40000);
}

#[test]
fn relationship_lines_join_the_boxes_they_name() {
    let mut db = ErDatabase::new();
    for name in ["A", "B", "C"] {
        db.add_entity(Entity::new(name)).unwrap();
    }
    db.add_relationship(Relationship::new("A", "B", Cardinality::ExactlyOne, Cardinality::ZeroOrMore)).unwrap();
    db.add_relationship(Relationship::new("C", "A", Cardinality::ZeroOrOne, Cardinality::OneOrMore)).unwrap();
    db.add_relationship(Relationship::new("B", "Z", Cardinality::ExactlyOne, Cardinality::ExactlyOne)).unwrap();
    db.add_relationship(
        Relationship::new("B", "A", Cardinality::OneOrMore, Cardinality::ExactlyOne).with_label("owns"),
    )
    .unwrap();
    let result = ErLayoutAlgorithm::new().layout(&db).unwrap();
    let (a, b, c) = (&result.entities[0], &result.entities[1], &result.entities[2]);
    assert_eq!(result.relationships.len(), 3);
    let ab = &result.relationships[0];
    assert_eq!((ab.from_entity.as_str(), ab.to_entity.as_str()), ("A", "B"));
    assert!(ab.horizontal);
    assert_eq!((ab.from_x, ab.to_x), (a.x + a.width, b.x));
    assert_eq!(ab.from_y, ab.to_y);
    let ca = &result.relationships[1];
    assert_eq!((ca.from_entity.as_str(), ca.to_entity.as_str()), ("C", "A"));
    assert!(!ca.horizontal);
    assert_eq!(ca.from_x, ca.to_x);
    assert_eq!((ca.from_x, ca.from_y, ca.to_y), (a.x + a.width / 2, a.y + a.height, c.y));
    assert_eq!(ca.from_cardinality, Cardinality::ZeroOrOne);
    assert_eq!(ca.to_cardinality, Cardinality::OneOrMore);
    let ba = &result.relationships[2];
    assert_eq!((ba.from_entity.as_str(), ba.to_entity.as_str()), ("B", "A"));
    assert!(ba.horizontal);
    assert_eq!((ba.from_x, ba.to_x), (a.x + a.width, b.x));
    assert_eq!(ba.label.as_deref(), Some("owns"));
}
