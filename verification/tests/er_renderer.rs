use figurehead::canvas::AsciiCanvas;
use figurehead::er::database::{Attribute, Cardinality, Entity, ErDatabase, KeyKind, Relationship};
use figurehead::er::layout::PortSide;
use figurehead::er::renderer::ErRenderer;

#[test]
fn test_render_empty() {
    let db = ErDatabase::new();
    let renderer = ErRenderer::new();
    assert_eq!(renderer.render_database(&db).unwrap(), "");
}

#[test]
fn test_render_simple_entity() {
    let mut db = ErDatabase::new();
    db.add_entity(Entity::new("PayGroup")).unwrap();

    let result = ErRenderer::new().render_database(&db).unwrap();
    assert!(result.contains("PayGroup"));
    assert!(result.contains('┌'));
    assert!(result.contains('└'));
}

#[test]
fn test_render_entity_with_attributes() {
    let mut db = ErDatabase::new();
    let mut e = Entity::new("PayGroup");
    e.add_attribute(Attribute::new("Id", "int").with_key(KeyKind::Pk));
    e.add_attribute(Attribute::new("Name", "varchar"));
    db.add_entity(e).unwrap();

    let result = ErRenderer::new().render_database(&db).unwrap();
    assert!(result.contains("PayGroup"));
    assert!(result.contains("int Id PK"));
    assert!(result.contains("varchar Name"));
    assert!(result.contains('├'));
}

#[test]
fn test_render_relationship_markers() {
    let mut db = ErDatabase::new();
    db.add_entity(Entity::new("PayGroup")).unwrap();
    db.add_entity(Entity::new("PayGroupUserMapping")).unwrap();
    db.add_relationship(
        Relationship::new("PayGroup", "PayGroupUserMapping", Cardinality::ExactlyOne, Cardinality::ZeroOrMore)
            .with_label("has users"),
    )
    .unwrap();

    let result = ErRenderer::new().render_database(&db).unwrap();
    assert!(result.contains("||"));
    assert!(result.contains("o{"));
    assert!(result.contains("has users"));
}

#[test]
fn test_render_comment_wrapped() {
    let mut db = ErDatabase::new();
    let mut e = Entity::new("Doc");
    e.add_attribute(Attribute::new("Id", "int").with_key(KeyKind::Pk));
    e.add_attribute(Attribute::new("Name", "varchar").with_comment("a very long comment that overflows"));
    db.add_entity(e).unwrap();

    let result = ErRenderer::new().render_database(&db).unwrap();
    assert!(result.contains("varchar Name"));
    assert!(result.contains("a very long comment that overflows"));
}

#[test]
fn test_render_box_structure() {
    let mut db = ErDatabase::new();
    let mut e = Entity::new("X");
    e.add_attribute(Attribute::new("a", "int"));
    db.add_entity(e).unwrap();

    let result = ErRenderer::new().render_database(&db).unwrap();
    let lines: Vec<_> = result.lines().collect();
    assert!(lines.len() >= 5);
    assert!(lines[0].starts_with('┌'));
    assert!(lines[lines.len() - 1].starts_with('└'));
}

#[test]
fn test_marker_for_side_exactly_one() {
    assert_eq!(ErRenderer::marker_for_side(Cardinality::ExactlyOne, PortSide::Right), "||");
}

#[test]
fn test_marker_for_side_zero_or_one() {
    assert_eq!(ErRenderer::marker_for_side(Cardinality::ZeroOrOne, PortSide::Right), "|o");
    assert_eq!(ErRenderer::marker_for_side(Cardinality::ZeroOrOne, PortSide::Left), "o|");
}

#[test]
fn test_marker_for_side_one_or_more() {
    assert_eq!(ErRenderer::marker_for_side(Cardinality::OneOrMore, PortSide::Right), "}|");
    assert_eq!(ErRenderer::marker_for_side(Cardinality::OneOrMore, PortSide::Top), "|{");
}

#[test]
fn test_marker_for_side_zero_or_more() {
    assert_eq!(ErRenderer::marker_for_side(Cardinality::ZeroOrMore, PortSide::Right), "}o");
    assert_eq!(ErRenderer::marker_for_side(Cardinality::ZeroOrMore, PortSide::Bottom), "}o");
    assert_eq!(ErRenderer::marker_for_side(Cardinality::ZeroOrMore, PortSide::Left), "o{");
}

#[test]
fn test_render_vertical_marker_side_by_side() {
    let mut db = ErDatabase::new();
    db.add_entity(Entity::new("A")).unwrap();
    db.add_entity(Entity::new("B")).unwrap();
    db.add_entity(Entity::new("C")).unwrap();
    db.add_relationship(Relationship::new("A", "C", Cardinality::ExactlyOne, Cardinality::ZeroOrMore))
        .unwrap();

    let result = ErRenderer::new().render_database(&db).unwrap();
    assert!(
        result.contains("||") || result.contains("}o"),
        "Expected side-by-side vertical port markers, got:\n{result}"
    );
}

#[test]
fn test_horizontal_label_above_line() {
    let mut db = ErDatabase::new();
    db.add_entity(Entity::new("A")).unwrap();
    db.add_entity(Entity::new("B")).unwrap();
    db.add_relationship(
        Relationship::new("A", "B", Cardinality::ExactlyOne, Cardinality::ZeroOrMore).with_label("rel"),
    )
    .unwrap();

    let result = ErRenderer::new().render_database(&db).unwrap();
    let lines: Vec<&str> = result.lines().collect();
    let rel_row = lines.iter().position(|l| l.contains("rel"));
    assert!(rel_row.is_some(), "Label 'rel' should appear in output");
    let rel_row = rel_row.unwrap();
    if rel_row + 1 < lines.len() {
        assert!(lines[rel_row + 1].contains('─'), "Connector line should be below the label");
    }
}

#[test]
fn test_vertical_label_beside_line() {
    let mut db = ErDatabase::new();
    db.add_entity(Entity::new("A")).unwrap();
    db.add_entity(Entity::new("B")).unwrap();
    db.add_entity(Entity::new("C")).unwrap();
    db.add_entity(Entity::new("D")).unwrap();
    db.add_relationship(
        Relationship::new("A", "C", Cardinality::ExactlyOne, Cardinality::ZeroOrMore).with_label("rel"),
    )
    .unwrap();

    let result = ErRenderer::new().render_database(&db).unwrap();
    assert!(result.contains("rel"));
}

#[test]
fn test_non_aligned_relationship_draws_corner() {
    let mut db = ErDatabase::new();
    db.add_entity(Entity::new("A")).unwrap();
    db.add_entity(Entity::new("B")).unwrap();
    db.add_entity(Entity::new("C")).unwrap();
    db.add_entity(Entity::new("D")).unwrap();
    db.add_relationship(
        Relationship::new("A", "D", Cardinality::ExactlyOne, Cardinality::ZeroOrMore).with_label("rel"),
    )
    .unwrap();

    let result = ErRenderer::new().render_database(&db).unwrap();
    assert!(
        result.contains('┌') || result.contains('┐') || result.contains('└') || result.contains('┘'),
        "expected an orthogonal route with a corner, got:\n{result}"
    );
}

#[test]
fn test_label_does_not_overwrite_entity() {
    let mut db = ErDatabase::new();
    let mut e = Entity::new("Short");
    e.add_attribute(Attribute::new("Id", "int").with_key(KeyKind::Pk));
    db.add_entity(e).unwrap();
    db.add_entity(Entity::new("B")).unwrap();
    db.add_relationship(
        Relationship::new("Short", "B", Cardinality::ExactlyOne, Cardinality::ZeroOrMore).with_label("rel"),
    )
    .unwrap();

    let result = ErRenderer::new().render_database(&db).unwrap();
    assert!(result.contains("int Id PK"));
    assert!(result.contains("rel"));
}

#[test]
fn test_is_clear_horizontal() {
    let mut canvas = AsciiCanvas::new(10, 3);
    assert!(ErRenderer::is_clear_horizontal(&canvas, 0, 0, 5, false));
    canvas.set_char(2, 0, 'X');
    assert!(!ErRenderer::is_clear_horizontal(&canvas, 0, 0, 5, false));
    assert!(ErRenderer::is_clear_horizontal(&canvas, 3, 0, 5, false));
    canvas.set_char(4, 0, '─');
    assert!(!ErRenderer::is_clear_horizontal(&canvas, 3, 0, 5, false));
    assert!(ErRenderer::is_clear_horizontal(&canvas, 3, 0, 5, true));
}

#[test]
fn single_entity_drawing_is_exact() {
    let mut db = ErDatabase::new();
    db.add_entity(Entity::new("AB")).unwrap();
    let result = ErRenderer::new().render_database(&db).unwrap();
    let lines: Vec<&str> = result.lines().collect();
    assert_eq!(lines.len(), 3);
    assert!(lines[0].starts_with('┌') && lines[0].trim_end().ends_with('┐'));
    assert!(lines[1].contains("AB"));
    assert!(lines[2].starts_with('└') && lines[2].trim_end().ends_with('┘'));
}

#[test]
fn markers_are_mirrored_on_the_left() {
    assert_eq!(ErRenderer::marker_for_side(Cardinality::OneOrMore, PortSide::Left), "|{");
    assert_eq!(ErRenderer::marker_for_side(Cardinality::ExactlyOne, PortSide::Left), "||");
}
