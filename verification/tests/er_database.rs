use figurehead::er::database::{Attribute, Cardinality, Entity, ErDatabase, KeyKind, Relationship};

#[test]
fn test_cardinality_from_marker() {
    assert_eq!(Cardinality::from_marker("||"), Some(Cardinality::ExactlyOne));
    assert_eq!(Cardinality::from_marker("|o"), Some(Cardinality::ZeroOrOne));
    assert_eq!(Cardinality::from_marker("o|"), Some(Cardinality::ZeroOrOne));
    assert_eq!(Cardinality::from_marker("}|"), Some(Cardinality::OneOrMore));
    assert_eq!(Cardinality::from_marker("|{"), Some(Cardinality::OneOrMore));
    assert_eq!(Cardinality::from_marker("}o"), Some(Cardinality::ZeroOrMore));
    assert_eq!(Cardinality::from_marker("o{"), Some(Cardinality::ZeroOrMore));
    assert_eq!(Cardinality::from_marker("xx"), None);
}

#[test]
fn test_cardinality_to_marker_canonical() {
    assert_eq!(Cardinality::ExactlyOne.to_marker(), "||");
    assert_eq!(Cardinality::ZeroOrOne.to_marker(), "|o");
    assert_eq!(Cardinality::OneOrMore.to_marker(), "}|");
    assert_eq!(Cardinality::ZeroOrMore.to_marker(), "}o");
}

#[test]
fn test_create_entity() {
    let entity = Entity::new("PayGroup");
    assert_eq!(entity.name, "PayGroup");
    assert!(entity.attributes.is_empty());
}

#[test]
fn test_add_attributes() {
    let mut entity = Entity::new("PayGroup");
    entity.add_attribute(Attribute::new("Id", "int").with_key(KeyKind::Pk));
    entity.add_attribute(Attribute::new("Name", "varchar").with_comment("display name"));

    assert_eq!(entity.attributes.len(), 2);
    assert_eq!(entity.attributes[0].keys, vec![KeyKind::Pk]);
    assert_eq!(entity.attributes[1].comment, Some("display name".to_string()));
}

#[test]
fn test_multiple_keys() {
    let attr = Attribute::new("Id", "int").with_key(KeyKind::Pk).with_key(KeyKind::Fk);
    assert_eq!(attr.keys, vec![KeyKind::Pk, KeyKind::Fk]);
}

#[test]
fn test_entity_alias() {
    let entity = Entity::new("PERSON").with_alias("Customer");
    assert_eq!(entity.name, "PERSON");
    assert_eq!(entity.display_name(), "Customer");
}

#[test]
fn test_entity_no_alias_uses_name() {
    let entity = Entity::new("PayGroup");
    assert_eq!(entity.display_name(), "PayGroup");
}

#[test]
fn test_database_add_entity() {
    let mut db = ErDatabase::new();
    db.add_entity(Entity::new("A")).unwrap();
    db.add_entity(Entity::new("B")).unwrap();

    assert_eq!(db.entity_count(), 2);
    assert!(db.get_entity("A").is_some());
    assert!(db.get_entity("C").is_none());
}

#[test]
fn test_database_add_relationship() {
    let mut db = ErDatabase::new();
    db.add_entity(Entity::new("A")).unwrap();
    db.add_entity(Entity::new("B")).unwrap();
    db.add_relationship(Relationship::new("A", "B", Cardinality::ExactlyOne, Cardinality::ZeroOrMore))
        .unwrap();

    assert_eq!(db.relationship_count(), 1);
}

#[test]
fn test_get_or_create_entity() {
    let mut db = ErDatabase::new();
    db.get_or_create_entity("A");
    assert_eq!(db.entity_count(), 1);
    db.get_or_create_entity("A");
    assert_eq!(db.entity_count(), 1);
    db.get_or_create_entity("B");
    assert_eq!(db.entity_count(), 2);
}

#[test]
fn test_database_trait_nodes() {
    let mut db = ErDatabase::new();
    db.add_entity(Entity::new("A")).unwrap();

    let nodes: Vec<_> = db.nodes().iter().collect();
    assert_eq!(nodes.len(), 1);
    assert_eq!(nodes[0].name, "A");
}

#[test]
fn marker_roundtrip_for_every_cardinality() {
    for c in [
        Cardinality::ExactlyOne,
        Cardinality::ZeroOrOne,
        Cardinality::OneOrMore,
        Cardinality::ZeroOrMore,
    ] {
        assert_eq!(Cardinality::from_marker(c.to_marker()), Some(c));
    }
}

#[test]
fn get_or_create_returns_existing_entity() {
    let mut db = ErDatabase::new();
    db.add_entity(Entity::new("A").with_alias("Alpha")).unwrap();
    let e = db.get_or_create_entity("A");
    assert_eq!(e.display_name(), "Alpha");
    assert_eq!(db.entity_count(), 1);
}

#[test]
fn key_kind_names() {
    assert_eq!(KeyKind::Pk.as_str(), "PK");
    assert_eq!(KeyKind::Fk.as_str(), "FK");
    assert_eq!(KeyKind::Uk.as_str(), "UK");
}
