//! Entities, attributes and relationships of an ER diagram.
use crate::model::{copy_string, own, DiagramError};
use crate::text::{same_chars, to_chars};
use vstd::prelude::*;

verus! {

/// Key marker of an attribute.
#[derive(Clone, Copy, Debug, PartialEq, Eq, Structural)]
pub enum KeyKind {
    Pk,
    Fk,
    Uk,
}

/// The text of a key marker.
pub open spec fn key_text(k: KeyKind) -> Seq<char> {
    match k {
        KeyKind::Pk => "PK"@,
        KeyKind::Fk => "FK"@,
        KeyKind::Uk => "UK"@,
    }
}

impl KeyKind {
    /// `PK`, `FK` or `UK`.
    pub fn as_str(self) -> (r: &'static str)
        ensures
            r@ == key_text(self),
    {
        match self {
            KeyKind::Pk => "PK",
            KeyKind::Fk => "FK",
            KeyKind::Uk => "UK",
        }
    }
}

/// Participation of one side of a relationship (crow's-foot notation).
#[derive(Clone, Copy, Debug, PartialEq, Eq, Structural)]
pub enum Cardinality {
    ExactlyOne,
    ZeroOrOne,
    OneOrMore,
    ZeroOrMore,
}

/// The cardinality that a two-character marker stands for; both orientations
/// of a marker are accepted.
pub open spec fn marker_cardinality(m: Seq<char>) -> Option<Cardinality> {
    if m == "||"@ {
        Some(Cardinality::ExactlyOne)
    } else if m == "|o"@ || m == "o|"@ {
        Some(Cardinality::ZeroOrOne)
    } else if m == "}|"@ || m == "|{"@ {
        Some(Cardinality::OneOrMore)
    } else if m == "}o"@ || m == "o{"@ {
        Some(Cardinality::ZeroOrMore)
    } else {
        None
    }
}

/// The canonical marker of a cardinality.
pub open spec fn canonical_marker(c: Cardinality) -> Seq<char> {
    match c {
        Cardinality::ExactlyOne => "||"@,
        Cardinality::ZeroOrOne => "|o"@,
        Cardinality::OneOrMore => "}|"@,
        Cardinality::ZeroOrMore => "}o"@,
    }
}

fn is_marker(m: &Vec<char>, lit: &str) -> (r: bool)
    ensures
        r == (m@ == lit@),
{
    let l = to_chars(lit);
    same_chars(m, &l)
}

impl Cardinality {
    /// Parse a two-character marker such as `||`, `o{` or `}|`.
    pub fn from_marker(marker: &str) -> (r: Option<Self>)
        ensures
            r == marker_cardinality(marker@),
    {
        let m = to_chars(marker);
        if is_marker(&m, "||") {
            Some(Cardinality::ExactlyOne)
        } else if is_marker(&m, "|o") || is_marker(&m, "o|") {
            Some(Cardinality::ZeroOrOne)
        } else if is_marker(&m, "}|") || is_marker(&m, "|{") {
            Some(Cardinality::OneOrMore)
        } else if is_marker(&m, "}o") || is_marker(&m, "o{") {
            Some(Cardinality::ZeroOrMore)
        } else {
            None
        }
    }

    /// The canonical marker of this cardinality.
    pub fn to_marker(self) -> (r: &'static str)
        ensures
            r@ == canonical_marker(self),
    {
        match self {
            Cardinality::ExactlyOne => "||",
            Cardinality::ZeroOrOne => "|o",
            Cardinality::OneOrMore => "}|",
            Cardinality::ZeroOrMore => "}o",
        }
    }
}

/// Reading the canonical marker of a cardinality gives that cardinality back.
pub proof fn lemma_marker_roundtrip(c: Cardinality)
    ensures
        marker_cardinality(canonical_marker(c)) == Some(c),
{
    reveal_strlit("||");
    reveal_strlit("|o");
    reveal_strlit("o|");
    reveal_strlit("}|");
    reveal_strlit("|{");
    reveal_strlit("}o");
    reveal_strlit("o{");
    match c {
        Cardinality::ExactlyOne => {}
        Cardinality::ZeroOrOne => {
            assert("|o"@[1] != "||"@[1]);
        }
        Cardinality::OneOrMore => {
            assert("}|"@[0] != "||"@[0]);
            assert("}|"@[0] != "|o"@[0]);
            assert("}|"@[0] != "o|"@[0]);
        }
        Cardinality::ZeroOrMore => {
            assert("}o"@[1] != "||"@[1]);
            assert("}o"@[0] != "|o"@[0]);
            assert("}o"@[0] != "o|"@[0]);
            assert("}o"@[1] != "}|"@[1]);
            assert("}o"@[0] != "|{"@[0]);
        }
    }
}

/// An attribute of an entity.
#[derive(Clone, Debug)]
pub struct Attribute {
    pub name: String,
    pub attr_type: String,
    pub keys: Vec<KeyKind>,
    pub comment: Option<String>,
}

impl Attribute {
    /// An attribute without keys or comment.
    pub fn new(name: &str, attr_type: &str) -> (r: Self)
        ensures
            r.name@ == name@,
            r.attr_type@ == attr_type@,
            r.keys@.len() == 0,
            r.comment is None,
    {
        Attribute { name: own(name), attr_type: own(attr_type), keys: Vec::new(), comment: None }
    }

    /// The attribute with one more key marker.
    pub fn with_key(self, key: KeyKind) -> (r: Self)
        ensures
            r.name == self.name,
            r.attr_type == self.attr_type,
            r.keys@ == self.keys@.push(key),
            r.comment == self.comment,
    {
        let mut a = self;
        a.keys.push(key);
        a
    }

    /// The attribute with the given key markers appended.
    pub fn with_keys(self, keys: Vec<KeyKind>) -> (r: Self)
        ensures
            r.name == self.name,
            r.attr_type == self.attr_type,
            r.keys@ == self.keys@ + keys@,
            r.comment == self.comment,
    {
        let mut a = self;
        let mut extra = keys;
        a.keys.append(&mut extra);
        a
    }

    /// The attribute with a comment.
    pub fn with_comment(self, comment: &str) -> (r: Self)
        ensures
            r.name == self.name,
            r.attr_type == self.attr_type,
            r.keys == self.keys,
            r.comment matches Some(c) && c@ == comment@,
    {
        let mut a = self;
        a.comment = Some(own(comment));
        a
    }
}

/// An entity of the diagram.
#[derive(Clone, Debug)]
pub struct Entity {
    pub name: String,
    pub alias: Option<String>,
    pub attributes: Vec<Attribute>,
}

/// The name an entity is shown under: its alias if it has one.
pub open spec fn shown_name(e: Entity) -> Seq<char> {
    match e.alias {
        Some(a) => a@,
        None => e.name@,
    }
}

impl Entity {
    /// An entity without alias or attributes.
    pub fn new(name: &str) -> (r: Self)
        ensures
            r.name@ == name@,
            r.alias is None,
            r.attributes@.len() == 0,
    {
        Entity { name: own(name), alias: None, attributes: Vec::new() }
    }

    /// The entity with an alias.
    pub fn with_alias(self, alias: &str) -> (r: Self)
        ensures
            r.name == self.name,
            r.alias matches Some(a) && a@ == alias@,
            r.attributes == self.attributes,
    {
        let mut e = self;
        e.alias = Some(own(alias));
        e
    }

    /// Append an attribute.
    pub fn add_attribute(&mut self, attr: Attribute)
        ensures
            final(self).name == old(self).name,
            final(self).alias == old(self).alias,
            final(self).attributes@ == old(self).attributes@.push(attr),
    {
        self.attributes.push(attr);
    }

    /// The display name: the alias if set, otherwise the name.
    pub fn display_name(&self) -> (r: &str)
        ensures
            r@ == shown_name(*self),
    {
        match &self.alias {
            Some(a) => a.as_str(),
            None => self.name.as_str(),
        }
    }
}

/// A relationship between two entities.
#[derive(Clone, Debug)]
pub struct Relationship {
    pub from: String,
    pub to: String,
    pub from_cardinality: Cardinality,
    pub to_cardinality: Cardinality,
    pub label: Option<String>,
}

impl Relationship {
    /// An unlabelled relationship.
    pub fn new(
        from: &str,
        to: &str,
        from_cardinality: Cardinality,
        to_cardinality: Cardinality,
    ) -> (r: Self)
        ensures
            r.from@ == from@,
            r.to@ == to@,
            r.from_cardinality == from_cardinality,
            r.to_cardinality == to_cardinality,
            r.label is None,
    {
        Relationship { from: own(from), to: own(to), from_cardinality, to_cardinality, label: None }
    }

    /// The relationship with a label.
    pub fn with_label(self, label: &str) -> (r: Self)
        ensures
            r.from == self.from,
            r.to == self.to,
            r.from_cardinality == self.from_cardinality,
            r.to_cardinality == self.to_cardinality,
            r.label matches Some(l) && l@ == label@,
    {
        let mut rel = self;
        rel.label = Some(own(label));
        rel
    }
}

/// Index of the first entity named `name`, if any.
pub open spec fn first_named(es: Seq<Entity>, name: Seq<char>) -> Option<int>
    decreases es.len(),
{
    if es.len() == 0 {
        None
    } else {
        match first_named(es.drop_last(), name) {
            Some(i) => Some(i),
            None => if es.last().name@ == name {
                Some(es.len() - 1)
            } else {
                None
            },
        }
    }
}

pub proof fn lemma_first_named(es: Seq<Entity>, name: Seq<char>)
    ensures
        first_named(es, name) matches Some(i) ==> 0 <= i < es.len() && es[i].name@ == name
            && forall|j: int| 0 <= j < i ==> es[j].name@ != name,
        first_named(es, name) is None ==> forall|j: int| 0 <= j < es.len() ==> es[j].name@ != name,
    decreases es.len(),
{
    if es.len() > 0 {
        lemma_first_named(es.drop_last(), name);
        assert forall|j: int| 0 <= j < es.len() - 1 implies es[j] == es.drop_last()[j] by {}
    }
}

pub proof fn lemma_first_named_is(es: Seq<Entity>, name: Seq<char>, i: int)
    requires
        0 <= i <= es.len(),
        forall|j: int| 0 <= j < i ==> es[j].name@ != name,
        i < es.len() ==> es[i].name@ == name,
    ensures
        first_named(es, name) == (if i < es.len() {
            Some(i)
        } else {
            None::<int>
        }),
    decreases es.len(),
{
    lemma_first_named(es, name);
}

/// The entities and relationships of an ER diagram.
pub struct ErDatabase {
    entities: Vec<Entity>,
    relationships: Vec<Relationship>,
}

impl ErDatabase {
    /// The entities, in the order they were added.
    pub closed spec fn entity_seq(&self) -> Seq<Entity> {
        self.entities@
    }

    /// The relationships, in the order they were added.
    pub closed spec fn relationship_seq(&self) -> Seq<Relationship> {
        self.relationships@
    }

    /// An empty database.
    pub fn new() -> (r: Self)
        ensures
            r.entity_seq().len() == 0,
            r.relationship_seq().len() == 0,
    {
        ErDatabase { entities: Vec::new(), relationships: Vec::new() }
    }

    /// Append an entity.
    pub fn add_entity(&mut self, entity: Entity) -> (r: Result<(), DiagramError>)
        ensures
            r is Ok,
            final(self).entity_seq() == old(self).entity_seq().push(entity),
            final(self).relationship_seq() == old(self).relationship_seq(),
    {
        self.entities.push(entity);
        Ok(())
    }

    /// Append a relationship.
    pub fn add_relationship(&mut self, rel: Relationship) -> (r: Result<(), DiagramError>)
        ensures
            r is Ok,
            final(self).entity_seq() == old(self).entity_seq(),
            final(self).relationship_seq() == old(self).relationship_seq().push(rel),
    {
        self.relationships.push(rel);
        Ok(())
    }

    /// All entities.
    pub fn entities(&self) -> (r: &[Entity])
        ensures
            r@ == self.entity_seq(),
    {
        self.entities.as_slice()
    }

    /// All relationships.
    pub fn relationships(&self) -> (r: &[Relationship])
        ensures
            r@ == self.relationship_seq(),
    {
        self.relationships.as_slice()
    }

    /// Number of entities.
    pub fn entity_count(&self) -> (r: usize)
        ensures
            r == self.entity_seq().len(),
    {
        self.entities.len()
    }

    /// Number of relationships.
    pub fn relationship_count(&self) -> (r: usize)
        ensures
            r == self.relationship_seq().len(),
    {
        self.relationships.len()
    }

    /// Position of the first entity named `name`.
    pub fn entity_position(&self, name: &str) -> (r: Option<usize>)
        ensures
            r matches Some(i) ==> first_named(self.entity_seq(), name@) == Some(i as int),
            r is None ==> first_named(self.entity_seq(), name@) is None,
    {
        let n = own(name);
        let mut i: usize = 0;
        while i < self.entities.len()
            invariant
                i <= self.entities.len(),
                n@ == name@,
                forall|j: int| 0 <= j < i ==> self.entities@[j].name@ != name@,
            decreases self.entities.len() - i,
        {
            if self.entities[i].name == n {
                proof {
                    lemma_first_named_is(self.entities@, name@, i as int);
                }
                return Some(i);
            }
            i += 1;
        }
        proof {
            lemma_first_named_is(self.entities@, name@, i as int);
        }
        None
    }

    /// The first entity named `name`.
    pub fn get_entity(&self, name: &str) -> (r: Option<&Entity>)
        ensures
            match first_named(self.entity_seq(), name@) {
                Some(i) => r matches Some(e) && *e == self.entity_seq()[i],
                None => r is None,
            },
    {
        proof {
            lemma_first_named(self.entities@, name@);
        }
        match self.entity_position(name) {
            Some(i) => Some(&self.entities[i]),
            None => None,
        }
    }

    /// Mutable access to the first entity named `name`.
    pub fn get_entity_mut(&mut self, name: &str) -> (r: Option<&mut Entity>)
        ensures
            match first_named(old(self).entity_seq(), name@) {
                Some(i) => r matches Some(e) && *e == old(self).entity_seq()[i]
                    && final(self).entity_seq() == old(self).entity_seq().update(i, *final(e))
                    && final(self).relationship_seq() == old(self).relationship_seq(),
                None => r is None && *final(self) == *old(self),
            },
    {
        proof {
            lemma_first_named(self.entities@, name@);
        }
        match self.entity_position(name) {
            Some(i) => Some(&mut self.entities[i]),
            None => None,
        }
    }

    /// The first entity named `name`, created empty at the end when there is
    /// none, so that relationships may mention entities before (or without)
    /// their definition.
    pub fn get_or_create_entity(&mut self, name: &str) -> (r: &mut Entity)
        ensures
            match first_named(old(self).entity_seq(), name@) {
                Some(i) => *r == old(self).entity_seq()[i] && final(self).entity_seq()
                    == old(self).entity_seq().update(i, *final(r)),
                None => r.name@ == name@ && r.alias is None && r.attributes@.len() == 0
                    && final(self).entity_seq() == old(self).entity_seq().push(*final(r)),
            },
            final(self).relationship_seq() == old(self).relationship_seq(),
    {
        proof {
            lemma_first_named(self.entities@, name@);
        }
        match self.entity_position(name) {
            Some(i) => &mut self.entities[i],
            None => {
                self.entities.push(Entity::new(name));
                let last = self.entities.len() - 1;
                &mut self.entities[last]
            },
        }
    }

    /// Same as `entity_count`.
    pub fn node_count(&self) -> (r: usize)
        ensures
            r == self.entity_seq().len(),
    {
        self.entities.len()
    }

    /// Same as `relationship_count`.
    pub fn edge_count(&self) -> (r: usize)
        ensures
            r == self.relationship_seq().len(),
    {
        self.relationships.len()
    }

    /// Same as `add_entity`.
    pub fn add_node(&mut self, node: Entity) -> (r: Result<(), DiagramError>)
        ensures
            r is Ok,
            final(self).entity_seq() == old(self).entity_seq().push(node),
            final(self).relationship_seq() == old(self).relationship_seq(),
    {
        self.add_entity(node)
    }

    /// Same as `add_relationship`.
    pub fn add_edge(&mut self, edge: Relationship) -> (r: Result<(), DiagramError>)
        ensures
            r is Ok,
            final(self).entity_seq() == old(self).entity_seq(),
            final(self).relationship_seq() == old(self).relationship_seq().push(edge),
    {
        self.add_relationship(edge)
    }

    /// Same as `get_entity`.
    pub fn get_node(&self, id: &str) -> (r: Option<&Entity>)
        ensures
            match first_named(self.entity_seq(), id@) {
                Some(i) => r matches Some(e) && *e == self.entity_seq()[i],
                None => r is None,
            },
    {
        self.get_entity(id)
    }

    /// Same as `entities`.
    pub fn nodes(&self) -> (r: &[Entity])
        ensures
            r@ == self.entity_seq(),
    {
        self.entities.as_slice()
    }

    /// Same as `relationships`.
    pub fn edges(&self) -> (r: &[Relationship])
        ensures
            r@ == self.relationship_seq(),
    {
        self.relationships.as_slice()
    }

    /// Remove every entity and relationship.
    pub fn clear(&mut self)
        ensures
            final(self).entity_seq().len() == 0,
            final(self).relationship_seq().len() == 0,
    {
        self.entities.clear();
        self.relationships.clear();
    }
}

} // verus!
