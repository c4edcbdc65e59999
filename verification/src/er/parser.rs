//! Parser for Mermaid `erDiagram` source.
use super::database::{
    first_named, lemma_first_named, Attribute, Cardinality, Entity, ErDatabase, KeyKind,
    Relationship,
};
use super::grammar::{Direction, SAttr, SEntity, SRel, SStmt, card_words, class_apply_end, header_end, sp_attr, sp_attrs, sp_attrs_more, sp_card, sp_card_from, sp_comment, sp_connector, sp_diagram, sp_direction, sp_entity, sp_ident, sp_key, sp_keys, sp_keys_more, sp_label, sp_name, sp_name_alias, sp_quoted, sp_rel, sp_single, sp_statement, sp_statements, sp_statements_more, sp_style};
use crate::model::DiagramError;
use crate::scan::{char_is, keyword, scan, CharClass};
use crate::text::{
    contains, contains_seq, from_chars, lowercase, matches_at, slice, to_chars, to_lowercase,
    trim_bounds,
};
use vstd::prelude::*;

verus! {

/// An attribute as read from the source.
#[derive(Clone, Debug)]
pub struct ParsedAttribute {
    pub attr_type: String,
    pub name: String,
    pub keys: Vec<KeyKind>,
    pub comment: Option<String>,
}

/// An entity as read from the source.
#[derive(Clone, Debug)]
pub struct ParsedEntity {
    pub name: String,
    pub alias: Option<String>,
    pub attributes: Vec<ParsedAttribute>,
}

/// A relationship as read from the source.
#[derive(Clone, Debug)]
pub struct ParsedRelationship {
    pub from: String,
    pub to: String,
    pub from_cardinality: Cardinality,
    pub to_cardinality: Cardinality,
    pub label: Option<String>,
}

/// A statement as read from the source.
#[derive(Clone, Debug)]
pub enum Statement {
    Entity(ParsedEntity),
    Relationship(ParsedRelationship),
    Direction(Direction),
    Comment,
    Style,
}

/// The characters of an optional string.
pub open spec fn opt_view(o: Option<String>) -> Option<Seq<char>> {
    match o {
        Some(s) => Some(s@),
        None => None,
    }
}

pub open spec fn attr_view(a: ParsedAttribute) -> SAttr {
    SAttr { attr_type: a.attr_type@, name: a.name@, keys: a.keys@, comment: opt_view(a.comment) }
}

pub open spec fn entity_view(e: ParsedEntity) -> SEntity {
    SEntity {
        name: e.name@,
        alias: opt_view(e.alias),
        attributes: e.attributes@.map_values(|a: ParsedAttribute| attr_view(a)),
    }
}

pub open spec fn rel_view(r: ParsedRelationship) -> SRel {
    SRel {
        from: r.from@,
        to: r.to@,
        from_cardinality: r.from_cardinality,
        to_cardinality: r.to_cardinality,
        label: opt_view(r.label),
    }
}

pub open spec fn stmt_view(s: Statement) -> SStmt {
    match s {
        Statement::Entity(e) => SStmt::Entity(entity_view(e)),
        Statement::Relationship(r) => SStmt::Relationship(rel_view(r)),
        Statement::Direction(d) => SStmt::Direction(d),
        Statement::Comment => SStmt::Comment,
        Statement::Style => SStmt::Style,
    }
}

/// The view of an entity of the database.
pub open spec fn db_attr_view(a: Attribute) -> SAttr {
    SAttr { attr_type: a.attr_type@, name: a.name@, keys: a.keys@, comment: opt_view(a.comment) }
}

pub open spec fn db_entity_view(e: Entity) -> SEntity {
    SEntity {
        name: e.name@,
        alias: opt_view(e.alias),
        attributes: e.attributes@.map_values(|a: Attribute| db_attr_view(a)),
    }
}

pub open spec fn db_rel_view(r: Relationship) -> SRel {
    SRel {
        from: r.from@,
        to: r.to@,
        from_cardinality: r.from_cardinality,
        to_cardinality: r.to_cardinality,
        label: opt_view(r.label),
    }
}

/// The entities of a database as read from source.
pub open spec fn entities_view(db: &ErDatabase) -> Seq<SEntity> {
    db.entity_seq().map_values(|e: Entity| db_entity_view(e))
}

/// The relationships of a database as read from source.
pub open spec fn relationships_view(db: &ErDatabase) -> Seq<SRel> {
    db.relationship_seq().map_values(|r: Relationship| db_rel_view(r))
}

/// `es` with an empty entity named `name` appended when none is so named.
pub open spec fn ensure_entity(es: Seq<SEntity>, name: Seq<char>) -> Seq<SEntity> {
    if exists|j: int| 0 <= j < es.len() && #[trigger] es[j].name == name {
        es
    } else {
        es.push(SEntity { name, alias: None, attributes: Seq::empty() })
    }
}

/// Making sure an entity exists is idempotent, and afterwards an entity of
/// that name is there.
pub proof fn lemma_ensure_entity(es: Seq<SEntity>, name: Seq<char>)
    ensures
        ensure_entity(ensure_entity(es, name), name) == ensure_entity(es, name),
        exists|j: int| 0 <= j < ensure_entity(es, name).len() && #[trigger] ensure_entity(es, name)[j].name == name,
{
    let once = ensure_entity(es, name);
    if exists|j: int| 0 <= j < es.len() && #[trigger] es[j].name == name {
        let j = choose|j: int| 0 <= j < es.len() && #[trigger] es[j].name == name;
        assert(once[j].name == name);
    } else {
        assert(once[es.len() as int].name == name);
    }
}

/// The effect of one statement on the entities and relationships: an entity
/// is appended; a relationship is appended after its two ends are made to
/// exist; comments, directions and styles change nothing.
pub open spec fn apply_statement(st: (Seq<SEntity>, Seq<SRel>), s: SStmt) -> (Seq<SEntity>, Seq<SRel>) {
    match s {
        SStmt::Entity(e) => (st.0.push(e), st.1),
        SStmt::Relationship(r) => (ensure_entity(ensure_entity(st.0, r.from), r.to), st.1.push(r)),
        _ => st,
    }
}

/// The effect of a sequence of statements, in order.
pub open spec fn apply_statements(st: (Seq<SEntity>, Seq<SRel>), stmts: Seq<SStmt>) -> (Seq<SEntity>, Seq<SRel>)
    decreases stmts.len(),
{
    if stmts.len() == 0 {
        st
    } else {
        apply_statement(apply_statements(st, stmts.drop_last()), stmts.last())
    }
}

/// The view of an optional token result.
pub open spec fn tok_view(r: Option<(usize, Vec<char>)>) -> Option<(int, Seq<char>)> {
    match r {
        Some((e, t)) => Some((e as int, t@)),
        None => None,
    }
}

fn p_quoted(s: &Vec<char>, i: usize) -> (r: Option<(usize, Vec<char>)>)
    requires
        i <= s.len(),
    ensures
        tok_view(r) == sp_quoted(s@, i as int),
        r matches Some((e, _)) ==> i < e <= s.len(),
{
    if char_is(s, i, '"') {
        let j = scan(s, i + 1, CharClass::QuotedChar);
        if char_is(s, j, '"') {
            return Some((j + 1, slice(s, i + 1, j)));
        }
    }
    None
}

fn p_ident(s: &Vec<char>, i: usize) -> (r: Option<(usize, Vec<char>)>)
    requires
        i <= s.len(),
    ensures
        tok_view(r) == sp_ident(s@, i as int),
        r matches Some((e, _)) ==> i < e <= s.len(),
{
    let j = scan(s, i, CharClass::IdentChar);
    if j > i {
        let (a, b) = trim_bounds(s, i, j);
        Some((j, slice(s, a, b)))
    } else {
        None
    }
}

fn p_name(s: &Vec<char>, i: usize) -> (r: Option<(usize, Vec<char>)>)
    requires
        i <= s.len(),
    ensures
        tok_view(r) == sp_name(s@, i as int),
        r matches Some((e, _)) ==> i < e <= s.len(),
{
    match p_quoted(s, i) {
        Some(r) => Some(r),
        None => p_ident(s, i),
    }
}

fn class_apply(s: &Vec<char>, i: usize) -> (r: usize)
    requires
        i <= s.len(),
    ensures
        r == class_apply_end(s@, i as int),
        i <= r <= s.len(),
{
    let mut p: Vec<char> = Vec::new();
    p.push(':');
    p.push(':');
    p.push(':');
    assert(p@ =~= seq![':', ':', ':']);
    if matches_at(s, i, &p) {
        scan(s, i + 3, CharClass::NotBlank)
    } else {
        i
    }
}

/// The view of a name with its optional alias.
pub open spec fn na_view(r: Option<(usize, (Vec<char>, Option<Vec<char>>))>) -> Option<(int, (Seq<char>, Option<Seq<char>>))> {
    match r {
        Some((e, (n, a))) => Some(
            (
                e as int,
                (
                    n@,
                    match a {
                        Some(x) => Some(x@),
                        None => None,
                    },
                ),
            ),
        ),
        None => None,
    }
}

fn p_name_alias(s: &Vec<char>, i: usize) -> (r: Option<(usize, (Vec<char>, Option<Vec<char>>))>)
    requires
        i <= s.len(),
    ensures
        na_view(r) == sp_name_alias(s@, i as int),
        r matches Some((e, _)) ==> i < e <= s.len(),
{
    match p_name(s, i) {
        None => None,
        Some((j, n)) => {
            let mut k = j;
            let mut alias: Option<Vec<char>> = None;
            if char_is(s, j, '[') {
                match p_name(s, j + 1) {
                    Some((m, a)) => {
                        if char_is(s, m, ']') {
                            k = m + 1;
                            alias = Some(a);
                        }
                    },
                    None => {},
                }
            }
            let e = class_apply(s, k);
            Some((e, (n, alias)))
        },
    }
}

fn p_key(s: &Vec<char>, i: usize) -> (r: Option<(usize, KeyKind)>)
    requires
        i <= s.len(),
    ensures
        match r {
            Some((e, k)) => sp_key(s@, i as int) == Some((e as int, k)) && i < e <= s.len(),
            None => sp_key(s@, i as int) is None,
        },
{
    proof {
        reveal_strlit("PK");
        reveal_strlit("FK");
        reveal_strlit("UK");
    }
    let pk = to_chars("PK");
    let fk = to_chars("FK");
    let uk = to_chars("UK");
    if keyword(s, i, &pk) {
        Some((i + pk.len(), KeyKind::Pk))
    } else if keyword(s, i, &fk) {
        Some((i + fk.len(), KeyKind::Fk))
    } else if keyword(s, i, &uk) {
        Some((i + uk.len(), KeyKind::Uk))
    } else {
        None
    }
}

fn p_keys(s: &Vec<char>, i: usize) -> (r: (usize, Vec<KeyKind>))
    requires
        i <= s.len(),
    ensures
        sp_keys(s@, i as int) == (r.0 as int, r.1@),
        i <= r.0 <= s.len(),
{
    proof {
        reveal_strlit("PK");
        reveal_strlit("FK");
        reveal_strlit("UK");
    }
    let mut keys: Vec<KeyKind> = Vec::new();
    match p_key(s, i) {
        None => {
            return (i, keys);
        },
        Some((e, k)) => {
            keys.push(k);
            let mut at = e;
            assert(keys@ == seq![k]);
            while char_is(s, at, ',')
                invariant
                    i < at <= s.len(),
                    sp_keys(s@, i as int) == sp_keys_more(s@, at as int, keys@),
                decreases s.len() - at,
            {
                let m = scan(s, at + 1, CharClass::InlineSpace);
                match p_key(s, m) {
                    Some((e2, k2)) => {
                        if at < e2 && e2 <= s.len() {
                            keys.push(k2);
                            at = e2;
                        } else {
                            return (at, keys);
                        }
                    },
                    None => {
                        return (at, keys);
                    },
                }
            }
            (at, keys)
        },
    }
}

pub open spec fn attr_opt_view(r: Option<(usize, ParsedAttribute)>) -> Option<(int, SAttr)> {
    match r {
        Some((e, a)) => Some((e as int, attr_view(a))),
        None => None,
    }
}

fn has_pk(keys: &Vec<KeyKind>) -> (r: bool)
    ensures
        r == keys@.contains(KeyKind::Pk),
{
    let mut i: usize = 0;
    while i < keys.len()
        invariant
            i <= keys.len(),
            forall|j: int| 0 <= j < i ==> keys@[j] != KeyKind::Pk,
        decreases keys.len() - i,
    {
        if keys[i] == KeyKind::Pk {
            return true;
        }
        i += 1;
    }
    false
}

fn p_attr(s: &Vec<char>, i: usize) -> (r: Option<(usize, ParsedAttribute)>)
    requires
        i <= s.len(),
    ensures
        attr_opt_view(r) == sp_attr(s@, i as int),
        r matches Some((e, _)) ==> i <= e <= s.len(),
{
    let t = scan(s, i, CharClass::TypeChar);
    let w = scan(s, t, CharClass::InlineSpace);
    if t == i || w == t {
        return None;
    }
    let star = char_is(s, w, '*') && w + 1 <= s.len() && p_name(s, w + 1).is_some();
    let nm = if star {
        p_name(s, w + 1)
    } else {
        p_name(s, w)
    };
    match nm {
        None => None,
        Some((e, name)) => {
            let (e2, keys) = p_keys(s, scan(s, e, CharClass::InlineSpace));
            let (e3, comment) = match p_quoted(s, scan(s, e2, CharClass::InlineSpace)) {
                Some((q, c)) => (q, Some(from_chars(&c))),
                None => (e2, None),
            };
            let all_keys = if star && !has_pk(&keys) {
                let mut k2: Vec<KeyKind> = Vec::new();
                k2.push(KeyKind::Pk);
                let mut rest = keys;
                k2.append(&mut rest);
                k2
            } else {
                keys
            };
            let (a, b) = trim_bounds(s, i, t);
            let ty = slice(s, a, b);
            let attr = ParsedAttribute {
                attr_type: from_chars(&ty),
                name: from_chars(&name),
                keys: all_keys,
                comment,
            };
            Some((e3, attr))
        },
    }
}

fn p_attrs(s: &Vec<char>, i: usize) -> (r: (usize, Vec<ParsedAttribute>))
    requires
        i <= s.len(),
    ensures
        sp_attrs(s@, i as int) == (r.0 as int, r.1@.map_values(|a: ParsedAttribute| attr_view(a))),
        i <= r.0 <= s.len(),
{
    let mut out: Vec<ParsedAttribute> = Vec::new();
    match p_attr(s, i) {
        None => {
            assert(out@.map_values(|a: ParsedAttribute| attr_view(a)) =~= Seq::<SAttr>::empty());
            (i, out)
        },
        Some((e, a)) => {
            if !(i < e && e <= s.len()) {
                assert(out@.map_values(|a: ParsedAttribute| attr_view(a)) =~= Seq::<SAttr>::empty());
                return (i, out);
            }
            out.push(a);
            assert(out@.map_values(|a: ParsedAttribute| attr_view(a)) =~= seq![attr_view(a)]);
            let mut at = e;
            loop
                invariant
                    i < at <= s.len(),
                    sp_attrs(s@, i as int) == sp_attrs_more(
                        s@,
                        at as int,
                        out@.map_values(|a: ParsedAttribute| attr_view(a)),
                    ),
                decreases s.len() - at,
            {
                let k = scan(s, at, CharClass::Space);
                if k == at {
                    return (at, out);
                }
                match p_attr(s, k) {
                    Some((e2, a2)) => {
                        if at < k && k < e2 && e2 <= s.len() {
                            let ghost before = out@.map_values(|a: ParsedAttribute| attr_view(a));
                            out.push(a2);
                            assert(out@.map_values(|a: ParsedAttribute| attr_view(a)) =~= before.push(attr_view(a2)));
                            at = e2;
                        } else {
                            return (k, out);
                        }
                    },
                    None => {
                        return (k, out);
                    },
                }
            }
        },
    }
}

pub open spec fn entity_opt_view(r: Option<(usize, ParsedEntity)>) -> Option<(int, SEntity)> {
    match r {
        Some((e, x)) => Some((e as int, entity_view(x))),
        None => None,
    }
}

fn opt_string(o: Option<Vec<char>>) -> (r: Option<String>)
    ensures
        opt_view(r) == match o {
            Some(x) => Some(x@),
            None => None::<Seq<char>>,
        },
{
    match o {
        Some(x) => Some(from_chars(&x)),
        None => None,
    }
}

fn p_entity(s: &Vec<char>, i: usize) -> (r: Option<(usize, ParsedEntity)>)
    requires
        i <= s.len(),
    ensures
        entity_opt_view(r) == sp_entity(s@, i as int),
        r matches Some((e, _)) ==> i < e <= s.len(),
{
    match p_name_alias(s, i) {
        None => None,
        Some((j, (name, alias))) => {
            let k = scan(s, j, CharClass::Space);
            if char_is(s, k, '{') {
                let (e, attributes) = p_attrs(s, scan(s, k + 1, CharClass::Space));
                let f = scan(s, e, CharClass::Space);
                if char_is(s, f, '}') {
                    let ent = ParsedEntity {
                        name: from_chars(&name),
                        alias: opt_string(alias),
                        attributes,
                    };
                    return Some((f + 1, ent));
                }
            }
            None
        },
    }
}

fn card_forms() -> (r: Vec<(Vec<char>, Cardinality)>)
    ensures
        r@.len() == card_words().len(),
        forall|n: int|
            #![trigger r@[n]]
            0 <= n < r@.len() ==> r@[n].0@ == card_words()[n].0 && r@[n].1 == card_words()[n].1,
{
    let mut v: Vec<(Vec<char>, Cardinality)> = Vec::new();
    v.push((to_chars("||"), Cardinality::ExactlyOne));
    v.push((to_chars("}|"), Cardinality::OneOrMore));
    v.push((to_chars("|{"), Cardinality::OneOrMore));
    v.push((to_chars("}o"), Cardinality::ZeroOrMore));
    v.push((to_chars("o{"), Cardinality::ZeroOrMore));
    v.push((to_chars("|o"), Cardinality::ZeroOrOne));
    v.push((to_chars("o|"), Cardinality::ZeroOrOne));
    v.push((to_chars("one or zero"), Cardinality::ZeroOrOne));
    v.push((to_chars("zero or one"), Cardinality::ZeroOrOne));
    v.push((to_chars("one or more"), Cardinality::OneOrMore));
    v.push((to_chars("one or many"), Cardinality::OneOrMore));
    v.push((to_chars("many(1)"), Cardinality::OneOrMore));
    v.push((to_chars("1+"), Cardinality::OneOrMore));
    v.push((to_chars("zero or more"), Cardinality::ZeroOrMore));
    v.push((to_chars("zero or many"), Cardinality::ZeroOrMore));
    v.push((to_chars("many(0)"), Cardinality::ZeroOrMore));
    v.push((to_chars("0+"), Cardinality::ZeroOrMore));
    v.push((to_chars("only one"), Cardinality::ExactlyOne));
    v.push((to_chars("1"), Cardinality::ExactlyOne));
    v
}

fn p_card(s: &Vec<char>, i: usize) -> (r: Option<(usize, Cardinality)>)
    requires
        i <= s.len(),
    ensures
        match r {
            Some((e, c)) => sp_card(s@, i as int) == Some((e as int, c)) && i <= e <= s.len(),
            None => sp_card(s@, i as int) is None,
        },
{
    let forms = card_forms();
    let mut n: usize = 0;
    while n < forms.len()
        invariant
            i <= s.len(),
            n <= forms@.len(),
            forms@.len() == card_words().len(),
            forall|m: int|
                #![trigger forms@[m]]
                0 <= m < forms@.len() ==> forms@[m].0@ == card_words()[m].0 && forms@[m].1
                    == card_words()[m].1,
            sp_card(s@, i as int) == sp_card_from(s@, i as int, card_words(), n as int),
        decreases forms.len() - n,
    {
        if matches_at(s, i, &forms[n].0) {
            return Some((i + forms[n].0.len(), forms[n].1));
        }
        n += 1;
    }
    None
}

fn p_connector(s: &Vec<char>, i: usize) -> (r: Option<usize>)
    requires
        i <= s.len(),
    ensures
        match r {
            Some(e) => sp_connector(s@, i as int) == Some(e as int) && i <= e <= s.len(),
            None => sp_connector(s@, i as int) is None,
        },
{
    let dashes = to_chars("--");
    let dots = to_chars("..");
    let to = to_chars("to");
    let optionally = to_chars("optionally");
    if matches_at(s, i, &dashes) {
        Some(i + dashes.len())
    } else if matches_at(s, i, &dots) {
        Some(i + dots.len())
    } else if keyword(s, i, &to) {
        Some(i + to.len())
    } else if keyword(s, i, &optionally) {
        let m = scan(s, i + optionally.len(), CharClass::InlineSpace);
        if keyword(s, m, &to) {
            Some(m + to.len())
        } else {
            None
        }
    } else {
        None
    }
}

/// The view of a label result.
pub open spec fn label_view(r: (usize, Option<Vec<char>>)) -> (int, Option<Seq<char>>) {
    (
        r.0 as int,
        match r.1 {
            Some(x) => Some(x@),
            None => None,
        },
    )
}

fn p_label(s: &Vec<char>, i: usize) -> (r: (usize, Option<Vec<char>>))
    requires
        i <= s.len(),
    ensures
        label_view(r) == sp_label(s@, i as int),
        i <= r.0 <= s.len(),
{
    if char_is(s, i, ':') {
        let m = scan(s, i + 1, CharClass::InlineSpace);
        let tok = match p_quoted(s, m) {
            Some(t) => Some(t),
            None => p_ident(s, m),
        };
        match tok {
            Some((n, t)) => {
                if t.len() > 0 {
                    (n, Some(t))
                } else {
                    (n, None)
                }
            },
            None => (i, None),
        }
    } else {
        (i, None)
    }
}

pub open spec fn rel_opt_view(r: Option<(usize, ParsedRelationship)>) -> Option<(int, SRel)> {
    match r {
        Some((e, x)) => Some((e as int, rel_view(x))),
        None => None,
    }
}

fn p_rel(s: &Vec<char>, i: usize) -> (r: Option<(usize, ParsedRelationship)>)
    requires
        i <= s.len(),
    ensures
        rel_opt_view(r) == sp_rel(s@, i as int),
        r matches Some((e, _)) ==> i < e <= s.len(),
{
    let (a, (from, _fa)) = match p_name_alias(s, i) {
        None => {
            return None;
        },
        Some(x) => x,
    };
    let (c, fc) = match p_card(s, scan(s, a, CharClass::InlineSpace)) {
        None => {
            return None;
        },
        Some(x) => x,
    };
    let e = match p_connector(s, scan(s, c, CharClass::InlineSpace)) {
        None => {
            return None;
        },
        Some(x) => x,
    };
    let (g, tc) = match p_card(s, scan(s, e, CharClass::InlineSpace)) {
        None => {
            return None;
        },
        Some(x) => x,
    };
    let (k, (to, _ta)) = match p_name_alias(s, scan(s, g, CharClass::InlineSpace)) {
        None => {
            return None;
        },
        Some(x) => x,
    };
    let (n, label) = p_label(s, scan(s, k, CharClass::InlineSpace));
    let rel = ParsedRelationship {
        from: from_chars(&from),
        to: from_chars(&to),
        from_cardinality: fc,
        to_cardinality: tc,
        label: opt_string(label),
    };
    Some((n, rel))
}

fn p_comment(s: &Vec<char>, i: usize) -> (r: Option<usize>)
    requires
        i <= s.len(),
    ensures
        match r {
            Some(e) => sp_comment(s@, i as int) == Some(e as int) && i <= e <= s.len(),
            None => sp_comment(s@, i as int) is None,
        },
{
    let pct = to_chars("%%");
    if matches_at(s, i, &pct) {
        Some(scan(s, i + pct.len(), CharClass::NotNewline))
    } else {
        None
    }
}

fn p_direction(s: &Vec<char>, i: usize) -> (r: Option<(usize, Direction)>)
    requires
        i <= s.len(),
    ensures
        match r {
            Some((e, d)) => sp_direction(s@, i as int) == Some((e as int, d)) && i <= e <= s.len(),
            None => sp_direction(s@, i as int) is None,
        },
{
    let direction = to_chars("direction");
    if !keyword(s, i, &direction) {
        return None;
    }
    let j = scan(s, i + direction.len(), CharClass::InlineSpace);
    let tb = to_chars("TB");
    let bt = to_chars("BT");
    let lr = to_chars("LR");
    let rl = to_chars("RL");
    proof {
        reveal_strlit("TB");
        reveal_strlit("BT");
        reveal_strlit("LR");
        reveal_strlit("RL");
    }
    if keyword(s, j, &tb) {
        Some((j + 2, Direction::Tb))
    } else if keyword(s, j, &bt) {
        Some((j + 2, Direction::Bt))
    } else if keyword(s, j, &lr) {
        Some((j + 2, Direction::Lr))
    } else if keyword(s, j, &rl) {
        Some((j + 2, Direction::Rl))
    } else {
        None
    }
}

fn p_style(s: &Vec<char>, i: usize) -> (r: Option<usize>)
    requires
        i <= s.len(),
    ensures
        match r {
            Some(e) => sp_style(s@, i as int) == Some(e as int) && i <= e <= s.len(),
            None => sp_style(s@, i as int) is None,
        },
{
    let style = to_chars("style");
    let class_def = to_chars("classDef");
    let class = to_chars("class");
    let k = if keyword(s, i, &style) {
        i + style.len()
    } else if keyword(s, i, &class_def) {
        i + class_def.len()
    } else if keyword(s, i, &class) {
        i + class.len()
    } else {
        return None;
    };
    Some(scan(s, scan(s, k, CharClass::InlineSpace), CharClass::NotNewline))
}

pub open spec fn stmt_opt_view(r: Option<(usize, Statement)>) -> Option<(int, SStmt)> {
    match r {
        Some((e, x)) => Some((e as int, stmt_view(x))),
        None => None,
    }
}

fn p_statement(s: &Vec<char>, i: usize) -> (r: Option<(usize, Statement)>)
    requires
        i <= s.len(),
    ensures
        stmt_opt_view(r) == sp_statement(s@, i as int),
        r matches Some((e, _)) ==> i <= e <= s.len(),
{
    if let Some(e) = p_comment(s, i) {
        return Some((e, Statement::Comment));
    }
    if let Some((e, d)) = p_direction(s, i) {
        return Some((e, Statement::Direction(d)));
    }
    if let Some(e) = p_style(s, i) {
        return Some((e, Statement::Style));
    }
    if let Some((e, ent)) = p_entity(s, i) {
        return Some((e, Statement::Entity(ent)));
    }
    if let Some((e, rel)) = p_rel(s, i) {
        return Some((e, Statement::Relationship(rel)));
    }
    match p_name_alias(s, i) {
        Some((e, (name, alias))) => {
            let ent = ParsedEntity {
                name: from_chars(&name),
                alias: opt_string(alias),
                attributes: Vec::new(),
            };
            assert(ent.attributes@.map_values(|a: ParsedAttribute| attr_view(a)) =~= Seq::<SAttr>::empty());
            Some((e, Statement::Entity(ent)))
        },
        None => None,
    }
}

/// The view of a list of statements.
pub open spec fn stmts_view(v: Seq<Statement>) -> Seq<SStmt> {
    v.map_values(|x: Statement| stmt_view(x))
}

fn p_statements(s: &Vec<char>, i: usize) -> (r: (usize, Vec<Statement>))
    requires
        i <= s.len(),
    ensures
        sp_statements(s@, i as int) == (r.0 as int, stmts_view(r.1@)),
        i <= r.0 <= s.len(),
{
    let mut out: Vec<Statement> = Vec::new();
    match p_statement(s, i) {
        None => {
            assert(stmts_view(out@) =~= Seq::<SStmt>::empty());
            (i, out)
        },
        Some((e, st)) => {
            if !(i < e && e <= s.len()) {
                assert(stmts_view(out@) =~= Seq::<SStmt>::empty());
                return (i, out);
            }
            out.push(st);
            assert(stmts_view(out@) =~= seq![stmt_view(st)]);
            let mut at = e;
            loop
                invariant
                    i < at <= s.len(),
                    sp_statements(s@, i as int) == sp_statements_more(s@, at as int, stmts_view(out@)),
                decreases s.len() - at,
            {
                let k = scan(s, at, CharClass::Space);
                if k == at {
                    return (at, out);
                }
                match p_statement(s, k) {
                    Some((e2, st2)) => {
                        if at < k && k < e2 && e2 <= s.len() {
                            let ghost before = stmts_view(out@);
                            out.push(st2);
                            assert(stmts_view(out@) =~= before.push(stmt_view(st2)));
                            at = e2;
                        } else {
                            return (k, out);
                        }
                    },
                    None => {
                        return (k, out);
                    },
                }
            }
        },
    }
}

fn p_header(s: &Vec<char>, i: usize) -> (r: usize)
    requires
        i <= s.len(),
    ensures
        r == header_end(s@, i as int),
        i <= r <= s.len(),
{
    let a = to_chars("erDiagram");
    let b = to_chars("erdiagram");
    let c = to_chars("ERDIAGRAM");
    if keyword(s, i, &a) {
        i + a.len()
    } else if keyword(s, i, &b) {
        i + b.len()
    } else if keyword(s, i, &c) {
        i + c.len()
    } else {
        i
    }
}

fn convert_attributes(attrs: Vec<ParsedAttribute>) -> (r: Vec<Attribute>)
    ensures
        r@.map_values(|a: Attribute| db_attr_view(a)) == attrs@.map_values(
            |a: ParsedAttribute| attr_view(a),
        ),
{
    let ghost all = attrs@.map_values(|a: ParsedAttribute| attr_view(a));
    let mut rest = attrs;
    let mut out: Vec<Attribute> = Vec::new();
    while rest.len() > 0
        invariant
            out@.len() + rest@.len() == all.len(),
            out@.map_values(|a: Attribute| db_attr_view(a)) == all.take(out@.len() as int),
            rest@.map_values(|a: ParsedAttribute| attr_view(a)) == all.skip(out@.len() as int),
        decreases rest.len(),
    {
        let ghost before = rest@;
        let ghost n = out@.len();
        let a = rest.remove(0);
        assert(rest@ == before.drop_first());
        assert(before.map_values(|a: ParsedAttribute| attr_view(a))[0] == attr_view(before[0]));
        assert(all.skip(n as int)[0] == all[n as int]);
        assert(attr_view(a) == all[n as int]);
        assert(before.drop_first().map_values(|a: ParsedAttribute| attr_view(a)) =~= before.map_values(|a: ParsedAttribute| attr_view(a)).drop_first());
        let ghost prev = out@.map_values(|a: Attribute| db_attr_view(a));
        let converted = Attribute {
            name: a.name,
            attr_type: a.attr_type,
            keys: a.keys,
            comment: a.comment,
        };
        out.push(converted);
        assert(out@.map_values(|a: Attribute| db_attr_view(a)) =~= prev.push(db_attr_view(converted)));
        assert(all.take(n + 1 as int) =~= all.take(n as int).push(all[n as int]));
        assert(rest@.map_values(|a: ParsedAttribute| attr_view(a)) =~= all.skip(n + 1 as int));
    }
    assert(all.take(all.len() as int) == all);
    out
}

fn convert_entity(p: ParsedEntity) -> (e: Entity)
    ensures
        db_entity_view(e) == entity_view(p),
{
    let attributes = convert_attributes(p.attributes);
    Entity { name: p.name, alias: p.alias, attributes }
}

fn convert_relationship(p: ParsedRelationship) -> (r: Relationship)
    ensures
        db_rel_view(r) == rel_view(p),
{
    Relationship {
        from: p.from,
        to: p.to,
        from_cardinality: p.from_cardinality,
        to_cardinality: p.to_cardinality,
        label: p.label,
    }
}

proof fn lemma_named_view(es: Seq<Entity>, vs: Seq<SEntity>, name: Seq<char>)
    requires
        vs == es.map_values(|e: Entity| db_entity_view(e)),
    ensures
        (first_named(es, name) is Some) == (exists|j: int| 0 <= j < vs.len() && #[trigger] vs[j].name == name),
{
    lemma_first_named(es, name);
    if first_named(es, name) is Some {
        let i = first_named(es, name)->0;
        assert(vs[i].name == name);
    } else {
        assert forall|j: int| 0 <= j < vs.len() implies #[trigger] vs[j].name != name by {
            assert(vs[j] == db_entity_view(es[j]));
        }
    }
}

/// Make sure an entity named `name` exists.
fn ensure_named(database: &mut ErDatabase, name: &String)
    ensures
        entities_view(final(database)) == ensure_entity(entities_view(old(database)), name@),
        relationships_view(final(database)) == relationships_view(old(database)),
{
    proof {
        lemma_named_view(database.entity_seq(), entities_view(database), name@);
    }
    let ghost old_es = database.entity_seq();
    database.get_or_create_entity(name.as_str());
    proof {
        lemma_first_named(old_es, name@);
        match first_named(old_es, name@) {
            Some(i) => {
                assert(database.entity_seq() =~= old_es);
            },
            None => {
                let last = database.entity_seq().last();
                assert(last.attributes@.map_values(|a: Attribute| db_attr_view(a)) =~= Seq::<SAttr>::empty());
            },
        }
    }
    assert(entities_view(database) =~= ensure_entity(
        old_es.map_values(|e: Entity| db_entity_view(e)),
        name@,
    ));
}

/// Apply one statement to the database.
fn apply_one(database: &mut ErDatabase, st: Statement)
    ensures
        (entities_view(final(database)), relationships_view(final(database))) == apply_statement(
            (entities_view(old(database)), relationships_view(old(database))),
            stmt_view(st),
        ),
{
    match st {
        Statement::Entity(p) => {
            let ghost pv = entity_view(p);
            let ghost before = database.entity_seq();
            let e = convert_entity(p);
            let _ = database.add_entity(e);
            assert(entities_view(database) =~= before.map_values(|e: Entity| db_entity_view(e)).push(pv));
        },
        Statement::Relationship(p) => {
            let ghost pv = rel_view(p);
            ensure_named(database, &p.from);
            ensure_named(database, &p.to);
            let ghost before = database.relationship_seq();
            let r = convert_relationship(p);
            let _ = database.add_relationship(r);
            assert(relationships_view(database) =~= before.map_values(|r: Relationship| db_rel_view(r)).push(pv));
        },
        _ => {},
    }
}

/// The statement grammar of ER diagrams: reads source into statements.
pub struct ChumskyErParser;

impl ChumskyErParser {
    /// A parser.
    pub fn new() -> (r: Self) {
        ChumskyErParser
    }

    /// Parse a whole diagram into its statements.
    pub fn parse_diagram(&self, input: &str) -> (r: Result<Vec<Statement>, DiagramError>)
        ensures
            match sp_diagram(input@) {
                Some(stmts) => r matches Ok(v) && stmts_view(v@) == stmts,
                None => r is Err,
            },
    {
        let s = to_chars(input);
        let a = scan(&s, 0, CharClass::Space);
        let b = scan(&s, p_header(&s, a), CharClass::Space);
        let (c, stmts) = p_statements(&s, b);
        if scan(&s, c, CharClass::Space) == s.len() {
            Ok(stmts)
        } else {
            Err(DiagramError::new(from_chars(&to_chars("Parse errors: unexpected input in ER diagram"))))
        }
    }

    /// Parse a single statement that spans the whole input.
    pub fn parse_statement(&self, input: &str) -> (r: Result<Statement, DiagramError>)
        ensures
            match sp_single(input@) {
                Some(st) => r matches Ok(x) && stmt_view(x) == st,
                None => r is Err,
            },
    {
        let s = to_chars(input);
        match p_statement(&s, 0) {
            Some((e, st)) => {
                if e == s.len() {
                    return Ok(st);
                }
            },
            None => {},
        }
        Err(DiagramError::new(from_chars(&to_chars("Parse errors: not a single ER statement"))))
    }
}

/// Parser for ER diagrams: reads the statements and files them in a
/// database.
pub struct ErParser {
    statements: ChumskyErParser,
}

impl ErParser {
    /// A parser.
    pub fn new() -> (r: Self) {
        ErParser { statements: ChumskyErParser::new() }
    }

    /// The name of the diagram kind this parser reads.
    pub fn name(&self) -> (r: &'static str)
        ensures
            r@ == seq!['e', 'r'],
    {
        proof {
            reveal_strlit("er");
        }
        "er"
    }

    /// The parser's version.
    pub fn version(&self) -> (r: &'static str)
        ensures
            r@ == seq!['0', '.', '1', '.', '0'],
    {
        proof {
            reveal_strlit("0.1.0");
        }
        "0.1.0"
    }

    /// Whether the input, lower-cased, mentions `erdiagram`.
    pub fn can_parse(&self, input: &str) -> (r: bool)
        ensures
            r == contains_seq(lowercase(input@), seq!['e', 'r', 'd', 'i', 'a', 'g', 'r', 'a', 'm']),
    {
        let lower = to_lowercase(&to_chars(input));
        let key = to_chars("erdiagram");
        proof {
            reveal_strlit("erdiagram");
        }
        assert(key@ =~= seq!['e', 'r', 'd', 'i', 'a', 'g', 'r', 'a', 'm']);
        contains(&lower, &key)
    }

    /// Parse a diagram and add its entities and relationships to
    /// `database`: entities in order of appearance, and for each
    /// relationship its two ends (created empty when not yet there) before
    /// the relationship itself.  On a syntax error nothing is added.
    pub fn parse(&self, input: &str, database: &mut ErDatabase) -> (r: Result<(), DiagramError>)
        ensures
            match sp_diagram(input@) {
                Some(stmts) => r is Ok && (entities_view(final(database)), relationships_view(
                    final(database),
                )) == apply_statements(
                    (entities_view(old(database)), relationships_view(old(database))),
                    stmts,
                ),
                None => r is Err && *final(database) == *old(database),
            },
    {
        let mut stmts = match self.statements.parse_diagram(input) {
            Ok(v) => v,
            Err(e) => {
                return Err(e);
            },
        };
        let ghost all = stmts_view(stmts@);
        let n0 = stmts.len();
        assert(all.len() == n0);
        let ghost start = (entities_view(database), relationships_view(database));
        let mut done: usize = 0;
        while stmts.len() > 0
            invariant
                done + stmts@.len() == all.len(),
                all.len() <= usize::MAX,
                stmts_view(stmts@) == all.skip(done as int),
                (entities_view(database), relationships_view(database)) == apply_statements(
                    start,
                    all.take(done as int),
                ),
            decreases stmts.len(),
        {
            let ghost before = stmts@;
            let st = stmts.remove(0);
            assert(stmts@ == before.drop_first());
            assert(stmts_view(before)[0] == stmt_view(before[0]));
            assert(all.skip(done as int)[0] == all[done as int]);
            assert(stmt_view(st) == all[done as int]);
            assert(stmts_view(before.drop_first()) =~= stmts_view(before).drop_first());
            assert(all.take(done + 1).drop_last() == all.take(done as int));
            assert(all.take(done + 1).last() == all[done as int]);
            assert(stmts_view(stmts@) =~= all.skip(done + 1));
            apply_one(database, st);
            done += 1;
        }
        assert(all.take(done as int) == all);
        Ok(())
    }
}

} // verus!
