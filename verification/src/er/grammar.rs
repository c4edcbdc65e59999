//! The ER diagram grammar, stated as specification-level parsers over
//! character sequences.
//!
//! Every parser takes the input and a start position and answers `None` when
//! it does not apply, or the end position and the value read.  Alternatives
//! are ordered: the first that applies is taken.
use super::database::{Cardinality, KeyKind};
use crate::scan::{char_at, in_class, keyword_at, run_end, CharClass};
use crate::text::{occurs_at, trim};
use vstd::prelude::*;

verus! {

/// An attribute as read from the source.
pub struct SAttr {
    pub attr_type: Seq<char>,
    pub name: Seq<char>,
    pub keys: Seq<KeyKind>,
    pub comment: Option<Seq<char>>,
}

/// An entity as read from the source.
pub struct SEntity {
    pub name: Seq<char>,
    pub alias: Option<Seq<char>>,
    pub attributes: Seq<SAttr>,
}

/// A relationship as read from the source.
pub struct SRel {
    pub from: Seq<char>,
    pub to: Seq<char>,
    pub from_cardinality: Cardinality,
    pub to_cardinality: Cardinality,
    pub label: Option<Seq<char>>,
}

/// Diagram direction (read and then ignored by the layout).
#[derive(Clone, Copy, Debug, PartialEq, Eq, Structural)]
pub enum Direction {
    Tb,
    Bt,
    Lr,
    Rl,
}

/// A statement as read from the source.
pub enum SStmt {
    Entity(SEntity),
    Relationship(SRel),
    Direction(Direction),
    Comment,
    Style,
}

pub open spec fn inline_end(s: Seq<char>, i: int) -> int {
    run_end(s, i, CharClass::InlineSpace)
}

pub open spec fn space_end(s: Seq<char>, i: int) -> int {
    run_end(s, i, CharClass::Space)
}

/// `"text"`: a double-quoted string on one line.
pub open spec fn sp_quoted(s: Seq<char>, i: int) -> Option<(int, Seq<char>)> {
    if char_at(s, i, '"') {
        let j = run_end(s, i + 1, CharClass::QuotedChar);
        if char_at(s, j, '"') {
            Some((j + 1, s.subrange(i + 1, j)))
        } else {
            None
        }
    } else {
        None
    }
}

/// A bare identifier: a non-empty run of identifier characters, trimmed.
pub open spec fn sp_ident(s: Seq<char>, i: int) -> Option<(int, Seq<char>)> {
    let j = run_end(s, i, CharClass::IdentChar);
    if j > i {
        Some((j, trim(s.subrange(i, j))))
    } else {
        None
    }
}

/// A name: quoted or bare.
pub open spec fn sp_name(s: Seq<char>, i: int) -> Option<(int, Seq<char>)> {
    match sp_quoted(s, i) {
        Some(r) => Some(r),
        None => sp_ident(s, i),
    }
}

/// End of an optional `:::class` suffix at `i`.
pub open spec fn class_apply_end(s: Seq<char>, i: int) -> int {
    if occurs_at(s, seq![':', ':', ':'], i) {
        run_end(s, i + 3, CharClass::NotBlank)
    } else {
        i
    }
}

/// `Name`, `Name[alias]`, either optionally followed by `:::class`.
pub open spec fn sp_name_alias(s: Seq<char>, i: int) -> Option<(int, (Seq<char>, Option<Seq<char>>))> {
    match sp_name(s, i) {
        None => None,
        Some((j, n)) => {
            let (k, alias) = if char_at(s, j, '[') {
                match sp_name(s, j + 1) {
                    Some((m, a)) => if char_at(s, m, ']') {
                        (m + 1, Some(a))
                    } else {
                        (j, None)
                    },
                    None => (j, None),
                }
            } else {
                (j, None)
            };
            Some((class_apply_end(s, k), (n, alias)))
        },
    }
}

/// `PK`, `FK` or `UK` as a keyword.
pub open spec fn sp_key(s: Seq<char>, i: int) -> Option<(int, KeyKind)> {
    if keyword_at(s, i, "PK"@) {
        Some((i + "PK"@.len(), KeyKind::Pk))
    } else if keyword_at(s, i, "FK"@) {
        Some((i + "FK"@.len(), KeyKind::Fk))
    } else if keyword_at(s, i, "UK"@) {
        Some((i + "UK"@.len(), KeyKind::Uk))
    } else {
        None
    }
}

/// More keys after a key that ended at `i`: `, KEY` repeated.
pub open spec fn sp_keys_more(s: Seq<char>, i: int, acc: Seq<KeyKind>) -> (int, Seq<KeyKind>)
    decreases s.len() - i,
{
    if char_at(s, i, ',') {
        match sp_key(s, inline_end(s, i + 1)) {
            Some((e, k)) => if i < e <= s.len() {
                sp_keys_more(s, e, acc.push(k))
            } else {
                (i, acc)
            },
            None => (i, acc),
        }
    } else {
        (i, acc)
    }
}

/// A comma-separated list of keys, possibly empty.
pub open spec fn sp_keys(s: Seq<char>, i: int) -> (int, Seq<KeyKind>) {
    match sp_key(s, i) {
        None => (i, Seq::empty()),
        Some((e, k)) => sp_keys_more(s, e, seq![k]),
    }
}

/// The keys with a primary key first when the name was starred.
pub open spec fn with_star_key(keys: Seq<KeyKind>, star: bool) -> Seq<KeyKind> {
    if star && !keys.contains(KeyKind::Pk) {
        seq![KeyKind::Pk] + keys
    } else {
        keys
    }
}

/// `TYPE NAME [KEYS] ["comment"]`, where a `*` before the name marks a
/// primary key.
pub open spec fn sp_attr(s: Seq<char>, i: int) -> Option<(int, SAttr)> {
    let t = run_end(s, i, CharClass::TypeChar);
    let w = inline_end(s, t);
    if t == i || w == t {
        None
    } else {
        let star = char_at(s, w, '*') && sp_name(s, w + 1) is Some;
        let nm = if star {
            sp_name(s, w + 1)
        } else {
            sp_name(s, w)
        };
        match nm {
            None => None,
            Some((e, name)) => {
                let (e2, keys) = sp_keys(s, inline_end(s, e));
                let (e3, comment) = match sp_quoted(s, inline_end(s, e2)) {
                    Some((q, c)) => (q, Some(c)),
                    None => (e2, None),
                };
                Some(
                    (
                        e3,
                        SAttr {
                            attr_type: trim(s.subrange(i, t)),
                            name,
                            keys: with_star_key(keys, star),
                            comment,
                        },
                    ),
                )
            },
        }
    }
}

/// More attributes after one that ended at `i`, each after whitespace; a
/// trailing separator is allowed.
pub open spec fn sp_attrs_more(s: Seq<char>, i: int, acc: Seq<SAttr>) -> (int, Seq<SAttr>)
    decreases s.len() - i,
{
    let k = space_end(s, i);
    if k == i {
        (i, acc)
    } else {
        match sp_attr(s, k) {
            Some((e, a)) => if i < k < e <= s.len() {
                sp_attrs_more(s, e, acc.push(a))
            } else {
                (k, acc)
            },
            None => (k, acc),
        }
    }
}

/// Attributes separated by whitespace, possibly none.
pub open spec fn sp_attrs(s: Seq<char>, i: int) -> (int, Seq<SAttr>) {
    match sp_attr(s, i) {
        None => (i, Seq::empty()),
        Some((e, a)) => if i < e <= s.len() {
            sp_attrs_more(s, e, seq![a])
        } else {
            (i, Seq::empty())
        },
    }
}

/// `Name { attributes }`.
pub open spec fn sp_entity(s: Seq<char>, i: int) -> Option<(int, SEntity)> {
    match sp_name_alias(s, i) {
        None => None,
        Some((j, (name, alias))) => {
            let k = space_end(s, j);
            if char_at(s, k, '{') {
                let (e, attributes) = sp_attrs(s, space_end(s, k + 1));
                let f = space_end(s, e);
                if char_at(s, f, '}') {
                    Some((f + 1, SEntity { name, alias, attributes }))
                } else {
                    None
                }
            } else {
                None
            }
        },
    }
}

/// The word forms of cardinalities, in the order they are tried.
pub open spec fn card_words() -> Seq<(Seq<char>, Cardinality)> {
    seq![
        ("||"@, Cardinality::ExactlyOne),
        ("}|"@, Cardinality::OneOrMore),
        ("|{"@, Cardinality::OneOrMore),
        ("}o"@, Cardinality::ZeroOrMore),
        ("o{"@, Cardinality::ZeroOrMore),
        ("|o"@, Cardinality::ZeroOrOne),
        ("o|"@, Cardinality::ZeroOrOne),
        ("one or zero"@, Cardinality::ZeroOrOne),
        ("zero or one"@, Cardinality::ZeroOrOne),
        ("one or more"@, Cardinality::OneOrMore),
        ("one or many"@, Cardinality::OneOrMore),
        ("many(1)"@, Cardinality::OneOrMore),
        ("1+"@, Cardinality::OneOrMore),
        ("zero or more"@, Cardinality::ZeroOrMore),
        ("zero or many"@, Cardinality::ZeroOrMore),
        ("many(0)"@, Cardinality::ZeroOrMore),
        ("0+"@, Cardinality::ZeroOrMore),
        ("only one"@, Cardinality::ExactlyOne),
        ("1"@, Cardinality::ExactlyOne),
    ]
}

/// The first of `forms[n..]` that occurs at `i`.
pub open spec fn sp_card_from(s: Seq<char>, i: int, forms: Seq<(Seq<char>, Cardinality)>, n: int) -> Option<(int, Cardinality)>
    decreases forms.len() - n,
{
    if n < 0 || n >= forms.len() {
        None
    } else if occurs_at(s, forms[n].0, i) {
        Some((i + forms[n].0.len(), forms[n].1))
    } else {
        sp_card_from(s, i, forms, n + 1)
    }
}

/// A cardinality marker (`||`, `o{`, ...) or word (`one or more`, `1+`, ...).
pub open spec fn sp_card(s: Seq<char>, i: int) -> Option<(int, Cardinality)> {
    sp_card_from(s, i, card_words(), 0)
}

/// End of a connector at `i`: `--`, `..`, `to` or `optionally to`.
pub open spec fn sp_connector(s: Seq<char>, i: int) -> Option<int> {
    if occurs_at(s, "--"@, i) {
        Some(i + "--"@.len())
    } else if occurs_at(s, ".."@, i) {
        Some(i + ".."@.len())
    } else if keyword_at(s, i, "to"@) {
        Some(i + "to"@.len())
    } else if keyword_at(s, i, "optionally"@) && keyword_at(
        s,
        inline_end(s, i + "optionally"@.len()),
        "to"@,
    ) {
        Some(inline_end(s, i + "optionally"@.len()) + "to"@.len())
    } else {
        None
    }
}

/// `: label`, quoted or bare, at `i` (the label is dropped when empty).
pub open spec fn sp_label(s: Seq<char>, i: int) -> (int, Option<Seq<char>>) {
    if char_at(s, i, ':') {
        let m = inline_end(s, i + 1);
        match sp_quoted(s, m) {
            Some((n, t)) => (n, if t.len() > 0 {
                Some(t)
            } else {
                None
            }),
            None => match sp_ident(s, m) {
                Some((n, t)) => (n, if t.len() > 0 {
                    Some(t)
                } else {
                    None
                }),
                None => (i, None),
            },
        }
    } else {
        (i, None)
    }
}

/// `From CARD CONNECTOR CARD To [: label]`.
pub open spec fn sp_rel(s: Seq<char>, i: int) -> Option<(int, SRel)> {
    match sp_name_alias(s, i) {
        None => None,
        Some((a, (from, _fa))) => match sp_card(s, inline_end(s, a)) {
            None => None,
            Some((c, fc)) => match sp_connector(s, inline_end(s, c)) {
                None => None,
                Some(e) => match sp_card(s, inline_end(s, e)) {
                    None => None,
                    Some((g, tc)) => match sp_name_alias(s, inline_end(s, g)) {
                        None => None,
                        Some((k, (to, _ta))) => {
                            let (n, label) = sp_label(s, inline_end(s, k));
                            Some(
                                (
                                    n,
                                    SRel {
                                        from,
                                        to,
                                        from_cardinality: fc,
                                        to_cardinality: tc,
                                        label,
                                    },
                                ),
                            )
                        },
                    },
                },
            },
        },
    }
}

/// `%% comment`.
pub open spec fn sp_comment(s: Seq<char>, i: int) -> Option<int> {
    if occurs_at(s, "%%"@, i) {
        Some(run_end(s, i + "%%"@.len(), CharClass::NotNewline))
    } else {
        None
    }
}

/// `direction TB|BT|LR|RL`.
pub open spec fn sp_direction(s: Seq<char>, i: int) -> Option<(int, Direction)> {
    if keyword_at(s, i, "direction"@) {
        let j = inline_end(s, i + "direction"@.len());
        if keyword_at(s, j, "TB"@) {
            Some((j + 2, Direction::Tb))
        } else if keyword_at(s, j, "BT"@) {
            Some((j + 2, Direction::Bt))
        } else if keyword_at(s, j, "LR"@) {
            Some((j + 2, Direction::Lr))
        } else if keyword_at(s, j, "RL"@) {
            Some((j + 2, Direction::Rl))
        } else {
            None
        }
    } else {
        None
    }
}

/// `style ...`, `classDef ...` or `class ...` up to the end of the line.
pub open spec fn sp_style(s: Seq<char>, i: int) -> Option<int> {
    let k = if keyword_at(s, i, "style"@) {
        i + "style"@.len()
    } else if keyword_at(s, i, "classDef"@) {
        i + "classDef"@.len()
    } else if keyword_at(s, i, "class"@) {
        i + "class"@.len()
    } else {
        -1
    };
    if k < 0 {
        None
    } else {
        Some(run_end(s, inline_end(s, k), CharClass::NotNewline))
    }
}

/// A statement: comment, direction, style, entity with a body,
/// relationship, or a bare entity name, tried in that order.
pub open spec fn sp_statement(s: Seq<char>, i: int) -> Option<(int, SStmt)> {
    match sp_comment(s, i) {
        Some(e) => Some((e, SStmt::Comment)),
        None => match sp_direction(s, i) {
            Some((e, d)) => Some((e, SStmt::Direction(d))),
            None => match sp_style(s, i) {
                Some(e) => Some((e, SStmt::Style)),
                None => match sp_entity(s, i) {
                    Some((e, ent)) => Some((e, SStmt::Entity(ent))),
                    None => match sp_rel(s, i) {
                        Some((e, rel)) => Some((e, SStmt::Relationship(rel))),
                        None => match sp_name_alias(s, i) {
                            Some((e, (name, alias))) => Some(
                                (
                                    e,
                                    SStmt::Entity(
                                        SEntity { name, alias, attributes: Seq::empty() },
                                    ),
                                ),
                            ),
                            None => None,
                        },
                    },
                },
            },
        },
    }
}

/// More statements after one that ended at `i`, each after whitespace; a
/// trailing separator is allowed.
pub open spec fn sp_statements_more(s: Seq<char>, i: int, acc: Seq<SStmt>) -> (int, Seq<SStmt>)
    decreases s.len() - i,
{
    let k = space_end(s, i);
    if k == i {
        (i, acc)
    } else {
        match sp_statement(s, k) {
            Some((e, st)) => if i < k < e <= s.len() {
                sp_statements_more(s, e, acc.push(st))
            } else {
                (k, acc)
            },
            None => (k, acc),
        }
    }
}

/// Statements separated by whitespace, possibly none.
pub open spec fn sp_statements(s: Seq<char>, i: int) -> (int, Seq<SStmt>) {
    match sp_statement(s, i) {
        None => (i, Seq::empty()),
        Some((e, st)) => if i < e <= s.len() {
            sp_statements_more(s, e, seq![st])
        } else {
            (i, Seq::empty())
        },
    }
}

/// End of the optional `erDiagram` header at `i`.
pub open spec fn header_end(s: Seq<char>, i: int) -> int {
    if keyword_at(s, i, "erDiagram"@) {
        i + "erDiagram"@.len()
    } else if keyword_at(s, i, "erdiagram"@) {
        i + "erdiagram"@.len()
    } else if keyword_at(s, i, "ERDIAGRAM"@) {
        i + "ERDIAGRAM"@.len()
    } else {
        i
    }
}

/// A whole diagram: optional header, statements, nothing else but whitespace.
pub open spec fn sp_diagram(s: Seq<char>) -> Option<Seq<SStmt>> {
    let (c, stmts) = sp_statements(s, space_end(s, header_end(s, space_end(s, 0))));
    if space_end(s, c) == s.len() {
        Some(stmts)
    } else {
        None
    }
}

/// A single statement spanning the whole input.
pub open spec fn sp_single(s: Seq<char>) -> Option<SStmt> {
    match sp_statement(s, 0) {
        Some((e, st)) => if e == s.len() {
            Some(st)
        } else {
            None
        },
        None => None,
    }
}

/// Where text `b` stands at `i`, no text that differs from `b` at its
/// `k`-th character stands there.
proof fn lemma_excl_at(s: Seq<char>, i: int, b: Seq<char>, k: int)
    requires
        occurs_at(s, b, i),
        0 <= k < b.len(),
    ensures
        forall|a: Seq<char>| k < a.len() && a[k] != b[k] ==> !#[trigger] occurs_at(s, a, i),
{
    assert forall|a: Seq<char>| k < a.len() && a[k] != b[k] implies !#[trigger] occurs_at(s, a, i) by {
        if occurs_at(s, a, i) {
            assert(s.subrange(i, i + a.len())[k] == s[i + k]);
            assert(s.subrange(i, i + b.len())[k] == s[i + k]);
        }
    }
}

/// Every cardinality word reads as the marker it stands for: `zero or
/// more`, `zero or many`, `many(0)` and `0+` as `}o` / `o{` (zero or more);
/// `one or more`, `one or many`, `many(1)` and `1+` as `}|` / `|{` (one or
/// more); `zero or one` and `one or zero` as `|o` / `o|` (zero or one);
/// `only one` and `1` (not followed by `+`) as `||` (exactly one). Wherever
/// one of them stands, the cardinality read there is that one, and the
/// reading ends right after it.
#[verifier::rlimit(40)]
pub proof fn lemma_card_words(s: Seq<char>, i: int)
    requires
        0 <= i,
    ensures
        occurs_at(s, "||"@, i) ==> sp_card(s, i) == Some((i + 2, Cardinality::ExactlyOne)),
        occurs_at(s, "}|"@, i) ==> sp_card(s, i) == Some((i + 2, Cardinality::OneOrMore)),
        occurs_at(s, "|{"@, i) ==> sp_card(s, i) == Some((i + 2, Cardinality::OneOrMore)),
        occurs_at(s, "}o"@, i) ==> sp_card(s, i) == Some((i + 2, Cardinality::ZeroOrMore)),
        occurs_at(s, "o{"@, i) ==> sp_card(s, i) == Some((i + 2, Cardinality::ZeroOrMore)),
        occurs_at(s, "|o"@, i) ==> sp_card(s, i) == Some((i + 2, Cardinality::ZeroOrOne)),
        occurs_at(s, "o|"@, i) ==> sp_card(s, i) == Some((i + 2, Cardinality::ZeroOrOne)),
        occurs_at(s, "one or zero"@, i) ==> sp_card(s, i) == Some((i + 11, Cardinality::ZeroOrOne)),
        occurs_at(s, "zero or one"@, i) ==> sp_card(s, i) == Some((i + 11, Cardinality::ZeroOrOne)),
        occurs_at(s, "one or more"@, i) ==> sp_card(s, i) == Some((i + 11, Cardinality::OneOrMore)),
        occurs_at(s, "one or many"@, i) ==> sp_card(s, i) == Some((i + 11, Cardinality::OneOrMore)),
        occurs_at(s, "many(1)"@, i) ==> sp_card(s, i) == Some((i + 7, Cardinality::OneOrMore)),
        occurs_at(s, "1+"@, i) ==> sp_card(s, i) == Some((i + 2, Cardinality::OneOrMore)),
        occurs_at(s, "zero or more"@, i) ==> sp_card(s, i) == Some((i + 12, Cardinality::ZeroOrMore)),
        occurs_at(s, "zero or many"@, i) ==> sp_card(s, i) == Some((i + 12, Cardinality::ZeroOrMore)),
        occurs_at(s, "many(0)"@, i) ==> sp_card(s, i) == Some((i + 7, Cardinality::ZeroOrMore)),
        occurs_at(s, "0+"@, i) ==> sp_card(s, i) == Some((i + 2, Cardinality::ZeroOrMore)),
        occurs_at(s, "only one"@, i) ==> sp_card(s, i) == Some((i + 8, Cardinality::ExactlyOne)),
        occurs_at(s, "1"@, i) && !occurs_at(s, "1+"@, i) ==> sp_card(s, i) == Some((i + 1, Cardinality::ExactlyOne)),
{
    reveal_strlit("||");
    reveal_strlit("}|");
    reveal_strlit("|{");
    reveal_strlit("}o");
    reveal_strlit("o{");
    reveal_strlit("|o");
    reveal_strlit("o|");
    reveal_strlit("one or zero");
    reveal_strlit("zero or one");
    reveal_strlit("one or more");
    reveal_strlit("one or many");
    reveal_strlit("many(1)");
    reveal_strlit("1+");
    reveal_strlit("zero or more");
    reveal_strlit("zero or many");
    reveal_strlit("many(0)");
    reveal_strlit("0+");
    reveal_strlit("only one");
    reveal_strlit("1");
    reveal_with_fuel(sp_card_from, 20);
    if occurs_at(s, "||"@, i) {
    }
    if occurs_at(s, "}|"@, i) {
        lemma_excl_at(s, i, "}|"@, 0);
    }
    if occurs_at(s, "|{"@, i) {
        lemma_excl_at(s, i, "|{"@, 0);
        lemma_excl_at(s, i, "|{"@, 1);
    }
    if occurs_at(s, "}o"@, i) {
        lemma_excl_at(s, i, "}o"@, 0);
        lemma_excl_at(s, i, "}o"@, 1);
    }
    if occurs_at(s, "o{"@, i) {
        lemma_excl_at(s, i, "o{"@, 0);
    }
    if occurs_at(s, "|o"@, i) {
        lemma_excl_at(s, i, "|o"@, 0);
        lemma_excl_at(s, i, "|o"@, 1);
    }
    if occurs_at(s, "o|"@, i) {
        lemma_excl_at(s, i, "o|"@, 0);
        lemma_excl_at(s, i, "o|"@, 1);
    }
    if occurs_at(s, "one or zero"@, i) {
        lemma_excl_at(s, i, "one or zero"@, 0);
        lemma_excl_at(s, i, "one or zero"@, 1);
    }
    if occurs_at(s, "zero or one"@, i) {
        lemma_excl_at(s, i, "zero or one"@, 0);
    }
    if occurs_at(s, "one or more"@, i) {
        lemma_excl_at(s, i, "one or more"@, 0);
        lemma_excl_at(s, i, "one or more"@, 1);
        lemma_excl_at(s, i, "one or more"@, 7);
    }
    if occurs_at(s, "one or many"@, i) {
        lemma_excl_at(s, i, "one or many"@, 0);
        lemma_excl_at(s, i, "one or many"@, 1);
        lemma_excl_at(s, i, "one or many"@, 7);
        lemma_excl_at(s, i, "one or many"@, 8);
    }
    if occurs_at(s, "many(1)"@, i) {
        lemma_excl_at(s, i, "many(1)"@, 0);
    }
    if occurs_at(s, "1+"@, i) {
        lemma_excl_at(s, i, "1+"@, 0);
    }
    if occurs_at(s, "zero or more"@, i) {
        lemma_excl_at(s, i, "zero or more"@, 0);
        lemma_excl_at(s, i, "zero or more"@, 8);
    }
    if occurs_at(s, "zero or many"@, i) {
        lemma_excl_at(s, i, "zero or many"@, 0);
        lemma_excl_at(s, i, "zero or many"@, 8);
        lemma_excl_at(s, i, "zero or many"@, 9);
    }
    if occurs_at(s, "many(0)"@, i) {
        lemma_excl_at(s, i, "many(0)"@, 0);
        lemma_excl_at(s, i, "many(0)"@, 5);
    }
    if occurs_at(s, "0+"@, i) {
        lemma_excl_at(s, i, "0+"@, 0);
    }
    if occurs_at(s, "only one"@, i) {
        lemma_excl_at(s, i, "only one"@, 0);
        lemma_excl_at(s, i, "only one"@, 1);
        lemma_excl_at(s, i, "only one"@, 2);
    }
    if occurs_at(s, "1"@, i) && !occurs_at(s, "1+"@, i) {
        lemma_excl_at(s, i, "1"@, 0);
    }
}

/// Each key word reads as its key: `PK` as a primary key, `FK` as a
/// foreign key, `UK` as a unique key, wherever it stands as a word; the
/// reading ends right after it.
pub proof fn lemma_key_words(s: Seq<char>, i: int)
    requires
        0 <= i,
    ensures
        keyword_at(s, i, "PK"@) ==> sp_key(s, i) == Some((i + 2, KeyKind::Pk)),
        keyword_at(s, i, "FK"@) ==> sp_key(s, i) == Some((i + 2, KeyKind::Fk)),
        keyword_at(s, i, "UK"@) ==> sp_key(s, i) == Some((i + 2, KeyKind::Uk)),
{
    reveal_strlit("PK");
    reveal_strlit("FK");
    reveal_strlit("UK");
    if keyword_at(s, i, "FK"@) {
        lemma_excl_at(s, i, "FK"@, 0);
    }
    if keyword_at(s, i, "UK"@) {
        lemma_excl_at(s, i, "UK"@, 0);
    }
}

} // verus!
