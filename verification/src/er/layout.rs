//! Grid layout of ER diagrams: two entity boxes per row, relationships routed
//! between box sides.
use super::database::{key_text, shown_name, Attribute, Cardinality, Entity, ErDatabase, KeyKind};
use crate::model::{copy_opt, DiagramError};
use crate::text::{concat, display_width, from_chars, text_width, to_chars};
use vstd::prelude::*;

verus! {

/// Upper bound, a 256th of the machine's address range, on entity counts,
/// attribute line counts, text widths and the total height of the boxes
/// that the layout accepts: within it every coordinate fits in a machine
/// word.
pub const LAYOUT_LIMIT: usize = usize::MAX / 256;

/// Columns of padding on each side of box content.
pub const BOX_PADDING: usize = 1;

/// Minimum gap between boxes.
pub const BOX_SPACING: usize = 4;

/// A point of the canvas.
#[derive(Clone, Copy, Debug, PartialEq, Eq, Structural)]
pub struct Point {
    pub x: usize,
    pub y: usize,
}

/// The side of an entity box where a relationship line ends.
#[derive(Clone, Copy, Debug, PartialEq, Eq, Structural)]
pub enum PortSide {
    Left,
    Right,
    Top,
    Bottom,
}

/// A placed entity box.
#[derive(Clone, Debug)]
pub struct PositionedEntity {
    pub name: String,
    pub x: usize,
    pub y: usize,
    pub width: usize,
    pub height: usize,
    pub attribute_lines: Vec<String>,
}

/// A placed relationship: an orthogonal route of points between two boxes.
#[derive(Clone, Debug)]
pub struct PositionedRelationship {
    pub from_entity: String,
    pub to_entity: String,
    pub from_cardinality: Cardinality,
    pub to_cardinality: Cardinality,
    pub label: Option<String>,
    pub from_x: usize,
    pub from_y: usize,
    pub to_x: usize,
    pub to_y: usize,
    pub horizontal: bool,
    pub route: Vec<Point>,
    pub from_side: PortSide,
    pub to_side: PortSide,
}

/// The layout of a diagram.
#[derive(Clone, Debug)]
pub struct ErLayoutResult {
    pub entities: Vec<PositionedEntity>,
    pub relationships: Vec<PositionedRelationship>,
    pub width: usize,
    pub height: usize,
}

/// ` PK FK ...`: the key markers of an attribute, each after a space.
pub open spec fn key_suffix(keys: Seq<KeyKind>) -> Seq<char>
    decreases keys.len(),
{
    if keys.len() == 0 {
        Seq::empty()
    } else {
        key_suffix(keys.drop_last()) + seq![' '] + key_text(keys.last())
    }
}

/// `TYPE NAME [KEYS]`, the first line of an attribute.
pub open spec fn attr_base(a: Attribute) -> Seq<char> {
    a.attr_type@ + seq![' '] + a.name@ + key_suffix(a.keys@)
}

/// The lines of an attribute: its base line with the comment in quotes
/// after it when that fits in `width` columns, otherwise the comment on a
/// second, indented line.
pub open spec fn attr_lines_spec(a: Attribute, width: int) -> Seq<Seq<char>> {
    match a.comment {
        Some(c) => if c@.len() > 0 {
            let with = attr_base(a) + seq![' ', '"'] + c@ + seq!['"'];
            if text_width(with) <= width {
                seq![with]
            } else {
                seq![attr_base(a), seq![' ', ' ', '"'] + c@ + seq!['"']]
            }
        } else {
            seq![attr_base(a)]
        },
        None => seq![attr_base(a)],
    }
}

/// Widest base line among the attributes.
pub open spec fn max_base_width(attrs: Seq<Attribute>) -> int
    decreases attrs.len(),
{
    if attrs.len() == 0 {
        0
    } else {
        let w = max_base_width(attrs.drop_last());
        let b = text_width(attr_base(attrs.last())) as int;
        if b > w {
            b
        } else {
            w
        }
    }
}

/// The natural content width of an entity: its display name or widest
/// base line.
pub open spec fn natural_width(e: Entity) -> int {
    let n = text_width(shown_name(e)) as int;
    let b = max_base_width(e.attributes@);
    if n > b {
        n
    } else {
        b
    }
}

/// All attribute lines of an entity, in order.
pub open spec fn lines_of(attrs: Seq<Attribute>, width: int) -> Seq<Seq<char>>
    decreases attrs.len(),
{
    if attrs.len() == 0 {
        Seq::empty()
    } else {
        lines_of(attrs.drop_last(), width) + attr_lines_spec(attrs.last(), width)
    }
}

/// Widest of some lines.
pub open spec fn max_line_width(lines: Seq<Seq<char>>) -> int
    decreases lines.len(),
{
    if lines.len() == 0 {
        0
    } else {
        let w = max_line_width(lines.drop_last());
        let b = text_width(lines.last()) as int;
        if b > w {
            b
        } else {
            w
        }
    }
}

/// The attribute lines shown in an entity box.
pub open spec fn entity_lines(e: Entity) -> Seq<Seq<char>> {
    lines_of(e.attributes@, natural_width(e))
}

/// The content width of an entity box.
pub open spec fn content_width(e: Entity) -> int {
    let n = natural_width(e);
    let l = max_line_width(entity_lines(e));
    if n > l {
        n
    } else {
        l
    }
}

/// Width of an entity box: content, padding and borders.
pub open spec fn box_width(e: Entity) -> int {
    content_width(e) + 2 * BOX_PADDING + 2
}

/// Height of an entity box: borders and name, plus a separator and a row per
/// attribute line when there are any.
pub open spec fn box_height(e: Entity) -> int {
    if entity_lines(e).len() == 0 {
        3
    } else {
        4 + entity_lines(e).len() as int
    }
}

/// Longest relationship label, in characters.
pub open spec fn max_label_len(rels: Seq<super::database::Relationship>) -> int
    decreases rels.len(),
{
    if rels.len() == 0 {
        0
    } else {
        let w = max_label_len(rels.drop_last());
        let b = match rels.last().label {
            Some(l) => l@.len() as int,
            None => 0,
        };
        if b > w {
            b
        } else {
            w
        }
    }
}

/// Horizontal gap between boxes of a row: the base gap, widened to fit the
/// longest label and its markers.
pub open spec fn spacing_spec(db: &ErDatabase, base: int) -> int {
    let m = max_label_len(db.relationship_seq()) + 8;
    if base > m {
        base
    } else {
        m
    }
}

/// Column of entity `i`: the first of a row at 0, the second after the
/// first and the gap.
pub open spec fn pos_x(es: Seq<Entity>, i: int, spacing: int) -> int {
    if i % 2 == 0 {
        0
    } else {
        box_width(es[i - 1]) + spacing
    }
}

/// Height of the row of entities `i` and `i + 1` (or `i` alone).
pub open spec fn row_height(es: Seq<Entity>, i: int) -> int {
    if i + 1 < es.len() && box_height(es[i + 1]) > box_height(es[i]) {
        box_height(es[i + 1])
    } else {
        box_height(es[i])
    }
}

/// Row of entity `i`: rows are stacked with `BOX_SPACING` between them.
pub open spec fn pos_y(es: Seq<Entity>, i: int) -> int
    decreases i,
{
    if i < 2 {
        0
    } else if i % 2 == 1 {
        pos_y(es, i - 1)
    } else {
        pos_y(es, i - 2) + row_height(es, i - 2) + BOX_SPACING
    }
}

/// Right edge plus gap, the widest over the first `n` entities.
pub open spec fn max_right(es: Seq<Entity>, n: int, spacing: int) -> int
    decreases n,
{
    if n <= 0 {
        0
    } else {
        let w = max_right(es, n - 1, spacing);
        let r = pos_x(es, n - 1, spacing) + box_width(es[n - 1]) + spacing;
        if r > w {
            r
        } else {
            w
        }
    }
}

/// The heights of the first `k` boxes, each with the row gap.
pub open spec fn height_sum(es: Seq<Entity>, k: int) -> int
    decreases k,
{
    if k <= 0 {
        0
    } else {
        height_sum(es, k - 1) + box_height(es[k - 1]) + BOX_SPACING
    }
}

/// Whether the diagram is small enough to lay out.
pub open spec fn er_fits(db: &ErDatabase) -> bool {
    &&& db.entity_seq().len() <= LAYOUT_LIMIT
    &&& height_sum(db.entity_seq(), db.entity_seq().len() as int) <= LAYOUT_LIMIT
    &&& forall|i: int|
        0 <= i < db.entity_seq().len() ==> content_width(#[trigger] db.entity_seq()[i])
            <= LAYOUT_LIMIT && entity_lines(db.entity_seq()[i]).len() <= LAYOUT_LIMIT
    &&& max_label_len(db.relationship_seq()) <= LAYOUT_LIMIT
}

/// The characters of an entity's placed name.
pub open spec fn placed_ok(p: PositionedEntity, es: Seq<Entity>, i: int, spacing: int) -> bool {
    &&& p.name@ == shown_name(es[i])
    &&& p.x == pos_x(es, i, spacing)
    &&& p.y == pos_y(es, i)
    &&& p.width == box_width(es[i])
    &&& p.height == box_height(es[i])
    &&& p.attribute_lines@.map_values(|l: String| l@) == entity_lines(es[i])
}

/// The first entity whose shown name is `name`.
pub open spec fn first_shown(es: Seq<Entity>, name: Seq<char>) -> Option<int>
    decreases es.len(),
{
    if es.len() == 0 {
        None
    } else {
        match first_shown(es.drop_last(), name) {
            Some(i) => Some(i),
            None => if shown_name(es.last()) == name {
                Some(es.len() - 1)
            } else {
                None
            },
        }
    }
}

pub proof fn lemma_first_shown(es: Seq<Entity>, name: Seq<char>)
    ensures
        first_shown(es, name) matches Some(i) ==> 0 <= i < es.len() && shown_name(es[i]) == name
            && forall|j: int| 0 <= j < i ==> shown_name(#[trigger] es[j]) != name,
        first_shown(es, name) is None ==> forall|j: int|
            0 <= j < es.len() ==> shown_name(#[trigger] es[j]) != name,
    decreases es.len(),
{
    if es.len() > 0 {
        lemma_first_shown(es.drop_last(), name);
        assert forall|j: int| 0 <= j < es.len() - 1 implies es[j] == es.drop_last()[j] by {}
    }
}

/// The end points of a relationship line as the layout reports them, and
/// whether the line is horizontal: boxes in one row are joined from the right
/// side of the left box to the left side of the right box, at half the left
/// box's height; otherwise from the bottom middle of the upper box straight
/// down to the top of the lower one.
pub open spec fn line_ends(a: PositionedEntity, b: PositionedEntity) -> (usize, usize, usize, usize, bool) {
    if a.y == b.y {
        let (l, r) = if a.x <= b.x {
            (a, b)
        } else {
            (b, a)
        };
        let y = (l.y + l.height / 2) as usize;
        ((l.x + l.width) as usize, y, r.x, y, true)
    } else {
        let (t, u) = if a.y <= b.y {
            (a, b)
        } else {
            (b, a)
        };
        let x = (t.x + t.width / 2) as usize;
        (x, (t.y + t.height) as usize, x, u.y, false)
    }
}

/// The drawn route of a relationship from box `a` to box `b`, with the sides
/// of the boxes it leaves and enters. In one row the route is the horizontal
/// line of `line_ends`, starting at `a`'s side. Between rows it leaves the
/// middle of `a`'s bottom (or top) edge, turns two rows before the other box
/// when the middles differ, and ends one row before `b`'s edge.
pub open spec fn route_spec(a: PositionedEntity, b: PositionedEntity) -> (Seq<Point>, PortSide, PortSide) {
    if a.y == b.y {
        let (x0, y, x1, _y1, _h) = line_ends(a, b);
        if a.x <= b.x {
            (seq![Point { x: x0, y }, Point { x: x1, y }], PortSide::Right, PortSide::Left)
        } else {
            (seq![Point { x: x1, y }, Point { x: x0, y }], PortSide::Left, PortSide::Right)
        }
    } else {
        let ax = (a.x + a.width / 2) as usize;
        let bx = (b.x + b.width / 2) as usize;
        let (p0, p1, s0, s1, mid) = if a.y < b.y {
            (
                Point { x: ax, y: (a.y + a.height) as usize },
                Point { x: bx, y: (b.y - 1) as usize },
                PortSide::Bottom,
                PortSide::Top,
                (b.y - 2) as usize,
            )
        } else {
            (
                Point { x: ax, y: (a.y - 1) as usize },
                Point { x: bx, y: (b.y + b.height) as usize },
                PortSide::Top,
                PortSide::Bottom,
                (a.y - 2) as usize,
            )
        };
        if ax == bx {
            (seq![p0, p1], s0, s1)
        } else {
            (seq![p0, Point { x: ax, y: mid }, Point { x: bx, y: mid }, p1], s0, s1)
        }
    }
}

/// The relationships that get placed, as `(relationship, from, to)` indices:
/// those whose two ends are shown names of entities, in order.
pub open spec fn placed_relationships(es: Seq<Entity>, rels: Seq<super::database::Relationship>) -> Seq<(int, int, int)>
    decreases rels.len(),
{
    if rels.len() == 0 {
        Seq::empty()
    } else {
        let prev = placed_relationships(es, rels.drop_last());
        let r = rels.last();
        match (first_shown(es, r.from@), first_shown(es, r.to@)) {
            (Some(f), Some(t)) => prev.push((rels.len() - 1, f, t)),
            _ => prev,
        }
    }
}

/// The placed relationship `p` is relationship `r` joining the placed boxes
/// `a` and `b`.
pub open spec fn rel_placed_ok(
    p: PositionedRelationship,
    r: super::database::Relationship,
    a: PositionedEntity,
    b: PositionedEntity,
) -> bool {
    &&& p.from_entity@ == r.from@
    &&& p.to_entity@ == r.to@
    &&& p.from_cardinality == r.from_cardinality
    &&& p.to_cardinality == r.to_cardinality
    &&& (p.label is Some <==> r.label is Some)
    &&& (p.label is Some ==> p.label->0@ == r.label->0@)
    &&& (p.from_x, p.from_y, p.to_x, p.to_y, p.horizontal) == line_ends(a, b)
    &&& (p.route@, p.from_side, p.to_side) == route_spec(a, b)
}

/// Bound on every coordinate of a layout.
pub const COORD_LIMIT: usize = 16 * LAYOUT_LIMIT;

/// Two placed boxes that a route can join: coordinates in range, and boxes in
/// different rows at least four rows apart.
pub open spec fn joinable(a: PositionedEntity, b: PositionedEntity) -> bool {
    &&& a.x + a.width + 2 <= COORD_LIMIT
    &&& b.x + b.width + 2 <= COORD_LIMIT
    &&& a.y + a.height <= COORD_LIMIT
    &&& b.y + b.height <= COORD_LIMIT
    &&& a.y < b.y ==> a.y + a.height + 4 <= b.y
    &&& b.y < a.y ==> b.y + b.height + 4 <= a.y
}

/// Row start of entity `i`.
pub open spec fn row_start(i: int) -> int {
    i - i % 2
}

/// The whole layout of `db` with gap `spacing` between the boxes of a row.
pub open spec fn layout_ok(db: &ErDatabase, res: ErLayoutResult, spacing: int) -> bool {
    let es = db.entity_seq();
    let n = es.len() as int;
    let placed = placed_relationships(es, db.relationship_seq());
    &&& res.entities.len() == n
    &&& forall|i: int| 0 <= i < n ==> placed_ok(#[trigger] res.entities@[i], es, i, spacing)
    &&& res.width == max_right(es, n, spacing)
    &&& res.height == (if n == 0 {
        0
    } else {
        pos_y(es, n - 1) + row_height(es, row_start(n - 1))
    })
    &&& res.relationships.len() == placed.len()
    &&& forall|k: int|
        0 <= k < placed.len() ==> rel_placed_ok(
            #[trigger] res.relationships@[k],
            db.relationship_seq()[placed[k].0],
            res.entities@[placed[k].1],
            res.entities@[placed[k].2],
        )
}

pub proof fn lemma_box_height(e: Entity)
    ensures
        3 <= box_height(e),
        box_height(e) <= entity_lines(e).len() + 4,
{
}

pub proof fn lemma_pos_y_mono(es: Seq<Entity>, a: int, b: int)
    requires
        0 <= a <= b,
    ensures
        pos_y(es, a) <= pos_y(es, b),
    decreases b,
{
    if a < b {
        lemma_pos_y_mono(es, a, b - 1);
        if b % 2 == 0 && b >= 2 {
            lemma_box_height(es[b - 2]);
            assert(pos_y(es, b - 1) == pos_y(es, b - 2));
        }
    }
}

/// Boxes in different rows are at least the upper box's height plus the row
/// gap apart.
pub proof fn lemma_rows_apart(es: Seq<Entity>, i: int, j: int)
    requires
        0 <= i < es.len(),
        0 <= j < es.len(),
        pos_y(es, i) < pos_y(es, j),
    ensures
        pos_y(es, i) + box_height(es[i]) + 4 <= pos_y(es, j),
{
    let r = row_start(i);
    assert(pos_y(es, i) == pos_y(es, r));
    assert(pos_y(es, r + 1) == pos_y(es, r));
    if j <= r + 1 {
        lemma_pos_y_mono(es, j, r + 1);
        assert(false);
    }
    assert(pos_y(es, r + 2) == pos_y(es, r) + row_height(es, r) + BOX_SPACING);
    lemma_pos_y_mono(es, r + 2, j);
}

/// Boxes of a layout never overlap: a box and the next one in its row sit
/// side by side, the gap apart; a box in a later row starts at least the row
/// gap below the bottom of a box in an earlier row.
pub proof fn lemma_boxes_apart(db: &ErDatabase, res: ErLayoutResult, spacing: int, i: int, j: int)
    requires
        layout_ok(db, res, spacing),
        0 <= i < j < res.entities.len(),
    ensures
        ({
            let a = res.entities@[i];
            let b = res.entities@[j];
            ||| (j == i + 1 && i % 2 == 0 && a.y == b.y && a.x + a.width + spacing == b.x)
            ||| a.y + a.height + 4 <= b.y
        }),
{
    let es = db.entity_seq();
    assert(placed_ok(res.entities@[i], es, i, spacing));
    assert(placed_ok(res.entities@[j], es, j, spacing));
    if j == i + 1 && i % 2 == 0 {
        assert(pos_y(es, j) == pos_y(es, i));
    } else {
        let ri = row_start(i);
        assert(pos_y(es, i) == pos_y(es, ri));
        assert(ri + 2 <= j);
        assert(pos_y(es, ri + 2) == pos_y(es, ri) + row_height(es, ri) + BOX_SPACING);
        lemma_pos_y_mono(es, ri + 2, j);
        lemma_box_height(es[ri]);
        lemma_rows_apart(es, i, j);
    }
}

proof fn lemma_max_right(es: Seq<Entity>, n: int, spacing: int, i: int)
    requires
        0 <= i < n,
    ensures
        pos_x(es, i, spacing) + box_width(es[i]) + spacing <= max_right(es, n, spacing),
    decreases n,
{
    if i < n - 1 {
        lemma_max_right(es, n - 1, spacing, i);
    }
}

proof fn lemma_bottom(es: Seq<Entity>, i: int)
    requires
        0 <= i < es.len(),
    ensures
        pos_y(es, i) + box_height(es[i]) <= pos_y(es, es.len() - 1) + row_height(es, row_start(es.len() - 1)),
{
    let n = es.len() as int;
    let ri = row_start(i);
    let rl = row_start(n - 1);
    assert(pos_y(es, i) == pos_y(es, ri));
    assert(pos_y(es, n - 1) == pos_y(es, rl));
    assert(box_height(es[i]) <= row_height(es, ri));
    if ri < rl {
        assert(pos_y(es, ri + 2) == pos_y(es, ri) + row_height(es, ri) + BOX_SPACING);
        lemma_pos_y_mono(es, ri + 2, rl);
    }
}

/// The grid of an ER layout: one box per entity, in order, showing the
/// entity's display name; two boxes to a row, the first of each row at the
/// left edge; boxes share a row exactly when they are in the same pair;
/// each box lies within the layout, and is three rows high, or four plus
/// one per attribute line.
pub proof fn lemma_er_grid(db: &ErDatabase, res: ErLayoutResult, spacing: int, i: int, j: int)
    requires
        layout_ok(db, res, spacing),
        spacing >= 0,
        0 <= i < res.entities.len(),
        0 <= j < res.entities.len(),
    ensures
        res.entities.len() == db.entity_seq().len(),
        res.entities@[i].name@ == shown_name(db.entity_seq()[i]),
        (res.entities@[i].y == res.entities@[j].y) <==> (i / 2 == j / 2),
        (res.entities@[i].x == 0) <==> (i % 2 == 0),
        res.entities@[i].x + res.entities@[i].width <= res.width,
        res.entities@[i].y + res.entities@[i].height <= res.height,
        res.entities@[i].height == (if res.entities@[i].attribute_lines.len() == 0 {
            3
        } else {
            4 + res.entities@[i].attribute_lines.len()
        }),
{
    let es = db.entity_seq();
    let a = res.entities@[i];
    let b = res.entities@[j];
    assert(placed_ok(a, es, i, spacing));
    assert(placed_ok(b, es, j, spacing));
    assert(a.attribute_lines@.map_values(|l: String| l@).len() == a.attribute_lines.len());
    if i % 2 == 1 {
        lemma_box_height(es[i - 1]);
        assert(box_width(es[i - 1]) >= 4);
    }
    lemma_max_right(es, es.len() as int, spacing, i);
    lemma_bottom(es, i);
    if i / 2 == j / 2 {
        if i != j {
            if i < j {
                assert(j == i + 1 && i % 2 == 0);
            } else {
                assert(i == j + 1 && j % 2 == 0);
            }
        }
    } else if i < j {
        lemma_boxes_apart(db, res, spacing, i, j);
        lemma_box_height(es[i]);
    } else {
        lemma_boxes_apart(db, res, spacing, j, i);
        lemma_box_height(es[j]);
    }
}

/// Every entity fits within the limits, up to `n`.
pub open spec fn fits_upto(es: Seq<Entity>, n: int) -> bool {
    forall|i: int|
        0 <= i < n ==> content_width(#[trigger] es[i]) <= LAYOUT_LIMIT && entity_lines(es[i]).len()
            <= LAYOUT_LIMIT
}

/// Height totals grow with the number of boxes counted.
pub proof fn lemma_height_sum_mono(es: Seq<Entity>, i: int, j: int)
    requires
        0 <= i <= j,
    ensures
        height_sum(es, i) <= height_sum(es, j),
    decreases j,
{
    if i < j {
        lemma_height_sum_mono(es, i, j - 1);
        lemma_box_height(es[j - 1]);
    }
}

/// A box starts no lower than the heights of the boxes before it.
pub proof fn lemma_pos_y_bound(es: Seq<Entity>, i: int)
    requires
        0 <= i <= es.len(),
    ensures
        0 <= pos_y(es, i) <= height_sum(es, i),
    decreases i,
{
    if i >= 2 {
        lemma_pos_y_bound(es, i - 1);
        lemma_pos_y_bound(es, i - 2);
        let a = es[i - 2];
        let b = es[i - 1];
        lemma_box_height(a);
        lemma_box_height(b);
        assert(height_sum(es, i - 1) == height_sum(es, i - 2) + box_height(a) + BOX_SPACING);
        assert(height_sum(es, i) == height_sum(es, i - 1) + box_height(b) + BOX_SPACING);
        assert(row_height(es, i - 2) <= box_height(a) + box_height(b));
        if i % 2 == 1 {
            assert(pos_y(es, i) == pos_y(es, i - 1));
            assert(pos_y(es, i) <= height_sum(es, i));
        } else {
            assert(pos_y(es, i) == pos_y(es, i - 2) + row_height(es, i - 2) + BOX_SPACING);
            assert(pos_y(es, i) <= height_sum(es, i));
        }
    } else if i == 1 {
        lemma_box_height(es[0]);
        assert(height_sum(es, 1) == height_sum(es, 0) + box_height(es[0]) + BOX_SPACING);
        assert(pos_y(es, 1) == 0);
    } else {
        assert(pos_y(es, 0) == 0);
        assert(height_sum(es, 0) == 0);
    }
}

pub proof fn lemma_first_shown_is(es: Seq<Entity>, name: Seq<char>, i: int)
    requires
        0 <= i <= es.len(),
        forall|j: int| 0 <= j < i ==> shown_name(#[trigger] es[j]) != name,
        i < es.len() ==> shown_name(es[i]) == name,
    ensures
        first_shown(es, name) == (if i < es.len() {
            Some(i)
        } else {
            None::<int>
        }),
{
    lemma_first_shown(es, name);
}

/// Placed boxes of a diagram that fits can be joined by a route.
pub proof fn lemma_joinable(es: Seq<Entity>, ps: Seq<PositionedEntity>, spacing: int, f: int, t: int)
    requires
        es.len() <= LAYOUT_LIMIT,
        fits_upto(es, es.len() as int),
        height_sum(es, es.len() as int) <= LAYOUT_LIMIT,
        spacing <= LAYOUT_LIMIT + 8,
        ps.len() == es.len(),
        0 <= f < es.len(),
        0 <= t < es.len(),
        forall|i: int| 0 <= i < es.len() ==> placed_ok(#[trigger] ps[i], es, i, spacing),
    ensures
        joinable(ps[f], ps[t]),
{
    assert(placed_ok(ps[f], es, f, spacing));
    assert(placed_ok(ps[t], es, t, spacing));
    assert forall|i: int| 0 <= i < es.len() implies ps[i].x + ps[i].width + 2 <= COORD_LIMIT
        && ps[i].y + ps[i].height <= COORD_LIMIT by {
        assert(placed_ok(ps[i], es, i, spacing));
        assert(content_width(es[i]) <= LAYOUT_LIMIT);
        lemma_box_height(es[i]);
        if i % 2 == 1 {
            assert(content_width(es[i - 1]) <= LAYOUT_LIMIT);
        }
        lemma_pos_y_bound(es, i);
        lemma_height_sum_mono(es, i + 1, es.len() as int);
    }
    if ps[f].y < ps[t].y {
        lemma_rows_apart(es, f, t);
    }
    if ps[t].y < ps[f].y {
        lemma_rows_apart(es, t, f);
    }
}

/// Bounds on a placed box of a diagram that fits.
pub proof fn lemma_placed_bounds(es: Seq<Entity>, ps: Seq<PositionedEntity>, spacing: int, i: int)
    requires
        es.len() <= LAYOUT_LIMIT,
        fits_upto(es, es.len() as int),
        height_sum(es, es.len() as int) <= LAYOUT_LIMIT,
        0 <= spacing <= LAYOUT_LIMIT + 8,
        ps.len() == es.len(),
        0 <= i < es.len(),
        placed_ok(ps[i], es, i, spacing),
    ensures
        ps[i].x + ps[i].width + 2 <= COORD_LIMIT,
        ps[i].y + ps[i].height <= COORD_LIMIT,
        4 <= ps[i].width,
        ps[i].attribute_lines.len() + 3 <= ps[i].height,
{
    assert(content_width(es[i]) <= LAYOUT_LIMIT);
    assert(entity_lines(es[i]).len() <= LAYOUT_LIMIT);
    assert(ps[i].attribute_lines@.map_values(|l: String| l@).len() == ps[i].attribute_lines.len());
    lemma_box_height(es[i]);
    if i % 2 == 1 {
        assert(content_width(es[i - 1]) <= LAYOUT_LIMIT);
    }
    lemma_pos_y_bound(es, i);
    lemma_height_sum_mono(es, i + 1, es.len() as int);
}

/// The widest row of a diagram that fits stays in bounds.
pub proof fn lemma_max_right_bound(es: Seq<Entity>, n: int, spacing: int)
    requires
        0 <= n <= es.len(),
        fits_upto(es, n),
        0 <= spacing <= LAYOUT_LIMIT + 8,
    ensures
        0 <= max_right(es, n, spacing) <= 2 * LAYOUT_LIMIT + 8 + 2 * spacing,
    decreases n,
{
    if n > 0 {
        lemma_max_right_bound(es, n - 1, spacing);
        assert(content_width(es[n - 1]) <= LAYOUT_LIMIT);
        if (n - 1) % 2 == 1 {
            assert(content_width(es[n - 2]) <= LAYOUT_LIMIT);
        }
    }
}

/// Every label is at most as long as the longest one.
pub proof fn lemma_label_bound(rels: Seq<super::database::Relationship>, k: int)
    requires
        0 <= k < rels.len(),
    ensures
        rels[k].label matches Some(t) ==> t@.len() <= max_label_len(rels),
    decreases rels.len(),
{
    if k < rels.len() - 1 {
        lemma_label_bound(rels.drop_last(), k);
        assert(rels.drop_last()[k] == rels[k]);
    }
}

/// The entries of `placed_relationships` name a relationship and the boxes
/// its ends are shown as.
pub proof fn lemma_placed_valid(es: Seq<Entity>, rels: Seq<super::database::Relationship>, k: int)
    requires
        0 <= k < placed_relationships(es, rels).len(),
    ensures
        0 <= placed_relationships(es, rels)[k].0 < rels.len(),
        0 <= placed_relationships(es, rels)[k].1 < es.len(),
        0 <= placed_relationships(es, rels)[k].2 < es.len(),
    decreases rels.len(),
{
    let prev = placed_relationships(es, rels.drop_last());
    let r = rels.last();
    lemma_first_shown(es, r.from@);
    lemma_first_shown(es, r.to@);
    if k < prev.len() {
        lemma_placed_valid(es, rels.drop_last(), k);
    }
}

/// Grid layout for ER diagrams: two boxes per row.
pub struct ErLayoutAlgorithm {
    box_padding: usize,
    box_spacing: usize,
    max_entities_per_row: usize,
}

impl ErLayoutAlgorithm {
    #[verifier::type_invariant]
    spec fn standard(self) -> bool {
        &&& self.box_padding == BOX_PADDING
        &&& self.box_spacing == BOX_SPACING
        &&& self.max_entities_per_row == 2
    }
}

fn push_all(out: &mut Vec<char>, t: &Vec<char>)
    ensures
        final(out)@ == old(out)@ + t@,
{
    let mut i: usize = 0;
    while i < t.len()
        invariant
            i <= t.len(),
            out@ == old(out)@ + t@.take(i as int),
        decreases t.len() - i,
    {
        out.push(t[i]);
        i += 1;
        assert(t@.take(i as int) == t@.take(i - 1).push(t@[i - 1]));
    }
    assert(t@.take(t.len() as int) == t@);
}

/// `TYPE NAME [PK FK UK]`.
pub fn base_attr_line(attr: &Attribute) -> (r: Vec<char>)
    ensures
        r@ == attr_base(*attr),
{
    let mut s = to_chars(attr.attr_type.as_str());
    s.push(' ');
    push_all(&mut s, &to_chars(attr.name.as_str()));
    let mut k: usize = 0;
    while k < attr.keys.len()
        invariant
            k <= attr.keys.len(),
            s@ == attr.attr_type@ + seq![' '] + attr.name@ + key_suffix(attr.keys@.take(k as int)),
        decreases attr.keys.len() - k,
    {
        assert(attr.keys@.take(k + 1).drop_last() == attr.keys@.take(k as int));
        assert(attr.keys@.take(k + 1).last() == attr.keys@[k as int]);
        s.push(' ');
        push_all(&mut s, &to_chars(attr.keys[k].as_str()));
        k += 1;
    }
    assert(attr.keys@.take(attr.keys.len() as int) == attr.keys@);
    s
}

fn quoted_comment(prefix: &Vec<char>, c: &Vec<char>) -> (r: Vec<char>)
    ensures
        r@ == prefix@ + seq!['"'] + c@ + seq!['"'],
{
    let mut s = crate::text::copy_chars(prefix);
    s.push('"');
    push_all(&mut s, c);
    s.push('"');
    s
}

/// The display lines of an attribute for content width `width`.
fn attr_lines(attr: &Attribute, width: usize) -> (r: Vec<Vec<char>>)
    ensures
        r@.map_values(|l: Vec<char>| l@) == attr_lines_spec(*attr, width as int),
{
    let base = base_attr_line(attr);
    let mut out: Vec<Vec<char>> = Vec::new();
    match &attr.comment {
        Some(c) => {
            let cv = to_chars(c.as_str());
            if cv.len() > 0 {
                let mut head = crate::text::copy_chars(&base);
                head.push(' ');
                let with = quoted_comment(&head, &cv);
                assert(with@ =~= attr_base(*attr) + seq![' ', '"'] + c@ + seq!['"']);
                if display_width(&with) <= width {
                    out.push(with);
                    assert(out@.map_values(|l: Vec<char>| l@) =~= attr_lines_spec(*attr, width as int));
                } else {
                    let mut indent: Vec<char> = Vec::new();
                    indent.push(' ');
                    indent.push(' ');
                    let second = quoted_comment(&indent, &cv);
                    assert(second@ =~= seq![' ', ' ', '"'] + c@ + seq!['"']);
                    out.push(base);
                    out.push(second);
                    assert(out@.map_values(|l: Vec<char>| l@) =~= attr_lines_spec(*attr, width as int));
                }
                return out;
            }
        },
        None => {},
    }
    out.push(base);
    assert(out@.map_values(|l: Vec<char>| l@) =~= attr_lines_spec(*attr, width as int));
    out
}

/// The content width and the display lines of an entity box.
fn entity_content(entity: &Entity) -> (r: (usize, Vec<Vec<char>>))
    ensures
        r.0 == content_width(*entity),
        r.1@.map_values(|l: Vec<char>| l@) == entity_lines(*entity),
{
    let name = to_chars(entity.display_name());
    let name_w = display_width(&name);
    let attrs = &entity.attributes;
    let mut base_max: usize = 0;
    let mut i: usize = 0;
    while i < attrs.len()
        invariant
            i <= attrs.len(),
            base_max == max_base_width(attrs@.take(i as int)),
        decreases attrs.len() - i,
    {
        assert(attrs@.take(i + 1).drop_last() == attrs@.take(i as int));
        assert(attrs@.take(i + 1).last() == attrs@[i as int]);
        let w = display_width(&base_attr_line(&attrs[i]));
        if w > base_max {
            base_max = w;
        }
        i += 1;
    }
    assert(attrs@.take(attrs.len() as int) == attrs@);
    let natural = if name_w > base_max {
        name_w
    } else {
        base_max
    };
    let mut lines: Vec<Vec<char>> = Vec::new();
    let mut j: usize = 0;
    while j < attrs.len()
        invariant
            j <= attrs.len(),
            natural == natural_width(*entity),
            lines@.map_values(|l: Vec<char>| l@) == lines_of(attrs@.take(j as int), natural as int),
        decreases attrs.len() - j,
    {
        assert(attrs@.take(j + 1).drop_last() == attrs@.take(j as int));
        assert(attrs@.take(j + 1).last() == attrs@[j as int]);
        let more = attr_lines(&attrs[j], natural);
        let ghost before = lines@.map_values(|l: Vec<char>| l@);
        let mut k: usize = 0;
        while k < more.len()
            invariant
                k <= more.len(),
                lines@.map_values(|l: Vec<char>| l@) == before + more@.map_values(|l: Vec<char>| l@).take(k as int),
            decreases more.len() - k,
        {
            let ghost mid = lines@;
            let x = crate::text::copy_chars(&more[k]);
            lines.push(x);
            assert(lines@.map_values(|l: Vec<char>| l@) =~= mid.map_values(|l: Vec<char>| l@).push(more@[k as int]@));
            assert(more@.map_values(|l: Vec<char>| l@).take(k + 1) =~= more@.map_values(|l: Vec<char>| l@).take(k as int).push(more@[k as int]@));
            k += 1;
        }
        assert(more@.map_values(|l: Vec<char>| l@).take(more.len() as int) == more@.map_values(|l: Vec<char>| l@));
        j += 1;
    }
    assert(attrs@.take(attrs.len() as int) == attrs@);
    let ghost ls = lines@.map_values(|l: Vec<char>| l@);
    let mut lines_max: usize = 0;
    let mut m: usize = 0;
    while m < lines.len()
        invariant
            m <= lines.len(),
            ls == lines@.map_values(|l: Vec<char>| l@),
            lines_max == max_line_width(ls.take(m as int)),
        decreases lines.len() - m,
    {
        assert(ls.take(m + 1).drop_last() == ls.take(m as int));
        assert(ls.take(m + 1).last() == lines@[m as int]@);
        let w = display_width(&lines[m]);
        if w > lines_max {
            lines_max = w;
        }
        m += 1;
    }
    assert(ls.take(lines.len() as int) == ls);
    let width = if natural > lines_max {
        natural
    } else {
        lines_max
    };
    (width, lines)
}


/// The longest relationship label, in characters.
fn max_label_chars(rels: &[super::database::Relationship]) -> (r: usize)
    ensures
        r == max_label_len(rels@),
{
    let mut best: usize = 0;
    let mut k: usize = 0;
    while k < rels.len()
        invariant
            k <= rels.len(),
            best == max_label_len(rels@.take(k as int)),
        decreases rels.len() - k,
    {
        assert(rels@.take(k + 1).drop_last() == rels@.take(k as int));
        assert(rels@.take(k + 1).last() == rels@[k as int]);
        let n: usize = match &rels[k].label {
            Some(l) => to_chars(l.as_str()).len(),
            None => 0,
        };
        if n > best {
            best = n;
        }
        k += 1;
    }
    assert(rels@.take(rels.len() as int) == rels@);
    best
}

/// Owned strings of character lines.
fn line_strings(lines: &Vec<Vec<char>>) -> (r: Vec<String>)
    ensures
        r@.map_values(|l: String| l@) == lines@.map_values(|l: Vec<char>| l@),
{
    let mut out: Vec<String> = Vec::new();
    let mut k: usize = 0;
    while k < lines.len()
        invariant
            k <= lines.len(),
            out@.map_values(|l: String| l@) == lines@.map_values(|l: Vec<char>| l@).take(k as int),
        decreases lines.len() - k,
    {
        let ghost before = out@;
        out.push(from_chars(&lines[k]));
        assert(out@.map_values(|l: String| l@) =~= before.map_values(|l: String| l@).push(lines@[k as int]@));
        assert(lines@.map_values(|l: Vec<char>| l@).take(k + 1) =~= lines@.map_values(|l: Vec<char>| l@).take(k as int).push(lines@[k as int]@));
        k += 1;
    }
    assert(lines@.map_values(|l: Vec<char>| l@).take(lines.len() as int) =~= lines@.map_values(|l: Vec<char>| l@));
    out
}

/// The index of the first placed box shown as `name`.
fn find_shown(ps: &Vec<PositionedEntity>, name: &String, Ghost(es): Ghost<Seq<Entity>>) -> (r: Option<usize>)
    requires
        ps.len() == es.len(),
        forall|i: int| 0 <= i < es.len() ==> (#[trigger] ps@[i]).name@ == shown_name(es[i]),
    ensures
        r matches Some(i) ==> first_shown(es, name@) == Some(i as int),
        r is None ==> first_shown(es, name@) is None,
{
    let target = to_chars(name.as_str());
    let mut i: usize = 0;
    while i < ps.len()
        invariant
            i <= ps.len(),
            ps.len() == es.len(),
            target@ == name@,
            forall|j: int| 0 <= j < es.len() ==> (#[trigger] ps@[j]).name@ == shown_name(es[j]),
            forall|j: int| 0 <= j < i ==> shown_name(#[trigger] es[j]) != name@,
        decreases ps.len() - i,
    {
        let here = to_chars(ps[i].name.as_str());
        if crate::text::same_chars(&here, &target) {
            proof {
                lemma_first_shown_is(es, name@, i as int);
            }
            return Some(i);
        }
        assert(ps@[i as int].name@ == shown_name(es[i as int]));
        i += 1;
    }
    proof {
        lemma_first_shown_is(es, name@, es.len() as int);
    }
    None
}

/// The end points of the line joining two boxes, and whether it is horizontal.
fn line_ends_of(a: &PositionedEntity, b: &PositionedEntity) -> (r: (usize, usize, usize, usize, bool))
    requires
        joinable(*a, *b),
    ensures
        r == line_ends(*a, *b),
{
    if a.y == b.y {
        let (l, rt) = if a.x <= b.x {
            (a, b)
        } else {
            (b, a)
        };
        let y = l.y + l.height / 2;
        (l.x + l.width, y, rt.x, y, true)
    } else {
        let (t, u) = if a.y <= b.y {
            (a, b)
        } else {
            (b, a)
        };
        let x = t.x + t.width / 2;
        (x, t.y + t.height, x, u.y, false)
    }
}

/// The drawn route from box `a` to box `b`.
fn route_of(a: &PositionedEntity, b: &PositionedEntity) -> (r: (Vec<Point>, PortSide, PortSide))
    requires
        joinable(*a, *b),
    ensures
        (r.0@, r.1, r.2) == route_spec(*a, *b),
{
    let mut pts: Vec<Point> = Vec::new();
    if a.y == b.y {
        let (x0, y, x1, _y1, _h) = line_ends_of(a, b);
        if a.x <= b.x {
            pts.push(Point { x: x0, y });
            pts.push(Point { x: x1, y });
            assert(pts@ =~= route_spec(*a, *b).0);
            (pts, PortSide::Right, PortSide::Left)
        } else {
            pts.push(Point { x: x1, y });
            pts.push(Point { x: x0, y });
            assert(pts@ =~= route_spec(*a, *b).0);
            (pts, PortSide::Left, PortSide::Right)
        }
    } else {
        let ax = a.x + a.width / 2;
        let bx = b.x + b.width / 2;
        let (p0, p1, s0, s1, mid) = if a.y < b.y {
            (
                Point { x: ax, y: a.y + a.height },
                Point { x: bx, y: b.y - 1 },
                PortSide::Bottom,
                PortSide::Top,
                b.y - 2,
            )
        } else {
            (
                Point { x: ax, y: a.y - 1 },
                Point { x: bx, y: b.y + b.height },
                PortSide::Top,
                PortSide::Bottom,
                a.y - 2,
            )
        };
        pts.push(p0);
        if ax != bx {
            pts.push(Point { x: ax, y: mid });
            pts.push(Point { x: bx, y: mid });
        }
        pts.push(p1);
        assert(pts@ =~= route_spec(*a, *b).0);
        (pts, s0, s1)
    }
}

/// The message of the error for a diagram beyond the layout limits.
pub open spec fn too_large_message() -> Seq<char> {
    seq![
        'd', 'i', 'a', 'g', 'r', 'a', 'm', ' ', 't', 'o', 'o', ' ', 'l', 'a', 'r', 'g', 'e', ' ', 't', 'o', ' ',
        'l', 'a', 'y', ' ', 'o', 'u', 't',
    ]
}

fn too_large() -> (r: DiagramError)
    ensures
        r.message@ == too_large_message(),
{
    proof {
        reveal_strlit("diagram too large to lay out");
    }
    let m = from_chars(&to_chars("diagram too large to lay out"));
    assert(m@ =~= too_large_message());
    DiagramError::new(m)
}

impl ErLayoutAlgorithm {
    /// The standard layout: padding 1, gap 4, two boxes per row.
    pub fn new() -> (r: Self) {
        ErLayoutAlgorithm {
            box_padding: BOX_PADDING,
            box_spacing: BOX_SPACING,
            max_entities_per_row: 2,
        }
    }

    /// Lays the diagram out: boxes two to a row, rows stacked with a gap of
    /// four, the gap within a row widened to fit the longest label, and a
    /// line placed for each relationship whose ends name shown entities.
    /// Fails only on diagrams beyond the layout limits.
    #[verifier::rlimit(40)]
    pub fn layout(&self, database: &ErDatabase) -> (r: Result<ErLayoutResult, DiagramError>)
        ensures
            r is Err <==> !er_fits(database),
            r matches Ok(res) ==> layout_ok(database, res, spacing_spec(database, BOX_SPACING as int)),
    {
        proof {
            use_type_invariant(self);
        }
        let entities = database.entities();
        let rels = database.relationships();
        let ghost es = database.entity_seq();
        if entities.len() > LAYOUT_LIMIT {
            return Err(too_large());
        }
        let max_label = max_label_chars(rels);
        if max_label > LAYOUT_LIMIT {
            return Err(too_large());
        }
        let spacing = if self.box_spacing > max_label + 8 {
            self.box_spacing
        } else {
            max_label + 8
        };
        let ghost sp = spacing as int;
        assert(sp == spacing_spec(database, BOX_SPACING as int));
        let mut positioned: Vec<PositionedEntity> = Vec::new();
        let mut x: usize = 0;
        let mut y: usize = 0;
        let mut row_h: usize = 0;
        let mut max_w: usize = 0;
        let mut hs: usize = 0;
        let mut i: usize = 0;
        while i < entities.len()
            invariant
                entities@ == es,
                es == database.entity_seq(),
                es.len() <= LAYOUT_LIMIT,
                self.box_padding == BOX_PADDING,
                self.box_spacing == BOX_SPACING,
                self.max_entities_per_row == 2,
                spacing == sp,
                sp <= LAYOUT_LIMIT + 8,
                i <= es.len(),
                positioned.len() == i,
                forall|j: int| 0 <= j < i ==> placed_ok(#[trigger] positioned@[j], es, j, sp),
                fits_upto(es, i as int),
                i == 0 ==> x == 0 && y == 0 && row_h == 0,
                i > 0 && i % 2 == 1 ==> x == box_width(es[i - 1]) + sp && y == pos_y(es, i - 1)
                    && row_h == box_height(es[i - 1]),
                i > 0 && i % 2 == 0 ==> y == pos_y(es, i - 2) && row_h == row_height(es, i - 2),
                max_w == max_right(es, i as int, sp),
                max_w <= 2 * LAYOUT_LIMIT + 8 + 2 * sp,
                hs == height_sum(es, i as int),
                hs <= LAYOUT_LIMIT,
                y <= hs,
                row_h <= LAYOUT_LIMIT + 4,
                x <= 2 * LAYOUT_LIMIT + 8 + 2 * sp,
            decreases es.len() - i,
        {
            let e = &entities[i];
            let (cw, lines) = entity_content(e);
            if cw > LAYOUT_LIMIT || lines.len() > LAYOUT_LIMIT {
                assert(!er_fits(database)) by {
                    assert(content_width(es[i as int]) == cw);
                }
                return Err(too_large());
            }
            let width = cw + 2 * self.box_padding + 2;
            let height = if lines.len() == 0 {
                3
            } else {
                4 + lines.len()
            };
            proof {
                lemma_box_height(es[i as int]);
            }
            if hs + height + self.box_spacing > LAYOUT_LIMIT {
                proof {
                    lemma_height_sum_mono(es, i + 1, es.len() as int);
                }
                return Err(too_large());
            }
            proof {
                lemma_pos_y_bound(es, i as int);
                if i >= 2 {
                    lemma_pos_y_bound(es, i - 2);
                    lemma_height_sum_mono(es, i - 2, i as int);
                }
                if i >= 1 {
                    lemma_pos_y_bound(es, i - 1);
                    lemma_height_sum_mono(es, i - 1, i as int);
                }
            }
            if i % self.max_entities_per_row == 0 && i > 0 {
                y = y + row_h + self.box_spacing;
                x = 0;
                row_h = 0;
            }
            let attribute_lines = line_strings(&lines);
            let name = crate::model::own(e.display_name());
            let p = PositionedEntity { name, x, y, width, height, attribute_lines };
            assert(placed_ok(p, es, i as int, sp));
            positioned.push(p);
            x = x + width + spacing;
            if x > max_w {
                max_w = x;
            }
            if height > row_h {
                row_h = height;
            }
            hs = hs + height + self.box_spacing;
            i += 1;
        }
        let n = entities.len();
        let height = if n == 0 {
            0
        } else {
            y + row_h
        };
        let ghost ps = positioned@;
        let mut placed_rels: Vec<PositionedRelationship> = Vec::new();
        let mut k: usize = 0;
        while k < rels.len()
            invariant
                rels@ == database.relationship_seq(),
                es == database.entity_seq(),
                es.len() <= LAYOUT_LIMIT,
                fits_upto(es, es.len() as int),
                height_sum(es, es.len() as int) <= LAYOUT_LIMIT,
                sp <= LAYOUT_LIMIT + 8,
                positioned@ == ps,
                ps.len() == es.len(),
                forall|j: int| 0 <= j < es.len() ==> placed_ok(#[trigger] ps[j], es, j, sp),
                k <= rels.len(),
                placed_rels.len() == placed_relationships(es, rels@.take(k as int)).len(),
                forall|m: int|
                    0 <= m < placed_rels.len() ==> rel_placed_ok(
                        #[trigger] placed_rels@[m],
                        rels@[placed_relationships(es, rels@.take(k as int))[m].0],
                        ps[placed_relationships(es, rels@.take(k as int))[m].1],
                        ps[placed_relationships(es, rels@.take(k as int))[m].2],
                    ),
            decreases rels.len() - k,
        {
            let rel = &rels[k];
            assert forall|j: int| 0 <= j < es.len() implies (#[trigger] ps[j]).name@ == shown_name(es[j]) by {
                assert(placed_ok(ps[j], es, j, sp));
            }
            let f = find_shown(&positioned, &rel.from, Ghost(es));
            let t = find_shown(&positioned, &rel.to, Ghost(es));
            let ghost before = placed_relationships(es, rels@.take(k as int));
            assert(rels@.take(k + 1).drop_last() == rels@.take(k as int));
            assert(rels@.take(k + 1).last() == rels@[k as int]);
            match (f, t) {
                (Some(fi), Some(ti)) => {
                    proof {
                        lemma_first_shown(es, rel.from@);
                        lemma_first_shown(es, rel.to@);
                        lemma_joinable(es, ps, sp, fi as int, ti as int);
                    }
                    let a = &positioned[fi];
                    let b = &positioned[ti];
                    let (fx, fy, tx, ty, horizontal) = line_ends_of(a, b);
                    let (route, from_side, to_side) = route_of(a, b);
                    let pr = PositionedRelationship {
                        from_entity: crate::model::copy_string(&rel.from),
                        to_entity: crate::model::copy_string(&rel.to),
                        from_cardinality: rel.from_cardinality,
                        to_cardinality: rel.to_cardinality,
                        label: copy_opt(&rel.label),
                        from_x: fx,
                        from_y: fy,
                        to_x: tx,
                        to_y: ty,
                        horizontal,
                        route,
                        from_side,
                        to_side,
                    };
                    assert(placed_relationships(es, rels@.take(k + 1)) == before.push((k as int, fi as int, ti as int)));
                    assert(rel_placed_ok(pr, rels@[k as int], ps[fi as int], ps[ti as int]));
                    placed_rels.push(pr);
                },
                _ => {
                    assert(placed_relationships(es, rels@.take(k + 1)) == before);
                },
            }
            k += 1;
        }
        assert(rels@.take(rels.len() as int) == rels@);
        Ok(ErLayoutResult { entities: positioned, relationships: placed_rels, width: max_w, height })
    }
}
} // verus!
