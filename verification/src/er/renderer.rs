//! Drawing of laid-out ER diagrams: boxes with their attributes, orthogonal
//! relationship lines with crow's-foot markers, and labels placed only on
//! free cells.
use super::database::{Cardinality, ErDatabase};
use super::layout::{
    entity_lines, er_fits, fits_upto, layout_ok, lemma_box_height, lemma_joinable,
    lemma_label_bound, lemma_max_right_bound, lemma_placed_bounds, lemma_placed_valid,
    lemma_height_sum_mono, lemma_pos_y_bound, placed_ok, placed_relationships, rel_placed_ok, row_start, spacing_spec,
    ErLayoutAlgorithm, ErLayoutResult, Point, PortSide, PositionedEntity, PositionedRelationship,
    BOX_SPACING, COORD_LIMIT, LAYOUT_LIMIT,
};
use crate::canvas::{
    blank, cell_of, grid_text, put_cell, put_run, put_text, sat_sub, AsciiCanvas, Cells,
};
use crate::model::DiagramError;
use crate::text::{display_width, text_width, to_chars};
use vstd::prelude::*;

verus! {

/// The marker drawn for a cardinality at a port. Markers at left and top
/// ports are mirrored so that they face the box.
pub open spec fn marker_spec(card: Cardinality, side: PortSide) -> Seq<char> {
    let mirror = side == PortSide::Left || side == PortSide::Top;
    match card {
        Cardinality::ExactlyOne => seq!['|', '|'],
        Cardinality::ZeroOrOne => if mirror {
            seq!['o', '|']
        } else {
            seq!['|', 'o']
        },
        Cardinality::OneOrMore => if mirror {
            seq!['|', '{']
        } else {
            seq!['}', '|']
        },
        Cardinality::ZeroOrMore => if mirror {
            seq!['o', '{']
        } else {
            seq!['}', 'o']
        },
    }
}

/// A row `y` of a box from column `x`, `w` wide: `l`, then `m` repeated, then `r`.
pub open spec fn border_row(g: Cells, x: int, y: int, w: int, l: char, m: char, r: char) -> Cells {
    put_cell(put_run(put_cell(g, x, y, l), x + 1, y, w - 2, m), x + w - 1, y, r)
}

/// An inner row of a box, blanked between its side borders.
pub open spec fn blank_row(g: Cells, x: int, y: int, w: int) -> Cells {
    put_run(put_cell(g, x, y, '│'), x + 1, y, w - 2, ' ')
}

/// Column where text of display width `text_width(t)` starts when centred in
/// `w` columns from `x`.
pub open spec fn centred_x(x: int, w: int, t: Seq<char>) -> int {
    x + sat_sub(w, text_width(t) as int) / 2
}

/// The name row of a box.
pub open spec fn name_row(g: Cells, x: int, y: int, w: int, name: Seq<char>) -> Cells {
    put_cell(put_text(blank_row(g, x, y, w), centred_x(x + 1, w - 2, name), y, name), x + w - 1, y, '│')
}

/// An attribute row of a box: the text from two columns in.
pub open spec fn text_row(g: Cells, x: int, y: int, w: int, t: Seq<char>) -> Cells {
    put_cell(put_text(blank_row(g, x, y, w), x + 2, y, t), x + w - 1, y, '│')
}

/// The attribute rows from row `y0`, one per line.
pub open spec fn attr_rows(g: Cells, x: int, y0: int, w: int, lines: Seq<Seq<char>>) -> Cells
    decreases lines.len(),
{
    if lines.len() == 0 {
        g
    } else {
        text_row(attr_rows(g, x, y0, w, lines.drop_last()), x, y0 + lines.len() - 1, w, lines.last())
    }
}

/// The lines of a placed entity as character sequences.
pub open spec fn entity_text_lines(e: PositionedEntity) -> Seq<Seq<char>> {
    e.attribute_lines@.map_values(|l: String| l@)
}

/// `g` with the box of entity `e` drawn: top border, centred name, and when
/// there are attribute lines a separator and one row per line, then the
/// bottom border.
pub open spec fn entity_spec(g: Cells, e: PositionedEntity) -> Cells {
    let x = e.x as int;
    let y = e.y as int;
    let w = e.width as int;
    let lines = entity_text_lines(e);
    let g2 = name_row(border_row(g, x, y, w, '┌', '─', '┐'), x, y + 1, w, e.name@);
    if lines.len() == 0 {
        border_row(g2, x, y + 2, w, '└', '─', '┘')
    } else {
        let g3 = border_row(g2, x, y + 2, w, '├', '─', '┤');
        border_row(attr_rows(g3, x, y + 3, w, lines), x, y + 3 + lines.len(), w, '└', '─', '┘')
    }
}

/// Whether `c` is one of the box-drawing characters that lines are made of.
pub open spec fn is_line_char(c: char) -> bool {
    c == '─' || c == '│' || c == '┌' || c == '┐' || c == '└' || c == '┘' || c == '┬' || c == '┴'
        || c == '├' || c == '┤' || c == '┼'
}

/// A line cell: drawn on blank cells and cells that already hold `c`, turned
/// into a crossing on other line cells, and left alone on anything else.
pub open spec fn line_cell(g: Cells, x: int, y: int, c: char) -> Cells {
    let e = cell_of(g, x, y);
    if e == ' ' || e == c {
        put_cell(g, x, y, c)
    } else if is_line_char(e) {
        put_cell(g, x, y, '┼')
    } else {
        g
    }
}

/// Line cells `c` at columns `x0 .. x0 + n` of row `y`, left to right.
pub open spec fn run_h(g: Cells, x0: int, n: int, y: int) -> Cells
    decreases n,
{
    if n <= 0 {
        g
    } else {
        line_cell(run_h(g, x0, n - 1, y), x0 + n - 1, y, '─')
    }
}

/// Line cells at rows `y0 .. y0 + n` of column `x`, top to bottom.
pub open spec fn run_v(g: Cells, x: int, y0: int, n: int) -> Cells
    decreases n,
{
    if n <= 0 {
        g
    } else {
        line_cell(run_v(g, x, y0, n - 1), x, y0 + n - 1, '│')
    }
}

pub open spec fn lo(a: int, b: int) -> int {
    if a <= b {
        a
    } else {
        b
    }
}

pub open spec fn hi(a: int, b: int) -> int {
    if a <= b {
        b
    } else {
        a
    }
}

/// A straight segment between two points, both ends included; a segment that
/// is neither horizontal nor vertical draws nothing.
pub open spec fn segment_spec(g: Cells, a: Point, b: Point) -> Cells {
    if a.y == b.y {
        run_h(g, lo(a.x as int, b.x as int), hi(a.x as int, b.x as int) - lo(a.x as int, b.x as int) + 1, a.y as int)
    } else if a.x == b.x {
        run_v(g, a.x as int, lo(a.y as int, b.y as int), hi(a.y as int, b.y as int) - lo(a.y as int, b.y as int) + 1)
    } else {
        g
    }
}

/// The first `k` segments of a route.
pub open spec fn segments(g: Cells, r: Seq<Point>, k: int) -> Cells
    decreases k,
{
    if k <= 0 {
        g
    } else {
        segment_spec(segments(g, r, k - 1), r[k - 1], r[k])
    }
}

/// The joint drawn at `curr` between its neighbours on a route.
pub open spec fn corner_spec(prev: Point, curr: Point, next: Point) -> char {
    let left = prev.x < curr.x || next.x < curr.x;
    let right = prev.x > curr.x || next.x > curr.x;
    let up = prev.y < curr.y || next.y < curr.y;
    let down = prev.y > curr.y || next.y > curr.y;
    if left && right && up && down {
        '┼'
    } else if left && right && up {
        '┴'
    } else if left && right && down {
        '┬'
    } else if left && up && down && !right {
        '┤'
    } else if right && up && down && !left {
        '├'
    } else if right && down && !left && !up {
        '┌'
    } else if left && down && !right && !up {
        '┐'
    } else if right && up && !left && !down {
        '└'
    } else if left && up && !right && !down {
        '┘'
    } else if left && right {
        '─'
    } else if up && down {
        '│'
    } else {
        '┼'
    }
}

/// The joints of the first `k` inner points of a route.
pub open spec fn corners(g: Cells, r: Seq<Point>, k: int) -> Cells
    decreases k,
{
    if k <= 0 {
        g
    } else {
        put_cell(corners(g, r, k - 1), r[k].x as int, r[k].y as int, corner_spec(r[k - 1], r[k], r[k + 1]))
    }
}

/// A cardinality marker at a route end: before the point on a left port,
/// from it on a right port, and across it on top and bottom ports.
pub open spec fn marker_put(g: Cells, p: Point, side: PortSide, card: Cardinality) -> Cells {
    let m = marker_spec(card, side);
    match side {
        PortSide::Left => put_text(g, sat_sub(p.x as int, 2), p.y as int, m),
        PortSide::Right => put_text(g, p.x as int, p.y as int, m),
        _ => put_text(g, sat_sub(p.x as int, 1), p.y as int, m),
    }
}

/// `g` with the line of a relationship: its segments, its joints, and its
/// two markers.
pub open spec fn rel_line_spec(g: Cells, rel: PositionedRelationship) -> Cells {
    let r = rel.route@;
    let n = r.len() as int;
    let g2 = corners(segments(g, r, n - 1), r, n - 2);
    marker_put(marker_put(g2, r[0], rel.from_side, rel.from_cardinality), r[n - 1], rel.to_side, rel.to_cardinality)
}

/// Whether `len` cells of row `y` from column `x` are blank (or, when
/// `allow_line`, a horizontal line).
pub open spec fn clear_h(g: Cells, x: int, y: int, len: int, allow_line: bool) -> bool {
    forall|i: int|
        0 <= i < len ==> #[trigger] cell_of(g, x + i, y) == ' ' || (allow_line && cell_of(g, x + i, y) == '─')
}

/// The label written at the first candidate place that is clear, or nowhere.
pub open spec fn label_try(g: Cells, cands: Seq<(int, int, bool)>, t: Seq<char>) -> Cells
    decreases cands.len(),
{
    if cands.len() == 0 {
        g
    } else if clear_h(g, cands[0].0, cands[0].1, t.len() as int, cands[0].2) {
        put_text(g, cands[0].0, cands[0].1, t)
    } else {
        label_try(g, cands.drop_first(), t)
    }
}

/// Length of a segment: horizontal plus vertical extent.
pub open spec fn seg_len(a: Point, b: Point) -> int {
    (hi(a.x as int, b.x as int) - lo(a.x as int, b.x as int)) + (hi(a.y as int, b.y as int) - lo(a.y as int, b.y as int))
}

/// The index of the longest of the first `k` segments of a route, the last
/// one among equals.
pub open spec fn longest(r: Seq<Point>, k: int) -> int
    decreases k,
{
    if k <= 1 {
        0
    } else {
        let j = longest(r, k - 1);
        if seg_len(r[k - 1], r[k]) >= seg_len(r[j], r[j + 1]) {
            k - 1
        } else {
            j
        }
    }
}

/// Candidate places for a label on the segment from `a` to `b`: above, on
/// and below the middle of a horizontal segment; right of, above-right,
/// below-right and left of the middle of a vertical one.
pub open spec fn label_candidates(a: Point, b: Point, len: int) -> Seq<(int, int, bool)> {
    if a.y == b.y {
        let y = a.y as int;
        let mid = (lo(a.x as int, b.x as int) + hi(a.x as int, b.x as int)) / 2;
        let start = sat_sub(mid, len / 2);
        seq![(start, sat_sub(y, 1), false), (start, y, true), (start, y + 1, false)]
    } else {
        let x = a.x as int;
        let mid = (lo(a.y as int, b.y as int) + hi(a.y as int, b.y as int)) / 2;
        seq![(x + 2, mid, false), (x + 2, sat_sub(mid, 1), false), (x + 2, mid + 1, false), (sat_sub(x, len + 2), mid, false)]
    }
}

/// `g` with the label of a relationship placed on its longest segment.
pub open spec fn label_spec(g: Cells, rel: PositionedRelationship) -> Cells {
    let r = rel.route@;
    match rel.label {
        Some(l) => if l@.len() == 0 || r.len() < 2 {
            g
        } else {
            let j = longest(r, r.len() - 1);
            label_try(g, label_candidates(r[j], r[j + 1], l@.len() as int), l@)
        },
        None => g,
    }
}

pub open spec fn all_lines(g: Cells, rels: Seq<PositionedRelationship>) -> Cells
    decreases rels.len(),
{
    if rels.len() == 0 {
        g
    } else {
        rel_line_spec(all_lines(g, rels.drop_last()), rels.last())
    }
}

pub open spec fn all_entities(g: Cells, es: Seq<PositionedEntity>) -> Cells
    decreases es.len(),
{
    if es.len() == 0 {
        g
    } else {
        entity_spec(all_entities(g, es.drop_last()), es.last())
    }
}

pub open spec fn all_labels(g: Cells, rels: Seq<PositionedRelationship>) -> Cells
    decreases rels.len(),
{
    if rels.len() == 0 {
        g
    } else {
        label_spec(all_labels(g, rels.drop_last()), rels.last())
    }
}

/// The picture of a layout: on a canvas four columns wider than the layout
/// and one row taller (three more when there are lines), first all lines,
/// then all boxes over them, then the labels on what is still free.
pub open spec fn er_picture(l: ErLayoutResult) -> Seq<char> {
    if l.entities.len() == 0 {
        Seq::empty()
    } else {
        let extra: int = if l.relationships.len() == 0 {
            0
        } else {
            3
        };
        let g0 = blank(l.width + 4, l.height + extra + 1);
        grid_text(all_labels(all_entities(all_lines(g0, l.relationships@), l.entities@), l.relationships@))
    }
}

/// A layout whose coordinates stay far from the machine limits, whose boxes
/// are at least two columns wide, and whose routes are not empty.
pub open spec fn drawable(l: ErLayoutResult) -> bool {
    &&& l.width + 4 <= COORD_LIMIT
    &&& l.height + 4 <= COORD_LIMIT
    &&& forall|i: int|
        0 <= i < l.entities.len() ==> {
            let e = #[trigger] l.entities@[i];
            &&& 2 <= e.width
            &&& e.x + e.width <= COORD_LIMIT
            &&& e.y + e.attribute_lines.len() + 3 <= COORD_LIMIT
        }
    &&& forall|k: int|
        0 <= k < l.relationships.len() ==> {
            let rel = #[trigger] l.relationships@[k];
            &&& rel.route.len() >= 1
            &&& forall|j: int|
                0 <= j < rel.route.len() ==> (#[trigger] rel.route@[j]).x <= COORD_LIMIT && rel.route@[j].y
                    <= COORD_LIMIT
            &&& (rel.label matches Some(t) ==> t@.len() <= COORD_LIMIT)
        }
}

/// Labels are written only over blank cells and horizontal line cells: the
/// content of boxes is never overwritten.
pub proof fn lemma_label_keeps_content(g: Cells, cands: Seq<(int, int, bool)>, t: Seq<char>, x: int, y: int)
    ensures
        cell_of(label_try(g, cands, t), x, y) != cell_of(g, x, y) ==> cell_of(g, x, y) == ' '
            || cell_of(g, x, y) == '─',
    decreases cands.len(),
{
    if cands.len() > 0 {
        if clear_h(g, cands[0].0, cands[0].1, t.len() as int, cands[0].2) {
            let g2 = put_text(g, cands[0].0, cands[0].1, t);
            if cell_of(g2, x, y) != cell_of(g, x, y) {
                assert(y == cands[0].1);
                assert(cands[0].0 <= x < cands[0].0 + t.len());
                let i = x - cands[0].0;
                assert(cell_of(g, cands[0].0 + i, y) == ' ' || cell_of(g, cands[0].0 + i, y) == '─');
            }
        } else {
            lemma_label_keeps_content(g, cands.drop_first(), t, x, y);
        }
    }
}

/// The joint at a point does not depend on which neighbour comes first.
pub proof fn lemma_corner_symmetric(prev: Point, curr: Point, next: Point)
    ensures
        corner_spec(prev, curr, next) == corner_spec(next, curr, prev),
{
}

/// The arms of a line-drawing glyph: whether it reaches to the left, to
/// the right, up and down.
pub open spec fn glyph_arms(c: char) -> (bool, bool, bool, bool) {
    if c == '─' {
        (true, true, false, false)
    } else if c == '│' {
        (false, false, true, true)
    } else if c == '┌' {
        (false, true, false, true)
    } else if c == '┐' {
        (true, false, false, true)
    } else if c == '└' {
        (false, true, true, false)
    } else if c == '┘' {
        (true, false, true, false)
    } else if c == '├' {
        (false, true, true, true)
    } else if c == '┤' {
        (true, false, true, true)
    } else if c == '┬' {
        (true, true, false, true)
    } else if c == '┴' {
        (true, true, true, false)
    } else if c == '┼' {
        (true, true, true, true)
    } else {
        (false, false, false, false)
    }
}

/// The joint drawn at a route point reaches toward each of its two
/// neighbours and nowhere else: its arms are exactly the directions in
/// which the previous and the next point lie, whenever those are at least
/// two directions.
pub proof fn lemma_corner_arms(prev: Point, curr: Point, next: Point)
    requires
        ({
            let left = prev.x < curr.x || next.x < curr.x;
            let right = prev.x > curr.x || next.x > curr.x;
            let up = prev.y < curr.y || next.y < curr.y;
            let down = prev.y > curr.y || next.y > curr.y;
            (if left { 1int } else { 0int }) + (if right { 1int } else { 0int }) + (if up { 1int } else { 0int }) + (
            if down { 1int } else { 0int }) >= 2
        }),
    ensures
        glyph_arms(corner_spec(prev, curr, next)) == (
            prev.x < curr.x || next.x < curr.x,
            prev.x > curr.x || next.x > curr.x,
            prev.y < curr.y || next.y < curr.y,
            prev.y > curr.y || next.y > curr.y,
        ),
{
}

/// All the labels of a picture are written only over blank cells and
/// horizontal line cells: every other cell keeps what it held.
pub proof fn lemma_labels_keep_content(g: Cells, rels: Seq<PositionedRelationship>, x: int, y: int)
    ensures
        cell_of(all_labels(g, rels), x, y) != cell_of(g, x, y) ==> cell_of(g, x, y) == ' ' || cell_of(g, x, y)
            == '─',
    decreases rels.len(),
{
    if rels.len() > 0 {
        lemma_labels_keep_content(g, rels.drop_last(), x, y);
        let g1 = all_labels(g, rels.drop_last());
        let rel = rels.last();
        let r = rel.route@;
        match rel.label {
            Some(l) => {
                if !(l@.len() == 0 || r.len() < 2) {
                    let j = longest(r, r.len() - 1);
                    lemma_label_keeps_content(g1, label_candidates(r[j], r[j + 1], l@.len() as int), l@, x, y);
                }
            },
            None => {},
        }
    }
}

/// The cells of the picture of a layout, before they are turned into text.
pub open spec fn er_cells(l: ErLayoutResult) -> Cells {
    let extra: int = if l.relationships.len() == 0 {
        0
    } else {
        3
    };
    let g0 = blank(l.width + 4, l.height + extra + 1);
    all_labels(all_entities(all_lines(g0, l.relationships@), l.entities@), l.relationships@)
}

/// In the picture of a layout, labels never cover the text of the boxes:
/// every cell that the lines and boxes leave as something other than a
/// space or a horizontal line keeps it, and the picture is the text of
/// those cells.
pub proof fn lemma_picture_keeps_boxes(l: ErLayoutResult, x: int, y: int)
    requires
        l.entities.len() > 0,
    ensures
        er_picture(l) == grid_text(er_cells(l)),
        ({
            let extra: int = if l.relationships.len() == 0 {
                0
            } else {
                3
            };
            let boxes = all_entities(all_lines(blank(l.width + 4, l.height + extra + 1), l.relationships@), l.entities@);
            cell_of(boxes, x, y) != ' ' && cell_of(boxes, x, y) != '─' ==> cell_of(er_cells(l), x, y) == cell_of(
                boxes,
                x,
                y,
            )
        }),
{
    let extra: int = if l.relationships.len() == 0 {
        0
    } else {
        3
    };
    let boxes = all_entities(all_lines(blank(l.width + 4, l.height + extra + 1), l.relationships@), l.entities@);
    lemma_labels_keep_content(boxes, l.relationships@, x, y);
}

/// Orders two numbers.
fn sort_pair(a: usize, b: usize) -> (r: (usize, usize))
    ensures
        r.0 == lo(a as int, b as int),
        r.1 == hi(a as int, b as int),
{
    if a <= b {
        (a, b)
    } else {
        (b, a)
    }
}

/// Renderer for ER diagrams.
pub struct ErRenderer;

impl ErRenderer {
    pub fn new() -> (r: Self) {
        ErRenderer
    }

    /// The marker for a cardinality at a port side.
    pub fn marker_for_side(card: Cardinality, side: PortSide) -> (r: &'static str)
        ensures
            r@ == marker_spec(card, side),
    {
        let mirror = match side {
            PortSide::Left | PortSide::Top => true,
            _ => false,
        };
        match card {
            Cardinality::ExactlyOne => {
                proof {
                    reveal_strlit("||");
                }
                "||"
            },
            Cardinality::ZeroOrOne => if mirror {
                proof {
                    reveal_strlit("o|");
                }
                "o|"
            } else {
                proof {
                    reveal_strlit("|o");
                }
                "|o"
            },
            Cardinality::OneOrMore => if mirror {
                proof {
                    reveal_strlit("|{");
                }
                "|{"
            } else {
                proof {
                    reveal_strlit("}|");
                }
                "}|"
            },
            Cardinality::ZeroOrMore => if mirror {
                proof {
                    reveal_strlit("o{");
                }
                "o{"
            } else {
                proof {
                    reveal_strlit("}o");
                }
                "}o"
            },
        }
    }
}


/// Draws `len` cells of `c` from `(x, y)` and the side characters around them.
fn draw_border_row(canvas: &mut AsciiCanvas, x: usize, y: usize, w: usize, l: char, m: char, r: char)
    requires
        old(canvas).wf(),
        2 <= w,
        x + w <= COORD_LIMIT,
    ensures
        final(canvas).wf(),
        final(canvas).width == old(canvas).width,
        final(canvas).height == old(canvas).height,
        final(canvas).cells() == border_row(old(canvas).cells(), x as int, y as int, w as int, l, m, r),
{
    canvas.set_char(x, y, l);
    canvas.draw_horizontal_line(x + 1, y, w - 2, m);
    canvas.set_char(x + w - 1, y, r);
}

fn draw_blank_row(canvas: &mut AsciiCanvas, x: usize, y: usize, w: usize)
    requires
        old(canvas).wf(),
        2 <= w,
        x + w <= COORD_LIMIT,
    ensures
        final(canvas).wf(),
        final(canvas).width == old(canvas).width,
        final(canvas).height == old(canvas).height,
        final(canvas).cells() == blank_row(old(canvas).cells(), x as int, y as int, w as int),
{
    canvas.set_char(x, y, '│');
    canvas.draw_horizontal_line(x + 1, y, w - 2, ' ');
}

/// Draws the box of a placed entity.
fn draw_entity(canvas: &mut AsciiCanvas, e: &PositionedEntity)
    requires
        old(canvas).wf(),
        2 <= e.width,
        e.x + e.width <= COORD_LIMIT,
        e.y + e.attribute_lines.len() + 3 <= COORD_LIMIT,
    ensures
        final(canvas).wf(),
        final(canvas).width == old(canvas).width,
        final(canvas).height == old(canvas).height,
        final(canvas).cells() == entity_spec(old(canvas).cells(), *e),
{
    let ghost g = canvas.cells();
    let ghost lines = entity_text_lines(*e);
    let x = e.x;
    let y = e.y;
    let w = e.width;
    draw_border_row(canvas, x, y, w, '┌', '─', '┐');
    draw_blank_row(canvas, x, y + 1, w);
    let name = to_chars(e.name.as_str());
    let tw = display_width(&name);
    let pad = if w - 2 > tw {
        w - 2 - tw
    } else {
        0
    };
    canvas.draw_chars(x + 1 + pad / 2, y + 1, &name);
    canvas.set_char(x + w - 1, y + 1, '│');
    let ghost g2 = canvas.cells();
    assert(g2 == name_row(border_row(g, x as int, y as int, w as int, '┌', '─', '┐'), x as int, y as int + 1, w as int, e.name@));
    let n = e.attribute_lines.len();
    if n == 0 {
        draw_border_row(canvas, x, y + 2, w, '└', '─', '┘');
        return;
    }
    draw_border_row(canvas, x, y + 2, w, '├', '─', '┤');
    let ghost g3 = canvas.cells();
    let mut k: usize = 0;
    while k < n
        invariant
            canvas.wf(),
            canvas.width == old(canvas).width,
            canvas.height == old(canvas).height,
            n == e.attribute_lines.len(),
            lines == entity_text_lines(*e),
            lines.len() == n,
            2 <= w,
            x + w <= COORD_LIMIT,
            y + n + 3 <= COORD_LIMIT,
            k <= n,
            canvas.cells() == attr_rows(g3, x as int, y + 3, w as int, lines.take(k as int)),
        decreases n - k,
    {
        let cy = y + 3 + k;
        draw_blank_row(canvas, x, cy, w);
        canvas.draw_text(x + 2, cy, e.attribute_lines[k].as_str());
        canvas.set_char(x + w - 1, cy, '│');
        assert(lines.take(k + 1).drop_last() == lines.take(k as int));
        assert(lines.take(k + 1).last() == e.attribute_lines@[k as int]@);
        k += 1;
    }
    assert(lines.take(n as int) == lines);
    draw_border_row(canvas, x, y + 3 + n, w, '└', '─', '┘');
}

fn is_line(c: char) -> (r: bool)
    ensures
        r == is_line_char(c),
{
    c == '─' || c == '│' || c == '┌' || c == '┐' || c == '└' || c == '┘' || c == '┬' || c == '┴'
        || c == '├' || c == '┤' || c == '┼'
}

/// Draws one cell of a line.
fn set_line_char(canvas: &mut AsciiCanvas, x: usize, y: usize, c: char)
    requires
        old(canvas).wf(),
    ensures
        final(canvas).wf(),
        final(canvas).width == old(canvas).width,
        final(canvas).height == old(canvas).height,
        final(canvas).cells() == line_cell(old(canvas).cells(), x as int, y as int, c),
{
    let existing = canvas.get_char(x, y);
    if existing == ' ' || existing == c {
        canvas.set_char(x, y, c);
    } else if is_line(existing) {
        canvas.set_char(x, y, '┼');
    }
}

/// Draws a straight segment, both ends included.
fn draw_segment(canvas: &mut AsciiCanvas, from: Point, to: Point)
    requires
        old(canvas).wf(),
        from.x <= COORD_LIMIT,
        from.y <= COORD_LIMIT,
        to.x <= COORD_LIMIT,
        to.y <= COORD_LIMIT,
    ensures
        final(canvas).wf(),
        final(canvas).width == old(canvas).width,
        final(canvas).height == old(canvas).height,
        final(canvas).cells() == segment_spec(old(canvas).cells(), from, to),
{
    let ghost g = canvas.cells();
    if from.y == to.y {
        let (left, right) = sort_pair(from.x, to.x);
        let mut x = left;
        while x <= right
            invariant
                canvas.wf(),
                canvas.width == old(canvas).width,
                canvas.height == old(canvas).height,
                left <= x <= right + 1,
                right <= COORD_LIMIT,
                canvas.cells() == run_h(g, left as int, x - left, from.y as int),
            decreases right + 1 - x,
        {
            set_line_char(canvas, x, from.y, '─');
            x += 1;
        }
    } else if from.x == to.x {
        let (top, bottom) = sort_pair(from.y, to.y);
        let mut y = top;
        while y <= bottom
            invariant
                canvas.wf(),
                canvas.width == old(canvas).width,
                canvas.height == old(canvas).height,
                top <= y <= bottom + 1,
                bottom <= COORD_LIMIT,
                canvas.cells() == run_v(g, from.x as int, top as int, y - top),
            decreases bottom + 1 - y,
        {
            set_line_char(canvas, from.x, y, '│');
            y += 1;
        }
    }
}

/// The joint at `curr` between its neighbours.
fn corner_char(prev: Point, curr: Point, next: Point) -> (r: char)
    ensures
        r == corner_spec(prev, curr, next),
{
    let left = prev.x < curr.x || next.x < curr.x;
    let right = prev.x > curr.x || next.x > curr.x;
    let up = prev.y < curr.y || next.y < curr.y;
    let down = prev.y > curr.y || next.y > curr.y;
    if left && right && up && down {
        '┼'
    } else if left && right && up {
        '┴'
    } else if left && right && down {
        '┬'
    } else if left && up && down && !right {
        '┤'
    } else if right && up && down && !left {
        '├'
    } else if right && down && !left && !up {
        '┌'
    } else if left && down && !right && !up {
        '┐'
    } else if right && up && !left && !down {
        '└'
    } else if left && up && !right && !down {
        '┘'
    } else if left && right {
        '─'
    } else if up && down {
        '│'
    } else {
        '┼'
    }
}

/// Draws a cardinality marker at a route end.
fn draw_marker(canvas: &mut AsciiCanvas, point: Point, side: PortSide, card: Cardinality)
    requires
        old(canvas).wf(),
    ensures
        final(canvas).wf(),
        final(canvas).width == old(canvas).width,
        final(canvas).height == old(canvas).height,
        final(canvas).cells() == marker_put(old(canvas).cells(), point, side, card),
{
    let marker = ErRenderer::marker_for_side(card, side);
    match side {
        PortSide::Left => {
            let x = if point.x >= 2 {
                point.x - 2
            } else {
                0
            };
            canvas.draw_text(x, point.y, marker);
        },
        PortSide::Right => canvas.draw_text(point.x, point.y, marker),
        _ => {
            let x = if point.x >= 1 {
                point.x - 1
            } else {
                0
            };
            canvas.draw_text(x, point.y, marker);
        },
    }
}

/// Draws the line of a relationship with its markers.
fn draw_relationship_line(canvas: &mut AsciiCanvas, rel: &PositionedRelationship)
    requires
        old(canvas).wf(),
        rel.route.len() >= 1,
        forall|j: int|
            0 <= j < rel.route.len() ==> (#[trigger] rel.route@[j]).x <= COORD_LIMIT && rel.route@[j].y
                <= COORD_LIMIT,
    ensures
        final(canvas).wf(),
        final(canvas).width == old(canvas).width,
        final(canvas).height == old(canvas).height,
        final(canvas).cells() == rel_line_spec(old(canvas).cells(), *rel),
{
    let ghost g = canvas.cells();
    let ghost r = rel.route@;
    let n = rel.route.len();
    let mut i: usize = 0;
    while i + 1 < n
        invariant
            canvas.wf(),
            canvas.width == old(canvas).width,
            canvas.height == old(canvas).height,
            r == rel.route@,
            n == r.len(),
            n >= 1,
            i + 1 <= n,
            forall|j: int| 0 <= j < n ==> (#[trigger] r[j]).x <= COORD_LIMIT && r[j].y <= COORD_LIMIT,
            canvas.cells() == segments(g, r, i as int),
        decreases n - i,
    {
        draw_segment(canvas, rel.route[i], rel.route[i + 1]);
        i += 1;
    }
    let ghost g1 = canvas.cells();
    let mut m: usize = 0;
    while m + 2 < n
        invariant
            canvas.wf(),
            canvas.width == old(canvas).width,
            canvas.height == old(canvas).height,
            r == rel.route@,
            n == r.len(),
            n >= 1,
            m + 2 <= n || m == 0,
            canvas.cells() == corners(g1, r, m as int),
        decreases n - m,
    {
        let c = corner_char(rel.route[m], rel.route[m + 1], rel.route[m + 2]);
        canvas.set_char(rel.route[m + 1].x, rel.route[m + 1].y, c);
        m += 1;
    }
    assert(canvas.cells() == corners(g1, r, n - 2));
    draw_marker(canvas, rel.route[0], rel.from_side, rel.from_cardinality);
    draw_marker(canvas, rel.route[n - 1], rel.to_side, rel.to_cardinality);
}

impl ErRenderer {
    /// Whether `len` cells of row `y` from column `x` are blank, or, when
    /// `allow_line`, a horizontal line.
    pub fn is_clear_horizontal(canvas: &AsciiCanvas, x: usize, y: usize, len: usize, allow_line: bool) -> (r: bool)
        requires
            canvas.wf(),
            x + len <= usize::MAX,
        ensures
            r == clear_h(canvas.cells(), x as int, y as int, len as int, allow_line),
    {
        let mut i: usize = 0;
        while i < len
            invariant
                canvas.wf(),
                x + len <= usize::MAX,
                i <= len,
                forall|j: int|
                    0 <= j < i ==> #[trigger] cell_of(canvas.cells(), x + j, y as int) == ' ' || (allow_line
                        && cell_of(canvas.cells(), x + j, y as int) == '─'),
            decreases len - i,
        {
            let c = canvas.get_char(x + i, y);
            if !(c == ' ' || (allow_line && c == '─')) {
                assert(!clear_h(canvas.cells(), x as int, y as int, len as int, allow_line)) by {
                    assert(cell_of(canvas.cells(), x + i, y as int) == c);
                }
                return false;
            }
            i += 1;
        }
        true
    }
}

/// The candidates as integer triples.
pub open spec fn cand_view(c: Seq<(usize, usize, bool)>) -> Seq<(int, int, bool)> {
    c.map_values(|t: (usize, usize, bool)| (t.0 as int, t.1 as int, t.2))
}

/// Writes the label at the first clear candidate place, if any.
fn draw_label_safe(canvas: &mut AsciiCanvas, candidates: &Vec<(usize, usize, bool)>, label: &str)
    requires
        old(canvas).wf(),
        forall|k: int| 0 <= k < candidates.len() ==> (#[trigger] candidates@[k]).0 + label@.len() <= usize::MAX,
    ensures
        final(canvas).wf(),
        final(canvas).width == old(canvas).width,
        final(canvas).height == old(canvas).height,
        final(canvas).cells() == label_try(old(canvas).cells(), cand_view(candidates@), label@),
{
    let ghost g = canvas.cells();
    let ghost all = cand_view(candidates@);
    let t = to_chars(label);
    let len = t.len();
    let mut i: usize = 0;
    assert(all.skip(0) =~= all);
    while i < candidates.len()
        invariant
            canvas.wf(),
            canvas.width == old(canvas).width,
            canvas.height == old(canvas).height,
            canvas.cells() == g,
            g == old(canvas).cells(),
            all == cand_view(candidates@),
            len == label@.len(),
            i <= candidates.len(),
            forall|k: int| 0 <= k < candidates.len() ==> (#[trigger] candidates@[k]).0 + label@.len() <= usize::MAX,
            label_try(g, all, label@) == label_try(g, all.skip(i as int), label@),
        decreases candidates.len() - i,
    {
        let (x, y, allow_line) = candidates[i];
        assert(all.skip(i as int)[0] == (x as int, y as int, allow_line));
        assert(all.skip(i as int).len() > 0);
        if ErRenderer::is_clear_horizontal(canvas, x, y, len, allow_line) {
            canvas.draw_text(x, y, label);
            assert(canvas.cells() == label_try(g, all.skip(i as int), label@));
            return;
        }
        assert(all.skip(i as int).drop_first() =~= all.skip(i + 1));
        i += 1;
    }
    assert(all.skip(candidates.len() as int) =~= Seq::<(int, int, bool)>::empty());
}

fn seg_length(a: Point, b: Point) -> (r: usize)
    requires
        a.x <= COORD_LIMIT,
        a.y <= COORD_LIMIT,
        b.x <= COORD_LIMIT,
        b.y <= COORD_LIMIT,
    ensures
        r == seg_len(a, b),
{
    let (l, r) = sort_pair(a.x, b.x);
    let (t, u) = sort_pair(a.y, b.y);
    (r - l) + (u - t)
}

/// The index of the longest segment of a route, the last among equals.
fn longest_segment(route: &Vec<Point>) -> (r: usize)
    requires
        route.len() >= 2,
        forall|j: int| 0 <= j < route.len() ==> (#[trigger] route@[j]).x <= COORD_LIMIT && route@[j].y <= COORD_LIMIT,
    ensures
        r == longest(route@, route.len() - 1),
        r + 1 < route.len(),
{
    let mut best: usize = 0;
    let mut best_len = seg_length(route[0], route[1]);
    let mut k: usize = 1;
    while k + 1 < route.len()
        invariant
            1 <= k < route.len(),
            forall|j: int| 0 <= j < route.len() ==> (#[trigger] route@[j]).x <= COORD_LIMIT && route@[j].y <= COORD_LIMIT,
            best == longest(route@, k as int),
            best + 1 <= k,
            best_len == seg_len(route@[best as int], route@[best + 1]),
        decreases route.len() - k,
    {
        let l = seg_length(route[k], route[k + 1]);
        if l >= best_len {
            best = k;
            best_len = l;
        }
        k += 1;
    }
    best
}

/// Places the label of a relationship on its longest segment, on free cells.
fn draw_relationship_label(canvas: &mut AsciiCanvas, rel: &PositionedRelationship)
    requires
        old(canvas).wf(),
        forall|j: int|
            0 <= j < rel.route.len() ==> (#[trigger] rel.route@[j]).x <= COORD_LIMIT && rel.route@[j].y
                <= COORD_LIMIT,
        rel.label matches Some(t) ==> t@.len() <= COORD_LIMIT,
    ensures
        final(canvas).wf(),
        final(canvas).width == old(canvas).width,
        final(canvas).height == old(canvas).height,
        final(canvas).cells() == label_spec(old(canvas).cells(), *rel),
{
    let label = match &rel.label {
        Some(l) => l,
        None => return,
    };
    let len = to_chars(label.as_str()).len();
    if len == 0 || rel.route.len() < 2 {
        return;
    }
    let j = longest_segment(&rel.route);
    let from = rel.route[j];
    let to = rel.route[j + 1];
    let mut cands: Vec<(usize, usize, bool)> = Vec::new();
    if from.y == to.y {
        let y = from.y;
        let (left, right) = sort_pair(from.x, to.x);
        let mid = (left + right) / 2;
        let start = if mid >= len / 2 {
            mid - len / 2
        } else {
            0
        };
        let above = if y >= 1 {
            y - 1
        } else {
            0
        };
        cands.push((start, above, false));
        cands.push((start, y, true));
        cands.push((start, y + 1, false));
    } else {
        let x = from.x;
        let (top, bottom) = sort_pair(from.y, to.y);
        let mid = (top + bottom) / 2;
        let above = if mid >= 1 {
            mid - 1
        } else {
            0
        };
        let left = if x >= len + 2 {
            x - (len + 2)
        } else {
            0
        };
        cands.push((x + 2, mid, false));
        cands.push((x + 2, above, false));
        cands.push((x + 2, mid + 1, false));
        cands.push((left, mid, false));
    }
    assert(cand_view(cands@) =~= label_candidates(from, to, len as int));
    draw_label_safe(canvas, &cands, label.as_str());
}

/// A layout produced for a diagram that fits can be drawn.
pub proof fn lemma_drawable(db: &ErDatabase, res: ErLayoutResult)
    requires
        er_fits(db),
        layout_ok(db, res, spacing_spec(db, BOX_SPACING as int)),
    ensures
        drawable(res),
{
    let es = db.entity_seq();
    let rels = db.relationship_seq();
    let n = es.len() as int;
    let sp = spacing_spec(db, BOX_SPACING as int);
    let ps = res.entities@;
    assert(fits_upto(es, n));
    lemma_max_right_bound(es, n, sp);
    if n > 0 {
        lemma_pos_y_bound(es, n - 1);
        lemma_height_sum_mono(es, n - 1, n);
        let r = row_start(n - 1);
        assert(entity_lines(es[r]).len() <= LAYOUT_LIMIT);
        lemma_box_height(es[r]);
        if r + 1 < n {
            assert(entity_lines(es[r + 1]).len() <= LAYOUT_LIMIT);
            lemma_box_height(es[r + 1]);
        }
    }
    assert forall|i: int| 0 <= i < res.entities.len() implies {
        let e = #[trigger] res.entities@[i];
        &&& 2 <= e.width
        &&& e.x + e.width <= COORD_LIMIT
        &&& e.y + e.attribute_lines.len() + 3 <= COORD_LIMIT
    } by {
        assert(placed_ok(ps[i], es, i, sp));
        lemma_placed_bounds(es, ps, sp, i);
    }
    let placed = placed_relationships(es, rels);
    assert forall|k: int| 0 <= k < res.relationships.len() implies {
        let rel = #[trigger] res.relationships@[k];
        &&& rel.route.len() >= 1
        &&& forall|j: int|
            0 <= j < rel.route.len() ==> (#[trigger] rel.route@[j]).x <= COORD_LIMIT && rel.route@[j].y
                <= COORD_LIMIT
        &&& (rel.label matches Some(t) ==> t@.len() <= COORD_LIMIT)
    } by {
        lemma_placed_valid(es, rels, k);
        let (ri, f, t) = placed[k];
        assert(rel_placed_ok(res.relationships@[k], rels[ri], ps[f], ps[t]));
        assert(forall|i: int| 0 <= i < es.len() ==> placed_ok(#[trigger] ps[i], es, i, sp));
        lemma_joinable(es, ps, sp, f, t);
        lemma_label_bound(rels, ri);
    }
}

impl ErRenderer {
    /// Draws a layout: all relationship lines, then the boxes over them, then
    /// the labels where cells are still free.
    pub fn render(&self, layout: &ErLayoutResult) -> (r: Result<String, DiagramError>)
        requires
            drawable(*layout),
        ensures
            r matches Ok(s) && s@ == er_picture(*layout),
    {
        if layout.entities.len() == 0 {
            return Ok(String::new());
        }
        let extra: usize = if layout.relationships.len() == 0 {
            0
        } else {
            3
        };
        let mut canvas = AsciiCanvas::new(layout.width + 4, layout.height + extra + 1);
        let ghost g0 = canvas.cells();
        let rels = &layout.relationships;
        let ents = &layout.entities;
        let mut i: usize = 0;
        while i < rels.len()
            invariant
                drawable(*layout),
                rels == &layout.relationships,
                canvas.wf(),
                i <= rels.len(),
                canvas.cells() == all_lines(g0, rels@.take(i as int)),
            decreases rels.len() - i,
        {
            assert(rels@.take(i + 1).drop_last() == rels@.take(i as int));
            let rel = &rels[i];
            assert(rel == layout.relationships@[i as int]);
            draw_relationship_line(&mut canvas, rel);
            i += 1;
        }
        assert(rels@.take(rels.len() as int) == rels@);
        let ghost g1 = canvas.cells();
        let mut j: usize = 0;
        while j < ents.len()
            invariant
                drawable(*layout),
                ents == &layout.entities,
                canvas.wf(),
                j <= ents.len(),
                canvas.cells() == all_entities(g1, ents@.take(j as int)),
            decreases ents.len() - j,
        {
            assert(ents@.take(j + 1).drop_last() == ents@.take(j as int));
            let e = &ents[j];
            assert(e == layout.entities@[j as int]);
            draw_entity(&mut canvas, e);
            j += 1;
        }
        assert(ents@.take(ents.len() as int) == ents@);
        let ghost g2 = canvas.cells();
        let mut k: usize = 0;
        while k < rels.len()
            invariant
                drawable(*layout),
                rels == &layout.relationships,
                canvas.wf(),
                k <= rels.len(),
                canvas.cells() == all_labels(g2, rels@.take(k as int)),
            decreases rels.len() - k,
        {
            assert(rels@.take(k + 1).drop_last() == rels@.take(k as int));
            let rel = &rels[k];
            assert(rel == layout.relationships@[k as int]);
            draw_relationship_label(&mut canvas, rel);
            k += 1;
        }
        assert(rels@.take(rels.len() as int) == rels@);
        Ok(canvas.to_text())
    }

    /// Lays a database out and draws it; fails only where the layout does.
    pub fn render_database(&self, database: &ErDatabase) -> (r: Result<String, DiagramError>)
        ensures
            r is Err <==> !er_fits(database),
            r matches Ok(s) ==> exists|res: ErLayoutResult|
                layout_ok(database, res, spacing_spec(database, BOX_SPACING as int)) && s@ == er_picture(res),
    {
        let algorithm = ErLayoutAlgorithm::new();
        match algorithm.layout(database) {
            Err(e) => Err(e),
            Ok(res) => {
                proof {
                    lemma_drawable(database, res);
                }
                match self.render(&res) {
                    Ok(s) => {
                        assert(layout_ok(database, res, spacing_spec(database, BOX_SPACING as int)) && s@ == er_picture(res));
                        Ok(s)
                    },
                    Err(e) => Err(e),
                }
            },
        }
    }
}
} // verus!
