//! What a state diagram looks like once drawn, as functions on grids of
//! cells: boxes, terminals, choices, notes, the kinds of edges and labels,
//! and the whole picture of a layout.
use super::layout::{
    PositionedNote, PositionedTransition, StateLayoutResult, TransitionRoute,
    MAX_TRANSITION_LABEL_WIDTH,
};
use super::database::start_id;
use crate::canvas::{
    blank, cell_of, centred_start, grid_text, put_cell, put_run, put_text, sat_sub, widest,
    words_of, wrap_words, Cells,
};
use crate::er::renderer::{border_row, hi, lo};
use crate::model::NodeShape;
use vstd::prelude::*;

verus! {

/// `uni` when drawing with Unicode, else `asc`.
pub open spec fn pick(u: bool, uni: char, asc: char) -> char {
    if u {
        uni
    } else {
        asc
    }
}

/// `k` rows from row `y`, `w` cells from column `x`, blanked.
pub open spec fn rect_blank(g: Cells, x: int, y: int, w: int, k: int) -> Cells
    decreases k,
{
    if k <= 0 {
        g
    } else {
        put_run(rect_blank(g, x, y, w, k - 1), x, y + k - 1, w, ' ')
    }
}

/// The side borders `c` of rows `y + 1 ..= y + k` of a box.
pub open spec fn sides(g: Cells, x: int, y: int, w: int, k: int, c: char) -> Cells
    decreases k,
{
    if k <= 0 {
        g
    } else {
        put_cell(put_cell(sides(g, x, y, w, k - 1, c), x, y + k, c), x + w - 1, y + k, c)
    }
}

/// A cleared box with a centred label.
pub open spec fn box_spec(g: Cells, u: bool, x: int, y: int, w: int, h: int, label: Seq<char>) -> Cells {
    let hz = pick(u, '─', '-');
    let v = pick(u, '│', '|');
    let g1 = border_row(rect_blank(g, x, y, w, h), x, y, w, pick(u, '┌', '+'), hz, pick(u, '┐', '+'));
    let g2 = border_row(sides(g1, x, y, w, h - 2, v), x, y + h - 1, w, pick(u, '└', '+'), hz, pick(u, '┘', '+'));
    put_text(g2, centred_start(x + w / 2, label.len() as int), y + h / 2, label)
}

/// A choice: a box with diamond corners.
pub open spec fn choice_spec(g: Cells, u: bool, x: int, y: int, w: int, h: int, label: Seq<char>) -> Cells {
    let c = pick(u, '◆', '<');
    let g1 = box_spec(g, u, x, y, w, h, label);
    put_cell(put_cell(put_cell(put_cell(g1, x, y, c), x + w - 1, y, c), x, y + h - 1, c), x + w - 1, y + h - 1, c)
}

/// The glyph of a terminal.
pub open spec fn terminal_glyph(u: bool, is_start: bool) -> Seq<char> {
    if u {
        if is_start {
            seq!['(', '●', ')']
        } else {
            seq!['(', '○', ')']
        }
    } else if is_start {
        seq!['(', '*', ')']
    } else {
        seq!['(', 'o', ')']
    }
}

/// A terminal: three cleared rows with its glyph centred in the middle one.
pub open spec fn terminal_spec(g: Cells, u: bool, x: int, y: int, w: int, is_start: bool) -> Cells {
    put_text(rect_blank(g, x, y, w, 3), centred_start(x + w / 2, 3), y + 1, terminal_glyph(u, is_start))
}

/// Cells `c` in column `x`, rows `y0 .. y0 + n`.
pub open spec fn col_run(g: Cells, x: int, y0: int, n: int, c: char) -> Cells
    decreases n,
{
    if n <= 0 {
        g
    } else {
        put_cell(col_run(g, x, y0, n - 1, c), x, y0 + n - 1, c)
    }
}

/// A downward edge: straight, or down, across and down with two corners.
pub open spec fn single_edge_spec(g: Cells, u: bool, fx: int, fy: int, tx: int, ty: int) -> Cells {
    let down = pick(u, '▼', 'v');
    let v = pick(u, '│', '|');
    let h = pick(u, '─', '-');
    if fy >= ty {
        g
    } else if fx == tx {
        put_cell(col_run(g, fx, fy, ty - fy, v), fx, ty, down)
    } else {
        let mid = fy + (ty - fy) / 2;
        let g1 = put_cell(col_run(g, fx, fy, mid - fy, v), fx, mid, if u { if tx > fx { '└' } else { '┘' } } else { '+' });
        let (hs, he) = if tx > fx {
            (fx + 1, tx)
        } else {
            (tx + 1, fx)
        };
        let g2 = put_cell(put_run(g1, hs, mid, he - hs, h), tx, mid, if u { if tx > fx { '┐' } else { '┌' } } else { '+' });
        put_cell(col_run(g2, tx, mid + 1, ty - (mid + 1), v), tx, ty, down)
    }
}

/// Number of cells in `a ..= b`.
pub open spec fn span(a: int, b: int) -> int {
    if b >= a {
        b - a + 1
    } else {
        0
    }
}

/// A backward edge through its lane on the left.
pub open spec fn backward_spec(g: Cells, u: bool, e: PositionedTransition) -> Cells {
    let h = pick(u, '─', '-');
    let v = pick(u, '│', '|');
    let lane_x = 1 + e.lane * 2;
    let fx = sat_sub(e.from_x as int, 1);
    let tx = sat_sub(e.to_x as int, 1);
    let g1 = put_run(g, lane_x, e.from_y as int, span(lane_x, fx), h);
    let top = lo(e.to_y as int, e.from_y as int);
    let bottom = hi(e.to_y as int, e.from_y as int);
    let g2 = col_run(g1, lane_x, top, bottom - top + 1, v);
    let g3 = put_run(g2, lane_x, e.to_y as int, span(lane_x, tx - 1), h);
    put_cell(g3, tx, e.to_y as int, pick(u, '▶', '>'))
}

/// A sideways edge, turning down or up into the arrow when the rows differ.
pub open spec fn horizontal_spec(g: Cells, u: bool, e: PositionedTransition) -> Cells {
    let h = pick(u, '─', '-');
    let v = pick(u, '│', '|');
    let right = e.from_x < e.to_x;
    let start: int = if right { e.from_x as int } else { e.to_x + 1 };
    let end: int = if right { sat_sub(e.to_x as int, 1) } else { e.from_x as int };
    let arrow = if right { pick(u, '▶', '>') } else { pick(u, '◀', '<') };
    let g1 = put_run(g, start, e.from_y as int, span(start, end), h);
    let ax = if right { end } else { start };
    let top = lo(e.from_y as int, e.to_y as int);
    let bottom = hi(e.from_y as int, e.to_y as int);
    put_cell(col_run(g1, ax, top + 1, bottom - top - 1, v), ax, e.to_y as int, arrow)
}

/// Width of a wrapped transition label.
pub open spec fn label_width(l: Option<String>) -> int {
    match l {
        Some(s) => widest(wrap_words(words_of(s@), MAX_TRANSITION_LABEL_WIDTH as int)) as int,
        None => 0,
    }
}

/// A self-loop: out to the right past the label and back under the state.
pub open spec fn self_loop_spec(g: Cells, u: bool, e: PositionedTransition) -> Cells {
    let h = pick(u, '─', '-');
    let v = pick(u, '│', '|');
    let loop_x = e.from_x + label_width(e.label) + 6 + e.lane * 2;
    let g1 = put_run(g, e.from_x as int, e.from_y as int, span(e.from_x as int, loop_x), h);
    let g2 = col_run(g1, loop_x, e.from_y as int, span(e.from_y as int, e.to_y + 1), v);
    let g3 = put_run(g2, e.to_x as int, e.to_y + 1, span(e.to_x as int, loop_x - 1), h);
    put_cell(g3, e.to_x as int, e.to_y as int, pick(u, '▲', '^'))
}

/// Lines of a note, from row `y + 1`, one column in.
pub open spec fn note_lines(g: Cells, x: int, y: int, lines: Seq<Seq<char>>) -> Cells
    decreases lines.len(),
{
    if lines.len() == 0 {
        g
    } else {
        put_text(note_lines(g, x, y, lines.drop_last()), x + 1, y + lines.len(), lines.last())
    }
}

/// A note: an empty box two rows taller than its lines, then its lines.
pub open spec fn note_spec(g: Cells, u: bool, n: PositionedNote) -> Cells {
    let lines = n.text@.map_values(|l: String| l@);
    note_lines(box_spec(g, u, n.x as int, n.y as int, n.width as int, lines.len() + 2int, Seq::empty()), n.x as int, n.y as int, lines)
}

pub open spec fn min_x(t: Seq<(int, int)>) -> int
    decreases t.len(),
{
    if t.len() == 0 {
        0
    } else if t.len() == 1 {
        t[0].0
    } else {
        lo(min_x(t.drop_last()), t.last().0)
    }
}

pub open spec fn max_x(t: Seq<(int, int)>) -> int
    decreases t.len(),
{
    if t.len() == 0 {
        0
    } else if t.len() == 1 {
        t[0].0
    } else {
        hi(max_x(t.drop_last()), t.last().0)
    }
}

pub open spec fn min_y(t: Seq<(int, int)>) -> int
    decreases t.len(),
{
    if t.len() == 0 {
        0
    } else if t.len() == 1 {
        t[0].1
    } else {
        lo(min_y(t.drop_last()), t.last().1)
    }
}

pub open spec fn max_y(t: Seq<(int, int)>) -> int
    decreases t.len(),
{
    if t.len() == 0 {
        0
    } else if t.len() == 1 {
        t[0].1
    } else {
        hi(max_y(t.drop_last()), t.last().1)
    }
}

/// The branches of a split to targets `t` from the junction row `jy`.
pub open spec fn split_branches(g: Cells, u: bool, t: Seq<(int, int)>, jy: int, lx: int, rx: int) -> Cells
    decreases t.len(),
{
    if t.len() == 0 {
        g
    } else {
        let g1 = split_branches(g, u, t.drop_last(), jy, lx, rx);
        let (tx, ty) = t.last();
        let c = if u {
            if tx == lx {
                '┌'
            } else if tx == rx {
                '┐'
            } else {
                '┬'
            }
        } else {
            '+'
        };
        put_cell(col_run(put_cell(g1, tx, jy, c), tx, jy + 1, ty - (jy + 1), pick(u, '│', '|')), tx, ty, pick(u, '▼', 'v'))
    }
}

/// One source to several targets: down to a junction row halfway to the
/// nearest target, a bar across the targets, and down into each.
pub open spec fn split_spec(g: Cells, u: bool, fx: int, fy: int, t: Seq<(int, int)>) -> Cells {
    if t.len() == 0 {
        g
    } else {
        let jy = fy + (min_y(t) - fy) / 2;
        let lx = min_x(t);
        let rx = max_x(t);
        let g1 = put_run(col_run(g, fx, fy, jy - fy, pick(u, '│', '|')), lx, jy, rx - lx + 1, pick(u, '─', '-'));
        let jc = if u {
            if fx <= lx {
                '└'
            } else if fx >= rx {
                '┘'
            } else {
                '┴'
            }
        } else {
            '+'
        };
        split_branches(put_cell(g1, fx, jy, jc), u, t, jy, lx, rx)
    }
}

/// The branches of a merge from sources `s` down to the junction row.
pub open spec fn merge_branches(g: Cells, u: bool, s: Seq<(int, int)>, jy: int, lx: int, rx: int) -> Cells
    decreases s.len(),
{
    if s.len() == 0 {
        g
    } else {
        let g1 = merge_branches(g, u, s.drop_last(), jy, lx, rx);
        let (sx, sy) = s.last();
        let c = if u {
            if sx == lx {
                '└'
            } else if sx == rx {
                '┘'
            } else {
                '┴'
            }
        } else {
            '+'
        };
        put_cell(col_run(g1, sx, sy, jy - sy, pick(u, '│', '|')), sx, jy, c)
    }
}

/// The bar of a merge, drawn only over blank cells and bar cells.
pub open spec fn merge_bar(g: Cells, x0: int, n: int, y: int, c: char) -> Cells
    decreases n,
{
    if n <= 0 {
        g
    } else {
        let g1 = merge_bar(g, x0, n - 1, y, c);
        let cur = cell_of(g1, x0 + n - 1, y);
        if cur == ' ' || cur == c {
            put_cell(g1, x0 + n - 1, y, c)
        } else {
            g1
        }
    }
}

/// Several sources to one target: down to a junction row halfway from the
/// lowest source, a bar across the sources, and down into the target.
pub open spec fn merge_spec(g: Cells, u: bool, s: Seq<(int, int)>, tx: int, ty: int) -> Cells {
    if s.len() == 0 {
        g
    } else {
        let my = max_y(s);
        let jy = my + sat_sub(ty, my) / 2;
        let lx = min_x(s);
        let rx = max_x(s);
        let g1 = merge_bar(merge_branches(g, u, s, jy, lx, rx), lx, rx - lx + 1, jy, pick(u, '─', '-'));
        let jc = if u {
            if tx <= lx {
                '└'
            } else if tx >= rx {
                '┘'
            } else {
                '┬'
            }
        } else {
            '+'
        };
        put_cell(col_run(put_cell(g1, tx, jy, jc), tx, jy + 1, ty - (jy + 1), pick(u, '│', '|')), tx, ty, pick(u, '▼', 'v'))
    }
}

/// Lines of a label centred on column `cx` from row `y`.
pub open spec fn centred_lines(g: Cells, cx: int, y: int, lines: Seq<Seq<char>>) -> Cells
    decreases lines.len(),
{
    if lines.len() == 0 {
        g
    } else {
        let last = lines.last();
        put_text(centred_lines(g, cx, y, lines.drop_last()), centred_start(cx, last.len() as int), y + lines.len() - 1, last)
    }
}

/// The label of a transition: wrapped, centred beside its edge.
pub open spec fn label_spec(g: Cells, e: PositionedTransition) -> Cells {
    match e.label {
        None => g,
        Some(l) => {
            let lines = wrap_words(words_of(l@), MAX_TRANSITION_LABEL_WIDTH as int);
            let w = widest(lines) as int;
            let n = lines.len() as int;
            let (cx, sy) = match e.route {
                TransitionRoute::Forward => {
                    let mid = e.from_y + sat_sub(e.to_y as int, e.from_y as int) / 2;
                    (e.to_x as int, sat_sub(mid, n))
                },
                TransitionRoute::Backward => (sat_sub(e.from_x as int, w / 2 + 4), e.from_y + 3),
                TransitionRoute::Horizontal => ((e.from_x + e.to_x) / 2, sat_sub(e.from_y as int, n)),
                TransitionRoute::SelfLoop => (e.from_x + w / 2 + 4 + e.lane * 2, e.from_y as int),
            };
            centred_lines(g, cx, sy, lines)
        },
    }
}

/// Whether transition `k` is drawn downwards.
pub open spec fn is_fwd(ts: Seq<PositionedTransition>, k: int) -> bool {
    ts[k].route == TransitionRoute::Forward
}

/// Number of the first `k` forward transitions leaving `f`.
pub open spec fn fcount(ts: Seq<PositionedTransition>, f: Seq<char>, k: int) -> int
    decreases k,
{
    if k <= 0 {
        0
    } else {
        fcount(ts, f, k - 1) + if is_fwd(ts, k - 1) && ts[k - 1].from_id@ == f {
            1int
        } else {
            0int
        }
    }
}

/// Forward transitions into `t`, among the first `k`, whose source has no
/// other forward transition (those not drawn as part of a split).
pub open spec fn unsplit_into(ts: Seq<PositionedTransition>, t: Seq<char>, k: int) -> Seq<int>
    decreases k,
{
    if k <= 0 {
        Seq::empty()
    } else {
        let prev = unsplit_into(ts, t, k - 1);
        if is_fwd(ts, k - 1) && ts[k - 1].to_id@ == t && fcount(ts, ts[k - 1].from_id@, ts.len() as int) <= 1 {
            prev.push(k - 1)
        } else {
            prev
        }
    }
}

/// Whether transition `k` is the first forward one from its source.
pub open spec fn first_from(ts: Seq<PositionedTransition>, k: int) -> bool {
    is_fwd(ts, k) && fcount(ts, ts[k].from_id@, k) == 0
}

/// Whether transition `k` is the first forward one into its target.
pub open spec fn first_into(ts: Seq<PositionedTransition>, k: int) -> bool {
    is_fwd(ts, k) && forall|j: int| 0 <= j < k ==> !(is_fwd(ts, j) && #[trigger] ts[j].to_id@ == ts[k].to_id@)
}

/// Forward transitions from `f`, among the first `k`.
pub open spec fn fwd_from(ts: Seq<PositionedTransition>, f: Seq<char>, k: int) -> Seq<int>
    decreases k,
{
    if k <= 0 {
        Seq::empty()
    } else if is_fwd(ts, k - 1) && ts[k - 1].from_id@ == f {
        fwd_from(ts, f, k - 1).push(k - 1)
    } else {
        fwd_from(ts, f, k - 1)
    }
}

/// The targets of a split: each transition's `to_x` and the row above its
/// `to_y`.
pub open spec fn split_targets(ts: Seq<PositionedTransition>, idx: Seq<int>) -> Seq<(int, int)> {
    idx.map_values(|k: int| (ts[k].to_x as int, sat_sub(ts[k].to_y as int, 1)))
}

/// The sources of a merge: each transition's start.
pub open spec fn merge_sources(ts: Seq<PositionedTransition>, idx: Seq<int>) -> Seq<(int, int)> {
    idx.map_values(|k: int| (ts[k].from_x as int, ts[k].from_y as int))
}

/// The splits of the first `k` transitions, each drawn at the first
/// forward transition from its source.
pub open spec fn all_splits(g: Cells, u: bool, ts: Seq<PositionedTransition>, k: int) -> Cells
    decreases k,
{
    if k <= 0 {
        g
    } else {
        let g1 = all_splits(g, u, ts, k - 1);
        let e = ts[k - 1];
        if first_from(ts, k - 1) && fcount(ts, e.from_id@, ts.len() as int) > 1 {
            split_spec(g1, u, e.from_x as int, e.from_y as int, split_targets(ts, fwd_from(ts, e.from_id@, ts.len() as int)))
        } else {
            g1
        }
    }
}

/// The merges of the first `k` transitions, each drawn at the first
/// forward transition into its target.
pub open spec fn all_merges(g: Cells, u: bool, ts: Seq<PositionedTransition>, k: int) -> Cells
    decreases k,
{
    if k <= 0 {
        g
    } else {
        let g1 = all_merges(g, u, ts, k - 1);
        let e = ts[k - 1];
        let und = unsplit_into(ts, e.to_id@, ts.len() as int);
        if first_into(ts, k - 1) && und.len() > 1 {
            let f = ts[und[0]];
            merge_spec(g1, u, merge_sources(ts, und), f.to_x as int, sat_sub(f.to_y as int, 1))
        } else {
            g1
        }
    }
}

/// Whether forward transition `k` is drawn as part of a split or merge.
pub open spec fn grouped(ts: Seq<PositionedTransition>, k: int) -> bool {
    fcount(ts, ts[k].from_id@, ts.len() as int) > 1 || unsplit_into(ts, ts[k].to_id@, ts.len() as int).len() > 1
}

/// One transition drawn on its own (forward ones only when not grouped).
pub open spec fn edge_spec(g: Cells, u: bool, ts: Seq<PositionedTransition>, k: int) -> Cells {
    let e = ts[k];
    match e.route {
        TransitionRoute::Forward => if grouped(ts, k) {
            g
        } else {
            single_edge_spec(g, u, e.from_x as int, e.from_y as int, e.to_x as int, sat_sub(e.to_y as int, 1))
        },
        TransitionRoute::Backward => backward_spec(g, u, e),
        TransitionRoute::Horizontal => horizontal_spec(g, u, e),
        TransitionRoute::SelfLoop => self_loop_spec(g, u, e),
    }
}

pub open spec fn all_edges(g: Cells, u: bool, ts: Seq<PositionedTransition>, k: int) -> Cells
    decreases k,
{
    if k <= 0 {
        g
    } else {
        edge_spec(all_edges(g, u, ts, k - 1), u, ts, k - 1)
    }
}

pub open spec fn all_labels(g: Cells, ts: Seq<PositionedTransition>, k: int) -> Cells
    decreases k,
{
    if k <= 0 {
        g
    } else {
        label_spec(all_labels(g, ts, k - 1), ts[k - 1])
    }
}

pub open spec fn all_notes(g: Cells, u: bool, ns: Seq<PositionedNote>, k: int) -> Cells
    decreases k,
{
    if k <= 0 {
        g
    } else {
        note_spec(all_notes(g, u, ns, k - 1), u, ns[k - 1])
    }
}

/// One state drawn by its shape.
pub open spec fn state_spec(g: Cells, u: bool, s: super::layout::PositionedState) -> Cells {
    match s.shape {
        NodeShape::Terminal => terminal_spec(g, u, s.x as int, s.y as int, s.width as int, s.id@ == start_id()),
        NodeShape::Diamond => choice_spec(g, u, s.x as int, s.y as int, s.width as int, s.height as int, s.label@),
        _ => box_spec(g, u, s.x as int, s.y as int, s.width as int, s.height as int, s.label@),
    }
}

pub open spec fn all_states(g: Cells, u: bool, ss: Seq<super::layout::PositionedState>, k: int) -> Cells
    decreases k,
{
    if k <= 0 {
        g
    } else {
        state_spec(all_states(g, u, ss, k - 1), u, ss[k - 1])
    }
}

/// The picture of a layout: on a canvas 20 columns wider and two rows per
/// transition (plus 2) taller than the layout, splits, merges, the other
/// edges, labels, notes, and the states over everything.
pub open spec fn state_picture(l: StateLayoutResult, u: bool) -> Seq<char> {
    if l.states.len() == 0 {
        Seq::empty()
    } else {
        let ts = l.transitions@;
        let t = ts.len() as int;
        let g0 = blank(l.width + 20, l.height + 2 * t + 2);
        let g1 = all_edges(all_merges(all_splits(g0, u, ts, t), u, ts, t), u, ts, t);
        let g2 = all_notes(all_labels(g1, ts, t), u, l.notes@, l.notes.len() as int);
        grid_text(all_states(g2, u, l.states@, l.states.len() as int))
    }
}

} // verus!
