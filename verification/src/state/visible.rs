//! Every state of a drawn diagram can be seen: the states are drawn last,
//! each within its own box, and boxes do not overlap, so each label and
//! each terminal glyph survives into the text.
use super::picture::{
    all_edges, all_labels, all_merges, all_notes, all_splits, all_states, backward_spec, centred_lines, col_run, horizontal_spec, self_loop_spec, single_edge_spec, span,
    merge_bar, merge_branches, note_lines, pick, rect_blank, sides, split_branches, state_picture, state_spec,
    terminal_glyph,
};
use super::database::start_id;
use super::database::StateDatabase;
use super::layout::{
    PositionedTransition, edge_indices, layout_matches, max_rank, rank_order, rank_start, state_layout_ok, state_placed_ok, PositionedState,
    StateLayoutResult,
};
use super::placement::{lemma_layout_separation, lemma_rank_order};
use super::ranks::ranks_ok;
use crate::canvas::{blank, cell_of, centred_start, grid_text, join_lines, printed_rows, put_cell, put_text, strip_row, Cells};
use crate::er::renderer::glyph_arms;
use crate::model::NodeShape;
use vstd::prelude::*;

verus! {

/// The length of each row of a grid.
pub open spec fn shape(g: Cells) -> Seq<nat> {
    g.map_values(|r: Seq<char>| r.len())
}

broadcast proof fn lemma_shape_put_cell(g: Cells, x: int, y: int, c: char)
    ensures
        #[trigger] shape(put_cell(g, x, y, c)) == shape(g),
{
    assert(shape(put_cell(g, x, y, c)) =~= shape(g));
}

broadcast proof fn lemma_shape_put_text(g: Cells, x: int, y: int, t: Seq<char>)
    ensures
        #[trigger] shape(put_text(g, x, y, t)) == shape(g),
{
    assert(shape(put_text(g, x, y, t)) =~= shape(g));
}

broadcast proof fn lemma_shape_rect_blank(g: Cells, x: int, y: int, w: int, k: int)
    ensures
        #[trigger] shape(rect_blank(g, x, y, w, k)) == shape(g),
    decreases k,
{
    broadcast use lemma_shape_put_text;

    if k > 0 {
        lemma_shape_rect_blank(g, x, y, w, k - 1);
    }
}

broadcast proof fn lemma_shape_sides(g: Cells, x: int, y: int, w: int, k: int, c: char)
    ensures
        #[trigger] shape(sides(g, x, y, w, k, c)) == shape(g),
    decreases k,
{
    broadcast use lemma_shape_put_cell;

    if k > 0 {
        lemma_shape_sides(g, x, y, w, k - 1, c);
    }
}

broadcast proof fn lemma_shape_col_run(g: Cells, x: int, y0: int, n: int, c: char)
    ensures
        #[trigger] shape(col_run(g, x, y0, n, c)) == shape(g),
    decreases n,
{
    broadcast use lemma_shape_put_cell;

    if n > 0 {
        lemma_shape_col_run(g, x, y0, n - 1, c);
    }
}

broadcast proof fn lemma_shape_note_lines(g: Cells, x: int, y: int, lines: Seq<Seq<char>>)
    ensures
        #[trigger] shape(note_lines(g, x, y, lines)) == shape(g),
    decreases lines.len(),
{
    broadcast use lemma_shape_put_text;

    if lines.len() > 0 {
        lemma_shape_note_lines(g, x, y, lines.drop_last());
    }
}

broadcast proof fn lemma_shape_centred_lines(g: Cells, cx: int, y: int, lines: Seq<Seq<char>>)
    ensures
        #[trigger] shape(centred_lines(g, cx, y, lines)) == shape(g),
    decreases lines.len(),
{
    broadcast use lemma_shape_put_text;

    if lines.len() > 0 {
        lemma_shape_centred_lines(g, cx, y, lines.drop_last());
    }
}

broadcast proof fn lemma_shape_split_branches(g: Cells, u: bool, t: Seq<(int, int)>, jy: int, lx: int, rx: int)
    ensures
        #[trigger] shape(split_branches(g, u, t, jy, lx, rx)) == shape(g),
    decreases t.len(),
{
    broadcast use lemma_shape_put_cell, lemma_shape_col_run;

    if t.len() > 0 {
        lemma_shape_split_branches(g, u, t.drop_last(), jy, lx, rx);
    }
}

broadcast proof fn lemma_shape_merge_branches(g: Cells, u: bool, s: Seq<(int, int)>, jy: int, lx: int, rx: int)
    ensures
        #[trigger] shape(merge_branches(g, u, s, jy, lx, rx)) == shape(g),
    decreases s.len(),
{
    broadcast use lemma_shape_put_cell, lemma_shape_col_run;

    if s.len() > 0 {
        lemma_shape_merge_branches(g, u, s.drop_last(), jy, lx, rx);
    }
}

broadcast proof fn lemma_shape_merge_bar(g: Cells, x0: int, n: int, y: int, c: char)
    ensures
        #[trigger] shape(merge_bar(g, x0, n, y, c)) == shape(g),
    decreases n,
{
    broadcast use lemma_shape_put_cell;

    if n > 0 {
        lemma_shape_merge_bar(g, x0, n - 1, y, c);
    }
}

proof fn lemma_shape_all_splits(g: Cells, u: bool, ts: Seq<super::layout::PositionedTransition>, k: int)
    ensures
        shape(all_splits(g, u, ts, k)) == shape(g),
    decreases k,
{
    broadcast use lemma_shape_put_cell, lemma_shape_put_text, lemma_shape_col_run, lemma_shape_split_branches;

    if k > 0 {
        lemma_shape_all_splits(g, u, ts, k - 1);
    }
}

proof fn lemma_shape_all_merges(g: Cells, u: bool, ts: Seq<super::layout::PositionedTransition>, k: int)
    ensures
        shape(all_merges(g, u, ts, k)) == shape(g),
    decreases k,
{
    broadcast use
        lemma_shape_put_cell,
        lemma_shape_put_text,
        lemma_shape_col_run,
        lemma_shape_merge_branches,
        lemma_shape_merge_bar,
    ;

    if k > 0 {
        lemma_shape_all_merges(g, u, ts, k - 1);
    }
}

proof fn lemma_shape_all_edges(g: Cells, u: bool, ts: Seq<super::layout::PositionedTransition>, k: int)
    ensures
        shape(all_edges(g, u, ts, k)) == shape(g),
    decreases k,
{
    broadcast use lemma_shape_put_cell, lemma_shape_put_text, lemma_shape_col_run;

    if k > 0 {
        lemma_shape_all_edges(g, u, ts, k - 1);
    }
}

proof fn lemma_shape_all_labels(g: Cells, ts: Seq<super::layout::PositionedTransition>, k: int)
    ensures
        shape(all_labels(g, ts, k)) == shape(g),
    decreases k,
{
    broadcast use lemma_shape_centred_lines;

    if k > 0 {
        lemma_shape_all_labels(g, ts, k - 1);
    }
}

proof fn lemma_shape_all_notes(g: Cells, u: bool, ns: Seq<super::layout::PositionedNote>, k: int)
    ensures
        shape(all_notes(g, u, ns, k)) == shape(g),
    decreases k,
{
    broadcast use
        lemma_shape_put_cell,
        lemma_shape_put_text,
        lemma_shape_rect_blank,
        lemma_shape_sides,
        lemma_shape_note_lines,
    ;

    if k > 0 {
        lemma_shape_all_notes(g, u, ns, k - 1);
    }
}

broadcast proof fn lemma_cell_put_cell(g: Cells, x: int, y: int, c: char, px: int, py: int)
    ensures
        #[trigger] cell_of(put_cell(g, x, y, c), px, py) == if px == x && py == y && 0 <= y < g.len() && 0 <= x
            < g[y].len() {
            c
        } else {
            cell_of(g, px, py)
        },
{
}

broadcast proof fn lemma_cell_put_text(g: Cells, x: int, y: int, t: Seq<char>, px: int, py: int)
    ensures
        #[trigger] cell_of(put_text(g, x, y, t), px, py) == if py == y && x <= px < x + t.len() && 0 <= y < g.len()
            && 0 <= px < g[y].len() {
            t[px - x]
        } else {
            cell_of(g, px, py)
        },
{
}

broadcast proof fn lemma_cell_rect_blank(g: Cells, x: int, y: int, w: int, k: int, px: int, py: int)
    requires
        w >= 0,
        !(x <= px < x + w && y <= py < y + k),
    ensures
        #[trigger] cell_of(rect_blank(g, x, y, w, k), px, py) == cell_of(g, px, py),
    decreases k,
{
    broadcast use lemma_cell_put_text;

    if k > 0 {
        lemma_cell_rect_blank(g, x, y, w, k - 1, px, py);
    }
}

broadcast proof fn lemma_cell_sides(g: Cells, x: int, y: int, w: int, k: int, c: char, px: int, py: int)
    requires
        (px != x && px != x + w - 1) || py <= y || py > y + k,
    ensures
        #[trigger] cell_of(sides(g, x, y, w, k, c), px, py) == cell_of(g, px, py),
    decreases k,
{
    broadcast use lemma_cell_put_cell;

    if k > 0 {
        lemma_cell_sides(g, x, y, w, k - 1, c, px, py);
    }
}

proof fn lemma_sides_right(g: Cells, x: int, y: int, w: int, k: int, c: char, i: int)
    requires
        1 <= i <= k,
        0 <= y + i < g.len(),
        0 <= x + w - 1 < g[y + i].len(),
    ensures
        cell_of(sides(g, x, y, w, k, c), x + w - 1, y + i) == c,
    decreases k,
{
    broadcast use lemma_cell_put_cell, lemma_shape_sides;

    let g1 = sides(g, x, y, w, k - 1, c);
    assert(shape(g1).len() == shape(g).len());
    assert(shape(g1)[y + i] == shape(g)[y + i]);
    let g2 = put_cell(g1, x, y + k, c);
    assert(shape(g2).len() == shape(g).len());
    assert(shape(g2)[y + i] == shape(g)[y + i]);
    if i < k {
        lemma_sides_right(g, x, y, w, k - 1, c, i);
    }
}

/// A state whose label or glyph fits inside its box, at least three rows
/// high.
pub open spec fn box_fits(s: PositionedState) -> bool {
    &&& s.height >= 3
    &&& if s.shape == NodeShape::Terminal {
        s.width >= 3
    } else {
        s.label@.len() + 4 <= s.width
    }
}

/// Whether the boxes of two states do not overlap.
pub open spec fn apart(a: PositionedState, b: PositionedState) -> bool {
    ||| a.x + a.width <= b.x
    ||| b.x + b.width <= a.x
    ||| a.y + a.height <= b.y
    ||| b.y + b.height <= a.y
}

/// Whether a grid has `h` rows of `w` cells.
pub open spec fn grid_of(g: Cells, w: int, h: int) -> bool {
    &&& g.len() == h
    &&& forall|y: int| 0 <= y < h ==> #[trigger] g[y].len() == w
}

/// The column where the label of a state starts.
pub open spec fn label_start(s: PositionedState) -> int {
    centred_start(s.x + s.width / 2, s.label@.len() as int)
}

/// The column where the glyph of a terminal starts.
pub open spec fn glyph_start(s: PositionedState) -> int {
    centred_start(s.x + s.width / 2, 3)
}

/// What of state `s` can be seen in grid `g`: a terminal's glyph in its
/// middle row; for other states the label on the middle row, followed on
/// that row by the right border.
pub open spec fn shows(g: Cells, u: bool, s: PositionedState) -> bool {
    if s.shape == NodeShape::Terminal {
        forall|j: int| 0 <= j < 3 ==> #[trigger] cell_of(g, glyph_start(s) + j, s.y + 1) == terminal_glyph(u, s.id@ == start_id())[j]
    } else {
        &&& forall|j: int|
            0 <= j < s.label@.len() ==> #[trigger] cell_of(g, label_start(s) + j, s.y + s.height / 2) == s.label@[j]
        &&& cell_of(g, s.x + s.width - 1, s.y + s.height / 2) == pick(u, '│', '|')
    }
}

proof fn lemma_state_local(g: Cells, u: bool, s: PositionedState, px: int, py: int)
    requires
        box_fits(s),
        !(s.x <= px < s.x + s.width && s.y <= py < s.y + s.height),
    ensures
        cell_of(state_spec(g, u, s), px, py) == cell_of(g, px, py),
{
    broadcast use lemma_cell_put_cell, lemma_cell_put_text, lemma_cell_rect_blank, lemma_cell_sides;

}

proof fn lemma_state_shows(g: Cells, u: bool, s: PositionedState, w: int, h: int)
    requires
        box_fits(s),
        grid_of(g, w, h),
        s.x + s.width <= w,
        s.y + s.height <= h,
    ensures
        shows(state_spec(g, u, s), u, s),
{
    broadcast use
        lemma_cell_put_cell,
        lemma_cell_put_text,
        lemma_cell_rect_blank,
        lemma_cell_sides,
        lemma_shape_put_cell,
        lemma_shape_put_text,
        lemma_shape_rect_blank,
        lemma_shape_sides,
    ;

    let x = s.x as int;
    let y = s.y as int;
    let sw = s.width as int;
    let sh = s.height as int;
    if s.shape == NodeShape::Terminal {
        let g0 = rect_blank(g, x, y, sw, 3);
        assert(shape(g0).len() == shape(g).len());
        assert(shape(g0)[y + 1] == shape(g)[y + 1]);
    } else {
        let hz = pick(u, '─', '-');
        let v = pick(u, '│', '|');
        let g0 = rect_blank(g, x, y, sw, sh);
        let g1 = crate::er::renderer::border_row(g0, x, y, sw, pick(u, '┌', '+'), hz, pick(u, '┐', '+'));
        let g1s = sides(g1, x, y, sw, sh - 2, v);
        let r = y + sh / 2;
        assert(shape(g1).len() == shape(g).len());
        assert(shape(g1)[r] == shape(g)[r]);
        assert(shape(g1s).len() == shape(g).len());
        assert(shape(g1s)[r] == shape(g)[r]);
        lemma_sides_right(g1, x, y, sw, sh - 2, v, sh / 2);
        assert(cell_of(g1s, x + sw - 1, r) == v);
    }
}

proof fn lemma_grid_of_shape(a: Cells, b: Cells, w: int, h: int)
    requires
        shape(a) == shape(b),
        grid_of(b, w, h),
    ensures
        grid_of(a, w, h),
{
    assert(shape(a).len() == a.len());
    assert(shape(b).len() == b.len());
    assert forall|y: int| 0 <= y < h implies #[trigger] a[y].len() == w by {
        assert(b[y].len() == w);
        assert(shape(a)[y] == a[y].len());
        assert(shape(b)[y] == b[y].len());
    }
}

proof fn lemma_shape_all_states(g: Cells, u: bool, ss: Seq<PositionedState>, k: int)
    ensures
        shape(all_states(g, u, ss, k)) == shape(g),
    decreases k,
{
    broadcast use lemma_shape_put_cell, lemma_shape_put_text, lemma_shape_rect_blank, lemma_shape_sides;

    if k > 0 {
        lemma_shape_all_states(g, u, ss, k - 1);
    }
}

/// The states of a list: each fits its box, lies in a grid of `w` by `h`,
/// and no two overlap.
pub open spec fn states_apart(ss: Seq<PositionedState>, w: int, h: int) -> bool {
    &&& forall|j: int|
        0 <= j < ss.len() ==> box_fits(#[trigger] ss[j]) && ss[j].x + ss[j].width <= w && ss[j].y + ss[j].height <= h
    &&& forall|p: int, q: int| 0 <= p < ss.len() && 0 <= q < ss.len() && p != q ==> apart(#[trigger] ss[p], #[trigger] ss[q])
}

proof fn lemma_all_states_show(g: Cells, u: bool, ss: Seq<PositionedState>, k: int, i: int, w: int, h: int)
    requires
        grid_of(g, w, h),
        0 <= i < k <= ss.len(),
        states_apart(ss, w, h),
    ensures
        shows(all_states(g, u, ss, k), u, ss[i]),
    decreases k,
{
    let gk = all_states(g, u, ss, k - 1);
    lemma_shape_all_states(g, u, ss, k - 1);
    lemma_grid_of_shape(gk, g, w, h);
    assert(box_fits(ss[i]));
    if i == k - 1 {
        lemma_state_shows(gk, u, ss[i], w, h);
    } else {
        lemma_all_states_show(g, u, ss, k - 1, i, w, h);
        let s = ss[i];
        let t = ss[k - 1];
        assert(apart(s, t));
        assert(box_fits(t));
        let gn = all_states(g, u, ss, k);
        if s.shape == NodeShape::Terminal {
            assert forall|j: int| 0 <= j < 3 implies #[trigger] cell_of(gn, glyph_start(s) + j, s.y + 1)
                == terminal_glyph(u, s.id@ == start_id())[j] by {
                lemma_state_local(gk, u, t, glyph_start(s) + j, s.y + 1);
                assert(cell_of(gk, glyph_start(s) + j, s.y + 1) == terminal_glyph(u, s.id@ == start_id())[j]);
            }
        } else {
            let r = s.y + s.height / 2;
            assert forall|j: int| 0 <= j < s.label@.len() implies #[trigger] cell_of(gn, label_start(s) + j, r)
                == s.label@[j] by {
                lemma_state_local(gk, u, t, label_start(s) + j, r);
                assert(cell_of(gk, label_start(s) + j, r) == s.label@[j]);
            }
            lemma_state_local(gk, u, t, s.x + s.width - 1, r);
        }
    }
}

/// Whether `t` stands in `s` from position `o`.
pub open spec fn text_at(s: Seq<char>, t: Seq<char>, o: int) -> bool {
    0 <= o && o + t.len() <= s.len() && s.subrange(o, o + t.len()) == t
}

/// Whether `t` stands somewhere in `s`.
pub open spec fn has_text(s: Seq<char>, t: Seq<char>) -> bool {
    exists|o: int| #[trigger] text_at(s, t, o)
}

proof fn lemma_trailing_keep(r: Seq<char>, b: int)
    requires
        0 <= b < r.len(),
        r[b] != ' ',
    ensures
        b + crate::canvas::trailing_blanks(r) < r.len(),
        b < strip_row(r).len(),
        forall|j: int| 0 <= j < strip_row(r).len() ==> #[trigger] strip_row(r)[j] == r[j],
    decreases r.len(),
{
    if r.len() > 0 && r.last() == ' ' {
        let p = r.drop_last();
        assert(p[b] == r[b]);
        lemma_trailing_keep(p, b);
    }
}

proof fn lemma_printed_keep(g: Cells, y: int, b: int)
    requires
        0 <= y < g.len(),
        0 <= b < g[y].len(),
        g[y][b] != ' ',
    ensures
        y < printed_rows(g) <= g.len(),
    decreases g.len(),
{
    lemma_trailing_keep(g[y], b);
    if strip_row(g.last()).len() == 0 {
        let p = g.drop_last();
        assert(y != g.len() - 1);
        assert(p[y] == g[y]);
        lemma_printed_keep(p, y, b);
    }
}

proof fn lemma_join_has(rows: Seq<Seq<char>>, k: int)
    requires
        0 <= k < rows.len(),
    ensures
        has_text(join_lines(rows), rows[k]),
    decreases rows.len(),
{
    if rows.len() == 1 {
        assert(join_lines(rows).subrange(0, rows[0].len() as int) =~= rows[0]);
        assert(text_at(join_lines(rows), rows[k], 0));
    } else {
        let prev = rows.drop_last();
        let a = join_lines(prev);
        let j = join_lines(rows);
        assert(j == a + seq!['\n'] + rows.last());
        if k == rows.len() - 1 {
            let o: int = a.len() + 1int;
            assert(j.subrange(o, o + rows[k].len()) =~= rows[k]);
            assert(text_at(j, rows[k], o));
        } else {
            lemma_join_has(prev, k);
            assert(prev[k] == rows[k]);
            let o = choose|o: int| #[trigger] text_at(a, rows[k], o);
            assert(j.subrange(o, o + rows[k].len()) =~= a.subrange(o, o + rows[k].len()));
            assert(text_at(j, rows[k], o));
        }
    }
}

/// A text written in a row of a grid, with something other than a space at
/// or after its last cell, stands in the grid's text.
proof fn lemma_text_shows(g: Cells, y: int, c0: int, t: Seq<char>, b: int)
    requires
        0 <= c0,
        c0 + t.len() - 1 <= b,
        cell_of(g, b, y) != ' ',
        forall|j: int| 0 <= j < t.len() ==> #[trigger] cell_of(g, c0 + j, y) == t[j],
    ensures
        has_text(grid_text(g), t),
{
    assert(0 <= y < g.len() && 0 <= b < g[y].len());
    lemma_printed_keep(g, y, b);
    lemma_trailing_keep(g[y], b);
    let n = printed_rows(g) as int;
    let rows = g.take(n).map_values(|r: Seq<char>| strip_row(r));
    let row = rows[y];
    assert(row == strip_row(g[y]));
    assert(c0 + t.len() <= row.len());
    assert(row.subrange(c0, c0 + t.len()) =~= t) by {
        assert forall|j: int| 0 <= j < t.len() implies row.subrange(c0, c0 + t.len())[j] == t[j] by {
            assert(cell_of(g, c0 + j, y) == t[j]);
            assert(row[c0 + j] == g[y][c0 + j]);
        }
    }
    assert(text_at(row, t, c0));
    lemma_join_has(rows, y);
    let text = join_lines(rows);
    let o = choose|o: int| #[trigger] text_at(text, row, o);
    assert(text.subrange(o + c0, o + c0 + t.len()) =~= row.subrange(c0, c0 + t.len()));
    assert(text_at(text, t, o + c0));
}

/// Every state of a layout whose boxes fit their contents, lie within the
/// layout and do not overlap can be seen in its drawing: a terminal's glyph
/// and any other state's label stand in the text.
pub proof fn lemma_states_visible(l: StateLayoutResult, u: bool, i: int)
    requires
        0 <= i < l.states.len(),
        states_apart(l.states@, l.width as int, l.height as int),
    ensures
        l.states@[i].shape == NodeShape::Terminal ==> has_text(
            state_picture(l, u),
            terminal_glyph(u, l.states@[i].id@ == start_id()),
        ),
        l.states@[i].shape != NodeShape::Terminal ==> has_text(state_picture(l, u), l.states@[i].label@),
{
    let ts = l.transitions@;
    let t = ts.len() as int;
    let w = l.width + 20;
    let h = l.height + 2 * t + 2;
    let g0 = blank(w, h);
    let ga = all_splits(g0, u, ts, t);
    let gb = all_merges(ga, u, ts, t);
    let gc = all_edges(gb, u, ts, t);
    let gd = all_labels(gc, ts, t);
    let ge = all_notes(gd, u, l.notes@, l.notes.len() as int);
    lemma_shape_all_splits(g0, u, ts, t);
    lemma_shape_all_merges(ga, u, ts, t);
    lemma_shape_all_edges(gb, u, ts, t);
    lemma_shape_all_labels(gc, ts, t);
    lemma_shape_all_notes(gd, u, l.notes@, l.notes.len() as int);
    assert(grid_of(g0, w, h));
    lemma_grid_of_shape(ge, g0, w, h);
    let ss = l.states@;
    assert(states_apart(ss, w, h)) by {
        assert forall|j: int| 0 <= j < ss.len() implies box_fits(#[trigger] ss[j]) && ss[j].x + ss[j].width <= w
            && ss[j].y + ss[j].height <= h by {
            assert(box_fits(ss[j]) && ss[j].x + ss[j].width <= l.width && ss[j].y + ss[j].height <= l.height);
        }
    }
    lemma_all_states_show(ge, u, ss, ss.len() as int, i, w, h);
    let gf = all_states(ge, u, ss, ss.len() as int);
    assert(state_picture(l, u) == grid_text(gf));
    let s = ss[i];
    assert(box_fits(s));
    if s.shape == NodeShape::Terminal {
        let glyph = terminal_glyph(u, s.id@ == start_id());
        lemma_text_shows(gf, s.y + 1, glyph_start(s), glyph, glyph_start(s) + 2);
    } else {
        lemma_text_shows(gf, s.y + s.height / 2, label_start(s), s.label@, s.x + s.width - 1);
    }
}

/// The layout of a database can be drawn with every state seen: each
/// terminal's glyph, and the label of every other state, stands in the
/// drawing in either style.
pub proof fn lemma_layout_states_visible(db: &StateDatabase, l: StateLayoutResult, u: bool, i: int)
    requires
        state_layout_ok(db, l),
        0 <= i < l.states.len(),
    ensures
        l.states@[i].shape == NodeShape::Terminal ==> has_text(
            state_picture(l, u),
            terminal_glyph(u, l.states@[i].id@ == start_id()),
        ),
        l.states@[i].shape != NodeShape::Terminal ==> has_text(state_picture(l, u), l.states@[i].label@),
{
    let sv = db.state_views();
    let tv = db.transition_views();
    let nv = db.note_views();
    let n = sv.len() as int;
    let (r, m) = choose|r: Seq<usize>, m: usize|
        #[trigger] ranks_ok(edge_indices(sv, tv), rank_start(sv, db.start_flag()), n, r, m)
            && #[trigger] layout_matches(db, l, r);
    let order = rank_order(r, max_rank(r, n) + 1);
    lemma_rank_order(r, max_rank(r, n) + 1);
    let ss = l.states@;
    assert forall|j: int| 0 <= j < ss.len() implies box_fits(#[trigger] ss[j]) && ss[j].x + ss[j].width
        <= l.width && ss[j].y + ss[j].height <= l.height by {
        assert(state_placed_ok(ss[j], sv, tv, nv, r, order[j]));
        lemma_layout_separation(db, l, j, j);
    }
    assert forall|p: int, q: int| 0 <= p < ss.len() && 0 <= q < ss.len() && p != q implies apart(
        #[trigger] ss[p],
        #[trigger] ss[q],
    ) by {
        lemma_layout_separation(db, l, p, q);
        lemma_layout_separation(db, l, q, p);
    }
    lemma_states_visible(l, u, i);
}

/// The arrowhead of a sideways transition sits next to its target and
/// points at it, in both styles: a transition going right ends in `▶`
/// (ASCII `>`) just left of its end column, one going left in `◀` (ASCII
/// `<`) just right of it.
pub proof fn lemma_horizontal_arrow(g: Cells, u: bool, e: PositionedTransition)
    requires
        0 <= e.to_y < g.len(),
        e.to_x + 1 < g[e.to_y as int].len(),
    ensures
        e.from_x < e.to_x ==> cell_of(horizontal_spec(g, u, e), e.to_x - 1, e.to_y as int) == if u {
            '▶'
        } else {
            '>'
        },
        e.from_x >= e.to_x ==> cell_of(horizontal_spec(g, u, e), e.to_x + 1, e.to_y as int) == if u {
            '◀'
        } else {
            '<'
        },
{
    broadcast use lemma_cell_put_cell, lemma_shape_put_text, lemma_shape_col_run;

    let right = e.from_x < e.to_x;
    let start: int = if right {
        e.from_x as int
    } else {
        e.to_x + 1
    };
    let end: int = if right {
        crate::canvas::sat_sub(e.to_x as int, 1)
    } else {
        e.from_x as int
    };
    let g1 = crate::canvas::put_run(g, start, e.from_y as int, span(start, end), pick(u, '─', '-'));
    let ax = if right {
        end
    } else {
        start
    };
    let top = crate::er::renderer::lo(e.from_y as int, e.to_y as int);
    let bottom = crate::er::renderer::hi(e.from_y as int, e.to_y as int);
    let g2 = col_run(g1, ax, top + 1, bottom - top - 1, pick(u, '│', '|'));
    assert(shape(g2).len() == shape(g).len());
    assert(shape(g2)[e.to_y as int] == shape(g)[e.to_y as int]);
}

/// The arrowhead of a downward edge points down into its target, in both
/// styles: `▼` (ASCII `v`) at the end of the edge.
pub proof fn lemma_down_arrow(g: Cells, u: bool, fx: int, fy: int, tx: int, ty: int)
    requires
        fy < ty,
        0 <= ty < g.len(),
        0 <= tx < g[ty].len(),
    ensures
        cell_of(single_edge_spec(g, u, fx, fy, tx, ty), tx, ty) == if u {
            '▼'
        } else {
            'v'
        },
{
    broadcast use lemma_cell_put_cell, lemma_shape_put_cell, lemma_shape_put_text, lemma_shape_col_run;

    let v = pick(u, '│', '|');
    if fx == tx {
        let g1 = col_run(g, fx, fy, ty - fy, v);
        assert(shape(g1).len() == shape(g).len() && shape(g1)[ty] == shape(g)[ty]);
    } else {
        let mid = fy + (ty - fy) / 2;
        let g1 = put_cell(col_run(g, fx, fy, mid - fy, v), fx, mid, if u { if tx > fx { '└' } else { '┘' } } else { '+' });
        let (hs, he) = if tx > fx {
            (fx + 1, tx)
        } else {
            (tx + 1, fx)
        };
        let g2 = put_cell(crate::canvas::put_run(g1, hs, mid, he - hs, pick(u, '─', '-')), tx, mid, if u { if tx > fx { '┐' } else { '┌' } } else { '+' });
        let g3 = col_run(g2, tx, mid + 1, ty - (mid + 1), v);
        assert(shape(g3).len() == shape(g).len() && shape(g3)[ty] == shape(g)[ty]);
    }
}

/// The arrowhead of a backward edge points right, into the left side of
/// its target, in both styles: `▶` (ASCII `>`) just left of its end column.
pub proof fn lemma_back_arrow(g: Cells, u: bool, e: PositionedTransition)
    requires
        1 <= e.to_x,
        0 <= e.to_y < g.len(),
        e.to_x <= g[e.to_y as int].len(),
    ensures
        cell_of(backward_spec(g, u, e), e.to_x - 1, e.to_y as int) == if u {
            '▶'
        } else {
            '>'
        },
{
    broadcast use lemma_cell_put_cell, lemma_shape_put_text, lemma_shape_col_run;

    let h = pick(u, '─', '-');
    let lane_x = 1 + e.lane * 2;
    let fx = crate::canvas::sat_sub(e.from_x as int, 1);
    let tx = crate::canvas::sat_sub(e.to_x as int, 1);
    let g1 = crate::canvas::put_run(g, lane_x, e.from_y as int, span(lane_x, fx), h);
    let top = crate::er::renderer::lo(e.to_y as int, e.from_y as int);
    let bottom = crate::er::renderer::hi(e.to_y as int, e.from_y as int);
    let g2 = col_run(g1, lane_x, top, bottom - top + 1, pick(u, '│', '|'));
    let g3 = crate::canvas::put_run(g2, lane_x, e.to_y as int, span(lane_x, tx - 1), h);
    assert(shape(g3).len() == shape(g).len() && shape(g3)[e.to_y as int] == shape(g)[e.to_y as int]);
}

/// The arrowhead of a self-loop points up, into the bottom of its state, in
/// both styles: `▲` (ASCII `^`) at the end of the loop.
pub proof fn lemma_loop_arrow(g: Cells, u: bool, e: PositionedTransition)
    requires
        0 <= e.to_y < g.len(),
        e.to_x < g[e.to_y as int].len(),
    ensures
        cell_of(self_loop_spec(g, u, e), e.to_x as int, e.to_y as int) == if u {
            '▲'
        } else {
            '^'
        },
{
    broadcast use lemma_cell_put_cell, lemma_shape_put_text, lemma_shape_col_run;

    let h = pick(u, '─', '-');
    let loop_x = e.from_x + super::picture::label_width(e.label) + 6 + e.lane * 2;
    let g1 = crate::canvas::put_run(g, e.from_x as int, e.from_y as int, span(e.from_x as int, loop_x), h);
    let g2 = col_run(g1, loop_x, e.from_y as int, span(e.from_y as int, e.to_y + 1), pick(u, '│', '|'));
    let g3 = crate::canvas::put_run(g2, e.to_x as int, e.to_y + 1, span(e.to_x as int, loop_x - 1), h);
    assert(shape(g3).len() == shape(g).len() && shape(g3)[e.to_y as int] == shape(g)[e.to_y as int]);
}

broadcast proof fn lemma_cell_col_run(g: Cells, x: int, y0: int, n: int, c: char, px: int, py: int)
    requires
        px != x || py < y0 || py >= y0 + n,
    ensures
        #[trigger] cell_of(col_run(g, x, y0, n, c), px, py) == cell_of(g, px, py),
    decreases n,
{
    broadcast use lemma_cell_put_cell;

    if n > 0 {
        lemma_cell_col_run(g, x, y0, n - 1, c, px, py);
    }
}

/// The two turns of a downward edge that shifts sideways are joints with
/// an arm toward each segment they join: where it leaves the vertical
/// under its source it reaches up and toward the target's column; where
/// it turns down to its target it reaches back toward the source's column
/// and down.
pub proof fn lemma_down_turns(g: Cells, fx: int, fy: int, tx: int, ty: int)
    requires
        fy < ty,
        fx != tx,
        0 <= fy + (ty - fy) / 2 < g.len(),
        0 <= fx < g[fy + (ty - fy) / 2].len(),
        0 <= tx < g[fy + (ty - fy) / 2].len(),
    ensures
        glyph_arms(cell_of(single_edge_spec(g, true, fx, fy, tx, ty), fx, fy + (ty - fy) / 2)) == (
            tx < fx,
            tx > fx,
            true,
            false,
        ),
        glyph_arms(cell_of(single_edge_spec(g, true, fx, fy, tx, ty), tx, fy + (ty - fy) / 2)) == (
            fx < tx,
            fx > tx,
            false,
            true,
        ),
{
    broadcast use
        lemma_cell_put_cell,
        lemma_cell_put_text,
        lemma_cell_col_run,
        lemma_shape_put_cell,
        lemma_shape_put_text,
        lemma_shape_col_run,
    ;

    let mid = fy + (ty - fy) / 2;
    let g0 = col_run(g, fx, fy, mid - fy, '│');
    assert(shape(g0).len() == shape(g).len() && shape(g0)[mid] == shape(g)[mid]);
    let g1 = put_cell(g0, fx, mid, if tx > fx { '└' } else { '┘' });
    let (hs, he) = if tx > fx {
        (fx + 1, tx)
    } else {
        (tx + 1, fx)
    };
    let g1r = crate::canvas::put_run(g1, hs, mid, he - hs, '─');
    assert(shape(g1r).len() == shape(g).len() && shape(g1r)[mid] == shape(g)[mid]);
    assert(cell_of(g1, fx, mid) == if tx > fx { '└' } else { '┘' });
    assert(cell_of(g1r, fx, mid) == cell_of(g1, fx, mid));
}

} // verus!
