//! Drawings made with ASCII characters stay within ASCII: every glyph the
//! ASCII style draws is an ASCII character, so only the diagram's own text
//! can bring in others.
use super::database::{label_view, StateDatabase};
use super::layout::{
    edge_indices, layout_matches, max_rank, note_placed_ok, placed_notes, rank_order, rank_start, state_layout_ok,
    state_placed_ok, trans_placed_ok, PositionedNote, PositionedState, PositionedTransition, StateLayoutResult,
};
use super::placement::{lemma_max_rank, lemma_rank_order};
use super::ranks::ranks_ok;
use super::picture::{
    all_edges, all_labels, all_merges, all_notes, all_splits, all_states, backward_spec, box_spec, centred_lines,
    choice_spec, col_run, first_into, fwd_from, horizontal_spec, label_spec, label_width, max_x, max_y, merge_bar,
    merge_branches, merge_sources, merge_spec, min_x, min_y, note_lines, note_spec, rect_blank, self_loop_spec,
    sides, single_edge_spec, span, split_branches, split_spec, split_targets, state_picture, terminal_glyph,
    terminal_spec, unsplit_into,
};
use crate::canvas::{
    blank, grid_text, join_lines, printed_rows, put_cell, put_run, put_text, strip_row, words_from_word, words_of,
    wrap_words, Cells,
};
use crate::er::renderer::border_row;
use crate::model::NodeShape;
use vstd::prelude::*;

verus! {

/// Whether a character is ASCII.
pub open spec fn is_ascii_char(c: char) -> bool {
    (c as u32) < 128
}

/// Whether every character of a text is ASCII.
pub open spec fn ascii_text(t: Seq<char>) -> bool {
    forall|i: int| 0 <= i < t.len() ==> is_ascii_char(#[trigger] t[i])
}

/// Whether every line of a sequence of lines is ASCII.
pub open spec fn ascii_lines(ls: Seq<Seq<char>>) -> bool {
    forall|k: int| 0 <= k < ls.len() ==> ascii_text(#[trigger] ls[k])
}

/// Whether every cell of a grid is ASCII.
pub open spec fn ascii_cells(g: Cells) -> bool {
    forall|y: int, x: int| 0 <= y < g.len() && 0 <= x < g[y].len() ==> is_ascii_char(#[trigger] g[y][x])
}

/// Whether all the text a database puts in a drawing is ASCII: state
/// labels, transition labels and note lines.
pub open spec fn ascii_database(db: &StateDatabase) -> bool {
    &&& forall|i: int| 0 <= i < db.state_views().len() ==> ascii_text(#[trigger] db.state_views()[i].1)
    &&& forall|k: int|
        0 <= k < db.transition_views().len() ==> ((#[trigger] db.transition_views()[k]).3 matches Some(l) ==> ascii_text(l))
    &&& forall|j: int| 0 <= j < db.note_views().len() ==> ascii_lines(#[trigger] db.note_views()[j].2)
}

proof fn lemma_put_cell(g: Cells, x: int, y: int, c: char)
    requires
        ascii_cells(g),
        is_ascii_char(c),
    ensures
        ascii_cells(put_cell(g, x, y, c)),
{
    let r = put_cell(g, x, y, c);
    assert forall|yy: int, xx: int| 0 <= yy < r.len() && 0 <= xx < r[yy].len() implies is_ascii_char(#[trigger] r[yy][xx]) by {
        if 0 <= y < g.len() && 0 <= x < g[y].len() && yy == y {
            if xx != x {
                assert(r[yy][xx] == g[yy][xx]);
            }
        } else {
            assert(r[yy] == g[yy]);
        }
    }
}

proof fn lemma_put_text(g: Cells, x: int, y: int, t: Seq<char>)
    requires
        ascii_cells(g),
        ascii_text(t),
    ensures
        ascii_cells(put_text(g, x, y, t)),
{
    let r = put_text(g, x, y, t);
    assert forall|yy: int, xx: int| 0 <= yy < r.len() && 0 <= xx < r[yy].len() implies is_ascii_char(#[trigger] r[yy][xx]) by {
        if 0 <= y < g.len() && yy == y {
            if !(x <= xx < x + t.len()) {
                assert(r[yy][xx] == g[yy][xx]);
            } else {
                assert(r[yy][xx] == t[xx - x]);
            }
        } else {
            assert(r[yy] == g[yy]);
        }
    }
}

proof fn lemma_put_run(g: Cells, x: int, y: int, n: int, c: char)
    requires
        ascii_cells(g),
        is_ascii_char(c),
    ensures
        ascii_cells(put_run(g, x, y, n, c)),
{
    let t = Seq::new(n as nat, |i: int| c);
    assert(ascii_text(t));
    lemma_put_text(g, x, y, t);
}

proof fn lemma_border_row(g: Cells, x: int, y: int, w: int, l: char, m: char, r: char)
    requires
        ascii_cells(g),
        is_ascii_char(l),
        is_ascii_char(m),
        is_ascii_char(r),
    ensures
        ascii_cells(border_row(g, x, y, w, l, m, r)),
{
    lemma_put_cell(g, x, y, l);
    let g1 = put_cell(g, x, y, l);
    lemma_put_run(g1, x + 1, y, w - 2, m);
    lemma_put_cell(put_run(g1, x + 1, y, w - 2, m), x + w - 1, y, r);
}

proof fn lemma_rect_blank(g: Cells, x: int, y: int, w: int, k: int)
    requires
        ascii_cells(g),
    ensures
        ascii_cells(rect_blank(g, x, y, w, k)),
    decreases k,
{
    if k > 0 {
        lemma_rect_blank(g, x, y, w, k - 1);
        lemma_put_run(rect_blank(g, x, y, w, k - 1), x, y + k - 1, w, ' ');
    }
}

proof fn lemma_sides(g: Cells, x: int, y: int, w: int, k: int, c: char)
    requires
        ascii_cells(g),
        is_ascii_char(c),
    ensures
        ascii_cells(sides(g, x, y, w, k, c)),
    decreases k,
{
    if k > 0 {
        lemma_sides(g, x, y, w, k - 1, c);
        let g1 = sides(g, x, y, w, k - 1, c);
        lemma_put_cell(g1, x, y + k, c);
        lemma_put_cell(put_cell(g1, x, y + k, c), x + w - 1, y + k, c);
    }
}

proof fn lemma_col_run(g: Cells, x: int, y0: int, n: int, c: char)
    requires
        ascii_cells(g),
        is_ascii_char(c),
    ensures
        ascii_cells(col_run(g, x, y0, n, c)),
    decreases n,
{
    if n > 0 {
        lemma_col_run(g, x, y0, n - 1, c);
        lemma_put_cell(col_run(g, x, y0, n - 1, c), x, y0 + n - 1, c);
    }
}

proof fn lemma_box(g: Cells, x: int, y: int, w: int, h: int, label: Seq<char>)
    requires
        ascii_cells(g),
        ascii_text(label),
    ensures
        ascii_cells(box_spec(g, false, x, y, w, h, label)),
{
    lemma_rect_blank(g, x, y, w, h);
    let g0 = rect_blank(g, x, y, w, h);
    lemma_border_row(g0, x, y, w, '+', '-', '+');
    let g1 = border_row(g0, x, y, w, '+', '-', '+');
    lemma_sides(g1, x, y, w, h - 2, '|');
    lemma_border_row(sides(g1, x, y, w, h - 2, '|'), x, y + h - 1, w, '+', '-', '+');
    let g2 = border_row(sides(g1, x, y, w, h - 2, '|'), x, y + h - 1, w, '+', '-', '+');
    lemma_put_text(g2, crate::canvas::centred_start(x + w / 2, label.len() as int), y + h / 2, label);
}

proof fn lemma_choice(g: Cells, x: int, y: int, w: int, h: int, label: Seq<char>)
    requires
        ascii_cells(g),
        ascii_text(label),
    ensures
        ascii_cells(choice_spec(g, false, x, y, w, h, label)),
{
    lemma_box(g, x, y, w, h, label);
    let g1 = box_spec(g, false, x, y, w, h, label);
    lemma_put_cell(g1, x, y, '<');
    let g2 = put_cell(g1, x, y, '<');
    lemma_put_cell(g2, x + w - 1, y, '<');
    let g3 = put_cell(g2, x + w - 1, y, '<');
    lemma_put_cell(g3, x, y + h - 1, '<');
    lemma_put_cell(put_cell(g3, x, y + h - 1, '<'), x + w - 1, y + h - 1, '<');
}

proof fn lemma_terminal(g: Cells, x: int, y: int, w: int, is_start: bool)
    requires
        ascii_cells(g),
    ensures
        ascii_cells(terminal_spec(g, false, x, y, w, is_start)),
{
    lemma_rect_blank(g, x, y, w, 3);
    let t = terminal_glyph(false, is_start);
    assert(ascii_text(t));
    lemma_put_text(rect_blank(g, x, y, w, 3), crate::canvas::centred_start(x + w / 2, 3), y + 1, t);
}

proof fn lemma_single_edge(g: Cells, fx: int, fy: int, tx: int, ty: int)
    requires
        ascii_cells(g),
    ensures
        ascii_cells(single_edge_spec(g, false, fx, fy, tx, ty)),
{
    if fy >= ty {
    } else if fx == tx {
        lemma_col_run(g, fx, fy, ty - fy, '|');
        lemma_put_cell(col_run(g, fx, fy, ty - fy, '|'), fx, ty, 'v');
    } else {
        let mid = fy + (ty - fy) / 2;
        lemma_col_run(g, fx, fy, mid - fy, '|');
        lemma_put_cell(col_run(g, fx, fy, mid - fy, '|'), fx, mid, '+');
        let g1 = put_cell(col_run(g, fx, fy, mid - fy, '|'), fx, mid, '+');
        let (hs, he) = if tx > fx {
            (fx + 1, tx)
        } else {
            (tx + 1, fx)
        };
        lemma_put_run(g1, hs, mid, he - hs, '-');
        lemma_put_cell(put_run(g1, hs, mid, he - hs, '-'), tx, mid, '+');
        let g2 = put_cell(put_run(g1, hs, mid, he - hs, '-'), tx, mid, '+');
        lemma_col_run(g2, tx, mid + 1, ty - (mid + 1), '|');
        lemma_put_cell(col_run(g2, tx, mid + 1, ty - (mid + 1), '|'), tx, ty, 'v');
    }
}

proof fn lemma_backward(g: Cells, e: PositionedTransition)
    requires
        ascii_cells(g),
    ensures
        ascii_cells(backward_spec(g, false, e)),
{
    let lane_x = 1 + e.lane * 2;
    let fx = crate::canvas::sat_sub(e.from_x as int, 1);
    let tx = crate::canvas::sat_sub(e.to_x as int, 1);
    lemma_put_run(g, lane_x, e.from_y as int, span(lane_x, fx), '-');
    let g1 = put_run(g, lane_x, e.from_y as int, span(lane_x, fx), '-');
    let top = crate::er::renderer::lo(e.to_y as int, e.from_y as int);
    let bottom = crate::er::renderer::hi(e.to_y as int, e.from_y as int);
    lemma_col_run(g1, lane_x, top, bottom - top + 1, '|');
    let g2 = col_run(g1, lane_x, top, bottom - top + 1, '|');
    lemma_put_run(g2, lane_x, e.to_y as int, span(lane_x, tx - 1), '-');
    lemma_put_cell(put_run(g2, lane_x, e.to_y as int, span(lane_x, tx - 1), '-'), tx, e.to_y as int, '>');
}

proof fn lemma_horizontal(g: Cells, e: PositionedTransition)
    requires
        ascii_cells(g),
    ensures
        ascii_cells(horizontal_spec(g, false, e)),
{
    let right = e.from_x < e.to_x;
    let start: int = if right {
        e.from_x as int
    } else {
        e.to_x + 1
    };
    let end: int = if right {
        crate::canvas::sat_sub(e.to_x as int, 1)
    } else {
        e.from_x as int
    };
    let arrow = if right {
        '>'
    } else {
        '<'
    };
    lemma_put_run(g, start, e.from_y as int, span(start, end), '-');
    let g1 = put_run(g, start, e.from_y as int, span(start, end), '-');
    let ax = if right {
        end
    } else {
        start
    };
    let top = crate::er::renderer::lo(e.from_y as int, e.to_y as int);
    let bottom = crate::er::renderer::hi(e.from_y as int, e.to_y as int);
    lemma_col_run(g1, ax, top + 1, bottom - top - 1, '|');
    lemma_put_cell(col_run(g1, ax, top + 1, bottom - top - 1, '|'), ax, e.to_y as int, arrow);
}

proof fn lemma_self_loop(g: Cells, e: PositionedTransition)
    requires
        ascii_cells(g),
    ensures
        ascii_cells(self_loop_spec(g, false, e)),
{
    let loop_x = e.from_x + label_width(e.label) + 6 + e.lane * 2;
    lemma_put_run(g, e.from_x as int, e.from_y as int, span(e.from_x as int, loop_x), '-');
    let g1 = put_run(g, e.from_x as int, e.from_y as int, span(e.from_x as int, loop_x), '-');
    lemma_col_run(g1, loop_x, e.from_y as int, span(e.from_y as int, e.to_y + 1), '|');
    let g2 = col_run(g1, loop_x, e.from_y as int, span(e.from_y as int, e.to_y + 1), '|');
    lemma_put_run(g2, e.to_x as int, e.to_y + 1, span(e.to_x as int, loop_x - 1), '-');
    lemma_put_cell(put_run(g2, e.to_x as int, e.to_y + 1, span(e.to_x as int, loop_x - 1), '-'), e.to_x as int, e.to_y as int, '^');
}

proof fn lemma_note_lines(g: Cells, x: int, y: int, lines: Seq<Seq<char>>)
    requires
        ascii_cells(g),
        ascii_lines(lines),
    ensures
        ascii_cells(note_lines(g, x, y, lines)),
    decreases lines.len(),
{
    if lines.len() > 0 {
        let prev = lines.drop_last();
        assert forall|k: int| 0 <= k < prev.len() implies ascii_text(#[trigger] prev[k]) by {
            assert(prev[k] == lines[k]);
        }
        lemma_note_lines(g, x, y, prev);
        assert(ascii_text(lines[lines.len() - 1]));
        lemma_put_text(note_lines(g, x, y, prev), x + 1, y + lines.len(), lines.last());
    }
}

proof fn lemma_note(g: Cells, n: PositionedNote)
    requires
        ascii_cells(g),
        ascii_lines(n.text@.map_values(|l: String| l@)),
    ensures
        ascii_cells(note_spec(g, false, n)),
{
    let lines = n.text@.map_values(|l: String| l@);
    assert(ascii_text(Seq::<char>::empty()));
    lemma_box(g, n.x as int, n.y as int, n.width as int, lines.len() + 2int, Seq::empty());
    lemma_note_lines(
        box_spec(g, false, n.x as int, n.y as int, n.width as int, lines.len() + 2int, Seq::empty()),
        n.x as int,
        n.y as int,
        lines,
    );
}

proof fn lemma_split_branches(g: Cells, t: Seq<(int, int)>, jy: int, lx: int, rx: int)
    requires
        ascii_cells(g),
    ensures
        ascii_cells(split_branches(g, false, t, jy, lx, rx)),
    decreases t.len(),
{
    if t.len() > 0 {
        lemma_split_branches(g, t.drop_last(), jy, lx, rx);
        let g1 = split_branches(g, false, t.drop_last(), jy, lx, rx);
        let (tx, ty) = t.last();
        lemma_put_cell(g1, tx, jy, '+');
        lemma_col_run(put_cell(g1, tx, jy, '+'), tx, jy + 1, ty - (jy + 1), '|');
        lemma_put_cell(col_run(put_cell(g1, tx, jy, '+'), tx, jy + 1, ty - (jy + 1), '|'), tx, ty, 'v');
    }
}

proof fn lemma_split(g: Cells, fx: int, fy: int, t: Seq<(int, int)>)
    requires
        ascii_cells(g),
    ensures
        ascii_cells(split_spec(g, false, fx, fy, t)),
{
    if t.len() > 0 {
        let jy = fy + (min_y(t) - fy) / 2;
        let lx = min_x(t);
        let rx = max_x(t);
        lemma_col_run(g, fx, fy, jy - fy, '|');
        lemma_put_run(col_run(g, fx, fy, jy - fy, '|'), lx, jy, rx - lx + 1, '-');
        let g1 = put_run(col_run(g, fx, fy, jy - fy, '|'), lx, jy, rx - lx + 1, '-');
        lemma_put_cell(g1, fx, jy, '+');
        lemma_split_branches(put_cell(g1, fx, jy, '+'), t, jy, lx, rx);
    }
}

proof fn lemma_merge_branches(g: Cells, s: Seq<(int, int)>, jy: int, lx: int, rx: int)
    requires
        ascii_cells(g),
    ensures
        ascii_cells(merge_branches(g, false, s, jy, lx, rx)),
    decreases s.len(),
{
    if s.len() > 0 {
        lemma_merge_branches(g, s.drop_last(), jy, lx, rx);
        let g1 = merge_branches(g, false, s.drop_last(), jy, lx, rx);
        let (sx, sy) = s.last();
        lemma_col_run(g1, sx, sy, jy - sy, '|');
        lemma_put_cell(col_run(g1, sx, sy, jy - sy, '|'), sx, jy, '+');
    }
}

proof fn lemma_merge_bar(g: Cells, x0: int, n: int, y: int, c: char)
    requires
        ascii_cells(g),
        is_ascii_char(c),
    ensures
        ascii_cells(merge_bar(g, x0, n, y, c)),
    decreases n,
{
    if n > 0 {
        lemma_merge_bar(g, x0, n - 1, y, c);
        lemma_put_cell(merge_bar(g, x0, n - 1, y, c), x0 + n - 1, y, c);
    }
}

proof fn lemma_merge(g: Cells, s: Seq<(int, int)>, tx: int, ty: int)
    requires
        ascii_cells(g),
    ensures
        ascii_cells(merge_spec(g, false, s, tx, ty)),
{
    if s.len() > 0 {
        let my = max_y(s);
        let jy = my + crate::canvas::sat_sub(ty, my) / 2;
        let lx = min_x(s);
        let rx = max_x(s);
        lemma_merge_branches(g, s, jy, lx, rx);
        lemma_merge_bar(merge_branches(g, false, s, jy, lx, rx), lx, rx - lx + 1, jy, '-');
        let g1 = merge_bar(merge_branches(g, false, s, jy, lx, rx), lx, rx - lx + 1, jy, '-');
        lemma_put_cell(g1, tx, jy, '+');
        lemma_col_run(put_cell(g1, tx, jy, '+'), tx, jy + 1, ty - (jy + 1), '|');
        lemma_put_cell(col_run(put_cell(g1, tx, jy, '+'), tx, jy + 1, ty - (jy + 1), '|'), tx, ty, 'v');
    }
}

proof fn lemma_words(s: Seq<char>)
    requires
        ascii_text(s),
    ensures
        ascii_lines(words_of(s)),
    decreases s.len(), 1nat,
{
    if s.len() > 0 {
        if crate::text::is_space(s[0]) {
            lemma_words(s.drop_first());
        } else {
            lemma_words_from(s);
        }
    }
}

proof fn lemma_words_from(s: Seq<char>)
    requires
        ascii_text(s),
    ensures
        ascii_lines(words_from_word(s)),
    decreases s.len(), 0nat,
{
    if s.len() > 0 && !crate::text::is_space(s[0]) {
        crate::canvas::lemma_word_len(s);
        let n = crate::canvas::word_len(s) as int;
        lemma_words(s.skip(n));
        let ws = seq![s.take(n)] + words_of(s.skip(n));
        assert forall|k: int| 0 <= k < ws.len() implies ascii_text(#[trigger] ws[k]) by {
            if k > 0 {
                assert(ws[k] == words_of(s.skip(n))[k - 1]);
            }
        }
    }
}

proof fn lemma_wrap(words: Seq<Seq<char>>, w: int)
    requires
        ascii_lines(words),
    ensures
        ascii_lines(wrap_words(words, w)),
    decreases words.len(),
{
    if words.len() > 0 {
        let prev = words.drop_last();
        assert forall|k: int| 0 <= k < prev.len() implies ascii_text(#[trigger] prev[k]) by {
            assert(prev[k] == words[k]);
        }
        lemma_wrap(prev, w);
        let rest = wrap_words(prev, w);
        let last = words.last();
        assert(ascii_text(words[words.len() - 1]));
        let out = wrap_words(words, w);
        if rest.len() > 0 && rest.last().len() + 1 + last.len() <= w {
            let joined = rest.last() + seq![' '] + last;
            assert(ascii_text(rest[rest.len() - 1]));
            assert forall|i: int| 0 <= i < joined.len() implies is_ascii_char(#[trigger] joined[i]) by {
                if i < rest.last().len() {
                    assert(joined[i] == rest.last()[i]);
                } else if i > rest.last().len() {
                    assert(joined[i] == last[i - rest.last().len() - 1]);
                }
            }
            assert forall|k: int| 0 <= k < out.len() implies ascii_text(#[trigger] out[k]) by {
                if k < out.len() - 1 {
                    assert(out[k] == rest[k]);
                } else {
                    assert(out[k] == joined);
                }
            }
        } else {
            assert forall|k: int| 0 <= k < out.len() implies ascii_text(#[trigger] out[k]) by {
                if k < rest.len() {
                    assert(out[k] == rest[k]);
                }
            }
        }
    }
}

proof fn lemma_centred_lines(g: Cells, cx: int, y: int, lines: Seq<Seq<char>>)
    requires
        ascii_cells(g),
        ascii_lines(lines),
    ensures
        ascii_cells(centred_lines(g, cx, y, lines)),
    decreases lines.len(),
{
    if lines.len() > 0 {
        let prev = lines.drop_last();
        assert forall|k: int| 0 <= k < prev.len() implies ascii_text(#[trigger] prev[k]) by {
            assert(prev[k] == lines[k]);
        }
        lemma_centred_lines(g, cx, y, prev);
        assert(ascii_text(lines[lines.len() - 1]));
        let last = lines.last();
        lemma_put_text(
            centred_lines(g, cx, y, prev),
            crate::canvas::centred_start(cx, last.len() as int),
            y + lines.len() - 1,
            last,
        );
    }
}

proof fn lemma_label(g: Cells, e: PositionedTransition)
    requires
        ascii_cells(g),
        e.label matches Some(l) ==> ascii_text(l@),
    ensures
        ascii_cells(label_spec(g, e)),
{
    match e.label {
        None => {},
        Some(l) => {
            lemma_words(l@);
            let lines = wrap_words(words_of(l@), super::layout::MAX_TRANSITION_LABEL_WIDTH as int);
            lemma_wrap(words_of(l@), super::layout::MAX_TRANSITION_LABEL_WIDTH as int);
            let w = crate::canvas::widest(lines) as int;
            let n = lines.len() as int;
            let (cx, sy) = match e.route {
                super::layout::TransitionRoute::Forward => {
                    let mid = e.from_y + crate::canvas::sat_sub(e.to_y as int, e.from_y as int) / 2;
                    (e.to_x as int, crate::canvas::sat_sub(mid, n))
                },
                super::layout::TransitionRoute::Backward => (crate::canvas::sat_sub(e.from_x as int, w / 2 + 4), e.from_y + 3),
                super::layout::TransitionRoute::Horizontal => ((e.from_x + e.to_x) / 2, crate::canvas::sat_sub(e.from_y as int, n)),
                super::layout::TransitionRoute::SelfLoop => (e.from_x + w / 2 + 4 + e.lane * 2, e.from_y as int),
            };
            lemma_centred_lines(g, cx, sy, lines);
        },
    }
}

proof fn lemma_all_splits(g: Cells, ts: Seq<PositionedTransition>, k: int)
    requires
        ascii_cells(g),
    ensures
        ascii_cells(all_splits(g, false, ts, k)),
    decreases k,
{
    if k > 0 {
        lemma_all_splits(g, ts, k - 1);
        let g1 = all_splits(g, false, ts, k - 1);
        let e = ts[k - 1];
        lemma_split(g1, e.from_x as int, e.from_y as int, split_targets(ts, fwd_from(ts, e.from_id@, ts.len() as int)));
    }
}

proof fn lemma_all_merges(g: Cells, ts: Seq<PositionedTransition>, k: int)
    requires
        ascii_cells(g),
    ensures
        ascii_cells(all_merges(g, false, ts, k)),
    decreases k,
{
    if k > 0 {
        lemma_all_merges(g, ts, k - 1);
        let g1 = all_merges(g, false, ts, k - 1);
        let e = ts[k - 1];
        let und = unsplit_into(ts, e.to_id@, ts.len() as int);
        if first_into(ts, k - 1) && und.len() > 1 {
            let f = ts[und[0]];
            lemma_merge(g1, merge_sources(ts, und), f.to_x as int, crate::canvas::sat_sub(f.to_y as int, 1));
        }
    }
}

proof fn lemma_all_edges(g: Cells, ts: Seq<PositionedTransition>, k: int)
    requires
        ascii_cells(g),
    ensures
        ascii_cells(all_edges(g, false, ts, k)),
    decreases k,
{
    if k > 0 {
        lemma_all_edges(g, ts, k - 1);
        let g1 = all_edges(g, false, ts, k - 1);
        let e = ts[k - 1];
        match e.route {
            super::layout::TransitionRoute::Forward => {
                lemma_single_edge(g1, e.from_x as int, e.from_y as int, e.to_x as int, crate::canvas::sat_sub(e.to_y as int, 1));
            },
            super::layout::TransitionRoute::Backward => lemma_backward(g1, e),
            super::layout::TransitionRoute::Horizontal => lemma_horizontal(g1, e),
            super::layout::TransitionRoute::SelfLoop => lemma_self_loop(g1, e),
        }
    }
}

proof fn lemma_all_labels(g: Cells, ts: Seq<PositionedTransition>, k: int)
    requires
        ascii_cells(g),
        k <= ts.len(),
        forall|j: int| 0 <= j < ts.len() ==> ((#[trigger] ts[j]).label matches Some(l) ==> ascii_text(l@)),
    ensures
        ascii_cells(all_labels(g, ts, k)),
    decreases k,
{
    if k > 0 {
        lemma_all_labels(g, ts, k - 1);
        assert(ts[k - 1].label matches Some(l) ==> ascii_text(l@));
        lemma_label(all_labels(g, ts, k - 1), ts[k - 1]);
    }
}

proof fn lemma_all_notes(g: Cells, ns: Seq<PositionedNote>, k: int)
    requires
        ascii_cells(g),
        k <= ns.len(),
        forall|j: int| 0 <= j < ns.len() ==> ascii_lines((#[trigger] ns[j]).text@.map_values(|l: String| l@)),
    ensures
        ascii_cells(all_notes(g, false, ns, k)),
    decreases k,
{
    if k > 0 {
        lemma_all_notes(g, ns, k - 1);
        assert(ascii_lines(ns[k - 1].text@.map_values(|l: String| l@)));
        lemma_note(all_notes(g, false, ns, k - 1), ns[k - 1]);
    }
}

proof fn lemma_all_states(g: Cells, ss: Seq<PositionedState>, k: int)
    requires
        ascii_cells(g),
        k <= ss.len(),
        forall|j: int| 0 <= j < ss.len() ==> ascii_text((#[trigger] ss[j]).label@),
    ensures
        ascii_cells(all_states(g, false, ss, k)),
    decreases k,
{
    if k > 0 {
        lemma_all_states(g, ss, k - 1);
        let g1 = all_states(g, false, ss, k - 1);
        let s = ss[k - 1];
        assert(ascii_text(s.label@));
        match s.shape {
            NodeShape::Terminal => lemma_terminal(g1, s.x as int, s.y as int, s.width as int, s.id@ == super::database::start_id()),
            NodeShape::Diamond => lemma_choice(g1, s.x as int, s.y as int, s.width as int, s.height as int, s.label@),
            _ => lemma_box(g1, s.x as int, s.y as int, s.width as int, s.height as int, s.label@),
        }
    }
}

proof fn lemma_join_lines(rows: Seq<Seq<char>>)
    requires
        ascii_lines(rows),
    ensures
        ascii_text(join_lines(rows)),
    decreases rows.len(),
{
    if rows.len() > 1 {
        let prev = rows.drop_last();
        assert forall|k: int| 0 <= k < prev.len() implies ascii_text(#[trigger] prev[k]) by {
            assert(prev[k] == rows[k]);
        }
        lemma_join_lines(prev);
        let a = join_lines(prev);
        let b = rows.last();
        assert(ascii_text(rows[rows.len() - 1]));
        let t = a + seq!['\n'] + b;
        assert forall|i: int| 0 <= i < t.len() implies is_ascii_char(#[trigger] t[i]) by {
            if i < a.len() {
                assert(t[i] == a[i]);
            } else if i > a.len() {
                assert(t[i] == b[i - a.len() - 1]);
            }
        }
    } else if rows.len() == 1 {
        assert(ascii_text(rows[0]));
    }
}

proof fn lemma_printed_rows(g: Cells)
    ensures
        printed_rows(g) <= g.len(),
    decreases g.len(),
{
    if g.len() > 0 {
        lemma_printed_rows(g.drop_last());
    }
}

proof fn lemma_trailing_blanks(r: Seq<char>)
    ensures
        crate::canvas::trailing_blanks(r) <= r.len(),
    decreases r.len(),
{
    if r.len() > 0 {
        lemma_trailing_blanks(r.drop_last());
    }
}

proof fn lemma_grid_text(g: Cells)
    requires
        ascii_cells(g),
    ensures
        ascii_text(grid_text(g)),
{
    let n = printed_rows(g) as int;
    lemma_printed_rows(g);
    let rows = g.take(n).map_values(|r: Seq<char>| strip_row(r));
    assert forall|k: int| 0 <= k < rows.len() implies ascii_text(#[trigger] rows[k]) by {
        let r = g[k];
        assert(rows[k] == strip_row(r));
        lemma_trailing_blanks(r);
        assert forall|i: int| 0 <= i < strip_row(r).len() implies is_ascii_char(#[trigger] strip_row(r)[i]) by {
            assert(strip_row(r)[i] == r[i]);
            assert(is_ascii_char(g[k][i]));
        }
    }
    lemma_join_lines(rows);
}

/// A layout whose labels and note lines are ASCII is drawn in ASCII style
/// with ASCII characters only.
pub proof fn lemma_ascii_picture(l: StateLayoutResult)
    requires
        forall|j: int| 0 <= j < l.states.len() ==> ascii_text((#[trigger] l.states@[j]).label@),
        forall|j: int|
            0 <= j < l.transitions.len() ==> ((#[trigger] l.transitions@[j]).label matches Some(t) ==> ascii_text(t@)),
        forall|j: int|
            0 <= j < l.notes.len() ==> ascii_lines((#[trigger] l.notes@[j]).text@.map_values(|s: String| s@)),
    ensures
        ascii_text(state_picture(l, false)),
{
    if l.states.len() > 0 {
        let ts = l.transitions@;
        let t = ts.len() as int;
        let g0 = blank(l.width + 20, l.height + 2 * t + 2);
        assert(ascii_cells(g0));
        lemma_all_splits(g0, ts, t);
        lemma_all_merges(all_splits(g0, false, ts, t), ts, t);
        let gm = all_merges(all_splits(g0, false, ts, t), false, ts, t);
        lemma_all_edges(gm, ts, t);
        let g1 = all_edges(gm, false, ts, t);
        lemma_all_labels(g1, ts, t);
        lemma_all_notes(all_labels(g1, ts, t), l.notes@, l.notes.len() as int);
        let g2 = all_notes(all_labels(g1, ts, t), false, l.notes@, l.notes.len() as int);
        lemma_all_states(g2, l.states@, l.states.len() as int);
        lemma_grid_text(all_states(g2, false, l.states@, l.states.len() as int));
    }
}

proof fn lemma_placed_notes(sv: super::layout::StateViews, nv: super::layout::NoteViews, k: int)
    requires
        0 <= k <= nv.len(),
    ensures
        forall|q: int| 0 <= q < placed_notes(sv, nv, k).len() ==> 0 <= #[trigger] placed_notes(sv, nv, k)[q] < k,
    decreases k,
{
    if k > 0 {
        lemma_placed_notes(sv, nv, k - 1);
        let prev = placed_notes(sv, nv, k - 1);
        let cur = placed_notes(sv, nv, k);
        assert forall|q: int| 0 <= q < cur.len() implies 0 <= #[trigger] cur[q] < k by {
            if q < prev.len() {
                assert(cur[q] == prev[q]);
            }
        }
    }
}

/// Drawn in ASCII style, the layout of a database whose state labels,
/// transition labels and note lines are ASCII consists of ASCII characters
/// only.
pub proof fn lemma_ascii_drawing(db: &StateDatabase, l: StateLayoutResult)
    requires
        state_layout_ok(db, l),
        ascii_database(db),
    ensures
        ascii_text(state_picture(l, false)),
{
    let sv = db.state_views();
    let tv = db.transition_views();
    let nv = db.note_views();
    if sv.len() > 0 {
        let n = sv.len() as int;
        let (r, m) = choose|r: Seq<usize>, m: usize|
            #[trigger] ranks_ok(edge_indices(sv, tv), rank_start(sv, db.start_flag()), n, r, m)
                && #[trigger] layout_matches(db, l, r);
        let order = rank_order(r, max_rank(r, n) + 1);
        lemma_rank_order(r, max_rank(r, n) + 1);
        assert forall|j: int| 0 <= j < l.states.len() implies ascii_text((#[trigger] l.states@[j]).label@) by {
            assert(state_placed_ok(l.states@[j], sv, tv, nv, r, order[j]));
            assert(ascii_text(sv[order[j]].1));
        }
        assert forall|j: int|
            0 <= j < l.transitions.len() implies ((#[trigger] l.transitions@[j]).label matches Some(t) ==> ascii_text(t@)) by {
            assert(trans_placed_ok(l.transitions@[j], sv, tv, nv, r, j));
            assert(label_view(l.transitions@[j].label) == tv[j].3);
            assert(tv[j].3 matches Some(t) ==> ascii_text(t));
        }
        let pn = placed_notes(sv, nv, nv.len() as int);
        lemma_placed_notes(sv, nv, nv.len() as int);
        assert forall|j: int|
            0 <= j < l.notes.len() implies ascii_lines((#[trigger] l.notes@[j]).text@.map_values(|s: String| s@)) by {
            assert(note_placed_ok(l.notes@[j], sv, tv, nv, r, pn[j]));
            assert(ascii_lines(nv[pn[j]].2));
        }
        lemma_ascii_picture(l);
    }
}

} // verus!
