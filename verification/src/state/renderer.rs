//! Drawing of laid-out state diagrams.
use super::ascii::{ascii_database, ascii_text, lemma_ascii_drawing};
use super::database::{start_id, StateDatabase};
use super::layout::{
    label_w_of, state_drawable, state_fits, state_layout_ok, transition_label_width, DRAW_LIMIT, PositionedNote, PositionedState,
    PositionedTransition, StateLayoutAlgorithm, StateLayoutResult, TransitionRoute,
    MAX_TRANSITION_LABEL_WIDTH,
};
use super::picture::{
    all_edges, all_labels, all_merges, all_notes, all_splits, all_states, backward_spec, box_spec,
    centred_lines, choice_spec, col_run, fcount, first_from, first_into, fwd_from, grouped,
    horizontal_spec, is_fwd, label_spec, label_width, max_x, max_y, merge_bar, merge_branches,
    merge_sources, merge_spec, min_x, min_y, note_lines, note_spec, pick, rect_blank,
    self_loop_spec, sides, single_edge_spec, span, split_branches, split_spec, split_targets,
    state_picture, state_spec, terminal_glyph, terminal_spec, unsplit_into,
};
use crate::canvas::{
    blank, cell_of, centred_start, put_cell, put_run, put_text, sat_sub, widest, words_of,
    wrap_words, AsciiCanvas, Cells,
};
use crate::er::renderer::{border_row, hi, lo};
use crate::model::{CharacterSet, DiagramError, NodeShape};
use vstd::prelude::*;

verus! {

/// Renderer for state diagrams.
pub struct StateRenderer {
    style: CharacterSet,
}

fn draw_row_run(canvas: &mut AsciiCanvas, x: usize, y: usize, n: usize, c: char)
    requires
        old(canvas).wf(),
    ensures
        final(canvas).wf(),
        final(canvas).width == old(canvas).width,
        final(canvas).height == old(canvas).height,
        final(canvas).cells() == put_run(old(canvas).cells(), x as int, y as int, n as int, c),
{
    canvas.draw_horizontal_line(x, y, n, c);
}

/// Cells `c` in column `x` from row `y0`, `n` of them.
fn draw_col_run(canvas: &mut AsciiCanvas, x: usize, y0: usize, n: usize, c: char)
    requires
        old(canvas).wf(),
        y0 + n <= usize::MAX,
    ensures
        final(canvas).wf(),
        final(canvas).width == old(canvas).width,
        final(canvas).height == old(canvas).height,
        final(canvas).cells() == col_run(old(canvas).cells(), x as int, y0 as int, n as int, c),
{
    let ghost g = canvas.cells();
    let mut k: usize = 0;
    while k < n
        invariant
            canvas.wf(),
            canvas.width == old(canvas).width,
            canvas.height == old(canvas).height,
            y0 + n <= usize::MAX,
            k <= n,
            canvas.cells() == col_run(g, x as int, y0 as int, k as int, c),
        decreases n - k,
    {
        canvas.set_char(x, y0 + k, c);
        k += 1;
    }
}

/// `k` blank rows of `w` cells from `(x, y)`.
fn draw_rect_blank(canvas: &mut AsciiCanvas, x: usize, y: usize, w: usize, h: usize)
    requires
        old(canvas).wf(),
        y + h <= usize::MAX,
    ensures
        final(canvas).wf(),
        final(canvas).width == old(canvas).width,
        final(canvas).height == old(canvas).height,
        final(canvas).cells() == rect_blank(old(canvas).cells(), x as int, y as int, w as int, h as int),
{
    let ghost g = canvas.cells();
    let mut k: usize = 0;
    while k < h
        invariant
            canvas.wf(),
            canvas.width == old(canvas).width,
            canvas.height == old(canvas).height,
            y + h <= usize::MAX,
            k <= h,
            canvas.cells() == rect_blank(g, x as int, y as int, w as int, k as int),
        decreases h - k,
    {
        canvas.draw_horizontal_line(x, y + k, w, ' ');
        k += 1;
    }
}

fn draw_border(canvas: &mut AsciiCanvas, x: usize, y: usize, w: usize, l: char, m: char, r: char)
    requires
        old(canvas).wf(),
        2 <= w,
        x + w <= usize::MAX,
    ensures
        final(canvas).wf(),
        final(canvas).width == old(canvas).width,
        final(canvas).height == old(canvas).height,
        final(canvas).cells() == border_row(old(canvas).cells(), x as int, y as int, w as int, l, m, r),
{
    canvas.set_char(x, y, l);
    canvas.draw_horizontal_line(x + 1, y, w - 2, m);
    canvas.set_char(x + w - 1, y, r);
}

impl StateRenderer {
    pub closed spec fn unicode(&self) -> bool {
        self.style != CharacterSet::Ascii
    }

    /// A renderer with the default (Unicode) characters.
    pub fn new() -> (r: Self)
        ensures
            r.unicode(),
    {
        StateRenderer { style: CharacterSet::default_set() }
    }

    /// A renderer with the given characters.
    pub fn with_style(style: CharacterSet) -> (r: Self)
        ensures
            r.unicode() == (style != CharacterSet::Ascii),
    {
        StateRenderer { style }
    }

    /// The renderer's name.
    pub fn name(&self) -> (r: &'static str)
        ensures
            r@ == "ascii"@,
    {
        "ascii"
    }

    /// The renderer's version.
    pub fn version(&self) -> (r: &'static str)
        ensures
            r@ == "0.1.0"@,
    {
        "0.1.0"
    }

    /// The output format.
    pub fn format(&self) -> (r: &'static str)
        ensures
            r@ == "ascii"@,
    {
        "ascii"
    }

    fn is_unicode(&self) -> (r: bool)
        ensures
            r == self.unicode(),
    {
        !self.style.is_ascii()
    }

    fn ch(&self, uni: char, asc: char) -> (r: char)
        ensures
            r == pick(self.unicode(), uni, asc),
    {
        if self.is_unicode() {
            uni
        } else {
            asc
        }
    }

    /// A terminal: the start `(●)` or the end `(○)` (`(*)` and `(o)` in
    /// ASCII), centred in three cleared rows.
    fn draw_terminal(&self, canvas: &mut AsciiCanvas, x: usize, y: usize, width: usize, is_start: bool)
        requires
            old(canvas).wf(),
            x + width <= DRAW_LIMIT,
            y <= DRAW_LIMIT,
        ensures
            final(canvas).wf(),
            final(canvas).width == old(canvas).width,
            final(canvas).height == old(canvas).height,
            final(canvas).cells() == terminal_spec(old(canvas).cells(), self.unicode(), x as int, y as int, width as int, is_start),
    {
        let center_x = x + width / 2;
        draw_rect_blank(canvas, x, y, width, 3);
        let glyph: &str = if self.is_unicode() {
            if is_start {
                proof {
                    reveal_strlit("(●)");
                }
                "(●)"
            } else {
                proof {
                    reveal_strlit("(○)");
                }
                "(○)"
            }
        } else if is_start {
            proof {
                reveal_strlit("(*)");
            }
            "(*)"
        } else {
            proof {
                reveal_strlit("(o)");
            }
            "(o)"
        };
        assert(glyph@ == terminal_glyph(self.unicode(), is_start));
        canvas.draw_text_centered(center_x, y + 1, glyph);
    }

    /// A box with a centred label, cleared inside.
    fn draw_state_box(&self, canvas: &mut AsciiCanvas, x: usize, y: usize, width: usize, height: usize, label: &str)
        requires
            old(canvas).wf(),
            2 <= width,
            2 <= height,
            x + width <= DRAW_LIMIT,
            y + height <= DRAW_LIMIT,
        ensures
            final(canvas).wf(),
            final(canvas).width == old(canvas).width,
            final(canvas).height == old(canvas).height,
            final(canvas).cells() == box_spec(
                old(canvas).cells(),
                self.unicode(),
                x as int,
                y as int,
                width as int,
                height as int,
                label@,
            ),
    {
        let hz = self.ch('─', '-');
        let v = self.ch('│', '|');
        draw_rect_blank(canvas, x, y, width, height);
        draw_border(canvas, x, y, width, self.ch('┌', '+'), hz, self.ch('┐', '+'));
        let ghost g = canvas.cells();
        let mut row: usize = 1;
        while row < height - 1
            invariant
                canvas.wf(),
                canvas.width == old(canvas).width,
                canvas.height == old(canvas).height,
                2 <= width,
                2 <= height,
                x + width <= DRAW_LIMIT,
                y + height <= DRAW_LIMIT,
                1 <= row <= height - 1,
                canvas.cells() == sides(g, x as int, y as int, width as int, row - 1, v),
            decreases height - 1 - row,
        {
            canvas.set_char(x, y + row, v);
            canvas.set_char(x + width - 1, y + row, v);
            row += 1;
        }
        draw_border(canvas, x, y + height - 1, width, self.ch('└', '+'), hz, self.ch('┘', '+'));
        canvas.draw_text_centered(x + width / 2, y + height / 2, label);
    }

    /// A choice: a box with diamond corners (`◆`, or `<` in ASCII).
    fn draw_choice(&self, canvas: &mut AsciiCanvas, x: usize, y: usize, width: usize, height: usize, label: &str)
        requires
            old(canvas).wf(),
            2 <= width,
            2 <= height,
            x + width <= DRAW_LIMIT,
            y + height <= DRAW_LIMIT,
        ensures
            final(canvas).wf(),
            final(canvas).width == old(canvas).width,
            final(canvas).height == old(canvas).height,
            final(canvas).cells() == choice_spec(
                old(canvas).cells(),
                self.unicode(),
                x as int,
                y as int,
                width as int,
                height as int,
                label@,
            ),
    {
        self.draw_state_box(canvas, x, y, width, height, label);
        let corner = self.ch('◆', '<');
        canvas.set_char(x, y, corner);
        canvas.set_char(x + width - 1, y, corner);
        canvas.set_char(x, y + height - 1, corner);
        canvas.set_char(x + width - 1, y + height - 1, corner);
    }

    /// A downward edge from `(from_x, from_y)` to an arrow at `(to_x, to_y)`.
    fn draw_single_edge(&self, canvas: &mut AsciiCanvas, from_x: usize, from_y: usize, to_x: usize, to_y: usize)
        requires
            old(canvas).wf(),
            from_x <= DRAW_LIMIT,
            from_y <= DRAW_LIMIT,
            to_x <= DRAW_LIMIT,
            to_y <= DRAW_LIMIT,
        ensures
            final(canvas).wf(),
            final(canvas).width == old(canvas).width,
            final(canvas).height == old(canvas).height,
            final(canvas).cells() == single_edge_spec(
                old(canvas).cells(),
                self.unicode(),
                from_x as int,
                from_y as int,
                to_x as int,
                to_y as int,
            ),
    {
        if from_y >= to_y {
            return;
        }
        let arrow_down = self.ch('▼', 'v');
        let v_line = self.ch('│', '|');
        let h_line = self.ch('─', '-');
        if from_x == to_x {
            draw_col_run(canvas, from_x, from_y, to_y - from_y, v_line);
            canvas.set_char(from_x, to_y, arrow_down);
        } else {
            let mid_y = from_y + (to_y - from_y) / 2;
            draw_col_run(canvas, from_x, from_y, mid_y - from_y, v_line);
            let corner1 = if self.is_unicode() {
                if to_x > from_x {
                    '└'
                } else {
                    '┘'
                }
            } else {
                '+'
            };
            canvas.set_char(from_x, mid_y, corner1);
            let (h_start, h_end) = if to_x > from_x {
                (from_x + 1, to_x)
            } else {
                (to_x + 1, from_x)
            };
            draw_row_run(canvas, h_start, mid_y, h_end - h_start, h_line);
            let corner2 = if self.is_unicode() {
                if to_x > from_x {
                    '┐'
                } else {
                    '┌'
                }
            } else {
                '+'
            };
            canvas.set_char(to_x, mid_y, corner2);
            let n = if to_y > mid_y + 1 {
                to_y - (mid_y + 1)
            } else {
                0
            };
            draw_col_run(canvas, to_x, mid_y + 1, n, v_line);
            canvas.set_char(to_x, to_y, arrow_down);
        }
    }
}


impl StateRenderer {
    /// A backward edge: left along its row to the lane, along the lane to
    /// the target's row, and right into an arrow before the target.
    fn draw_backward_edge(&self, canvas: &mut AsciiCanvas, edge: &PositionedTransition)
        requires
            old(canvas).wf(),
            edge.from_x <= DRAW_LIMIT,
            edge.from_y <= DRAW_LIMIT,
            edge.to_x <= DRAW_LIMIT,
            edge.to_y <= DRAW_LIMIT,
            edge.lane <= DRAW_LIMIT,
        ensures
            final(canvas).wf(),
            final(canvas).width == old(canvas).width,
            final(canvas).height == old(canvas).height,
            final(canvas).cells() == backward_spec(old(canvas).cells(), self.unicode(), *edge),
    {
        let horizontal = self.ch('─', '-');
        let vertical = self.ch('│', '|');
        let arrow = self.ch('▶', '>');
        let lane_x = 1 + edge.lane * 2;
        let from_x = if edge.from_x >= 1 {
            edge.from_x - 1
        } else {
            0
        };
        let to_x = if edge.to_x >= 1 {
            edge.to_x - 1
        } else {
            0
        };
        let n1 = if from_x >= lane_x {
            from_x - lane_x + 1
        } else {
            0
        };
        draw_row_run(canvas, lane_x, edge.from_y, n1, horizontal);
        let (top, bottom) = if edge.to_y < edge.from_y {
            (edge.to_y, edge.from_y)
        } else {
            (edge.from_y, edge.to_y)
        };
        draw_col_run(canvas, lane_x, top, bottom - top + 1, vertical);
        let n2 = if to_x > lane_x {
            to_x - lane_x
        } else {
            0
        };
        draw_row_run(canvas, lane_x, edge.to_y, n2, horizontal);
        canvas.set_char(to_x, edge.to_y, arrow);
    }

    /// A sideways edge along the source row to an arrow before the target,
    /// turning into the target's row when the rows differ.
    pub fn draw_horizontal_edge(&self, canvas: &mut AsciiCanvas, edge: &PositionedTransition)
        requires
            old(canvas).wf(),
            edge.from_x <= DRAW_LIMIT,
            edge.from_y <= DRAW_LIMIT,
            edge.to_x <= DRAW_LIMIT,
            edge.to_y <= DRAW_LIMIT,
        ensures
            final(canvas).wf(),
            final(canvas).width == old(canvas).width,
            final(canvas).height == old(canvas).height,
            final(canvas).cells() == horizontal_spec(old(canvas).cells(), self.unicode(), *edge),
    {
        let line = self.ch('─', '-');
        let right = edge.from_x < edge.to_x;
        let (start, end, arrow) = if right {
            (
                edge.from_x,
                if edge.to_x >= 1 {
                    edge.to_x - 1
                } else {
                    0
                },
                self.ch('▶', '>'),
            )
        } else {
            (edge.to_x + 1, edge.from_x, self.ch('◀', '<'))
        };
        let n = if end >= start {
            end - start + 1
        } else {
            0
        };
        draw_row_run(canvas, start, edge.from_y, n, line);
        let arrow_x = if right {
            end
        } else {
            start
        };
        let (top, bottom) = if edge.from_y < edge.to_y {
            (edge.from_y, edge.to_y)
        } else {
            (edge.to_y, edge.from_y)
        };
        let vertical = self.ch('│', '|');
        let m = if bottom > top + 1 {
            bottom - top - 1
        } else {
            0
        };
        let ghost g = canvas.cells();
        draw_col_run(canvas, arrow_x, top + 1, m, vertical);
        assert(col_run(g, arrow_x as int, top + 1, m as int, vertical) == col_run(
            g,
            arrow_x as int,
            top + 1,
            bottom - top - 1,
            vertical,
        ));
        canvas.set_char(arrow_x, edge.to_y, arrow);
    }

    /// A self-loop: right along the state's middle row past the label, down
    /// the loop column, back left under the state into an up arrow.
    fn draw_self_loop(&self, canvas: &mut AsciiCanvas, edge: &PositionedTransition)
        requires
            old(canvas).wf(),
            edge.from_x <= DRAW_LIMIT,
            edge.from_y <= DRAW_LIMIT,
            edge.to_x <= DRAW_LIMIT,
            edge.to_y <= DRAW_LIMIT,
            edge.lane <= DRAW_LIMIT,
            label_width(edge.label) <= DRAW_LIMIT,
        ensures
            final(canvas).wf(),
            final(canvas).width == old(canvas).width,
            final(canvas).height == old(canvas).height,
            final(canvas).cells() == self_loop_spec(old(canvas).cells(), self.unicode(), *edge),
    {
        let horizontal = self.ch('─', '-');
        let vertical = self.ch('│', '|');
        let arrow = self.ch('▲', '^');
        let label_w = match &edge.label {
            Some(l) => transition_label_width(l.as_str()),
            None => 0,
        };
        let loop_x = edge.from_x + label_w + 6 + edge.lane * 2;
        draw_row_run(canvas, edge.from_x, edge.from_y, loop_x - edge.from_x + 1, horizontal);
        let n = if edge.to_y + 1 >= edge.from_y {
            edge.to_y + 1 - edge.from_y + 1
        } else {
            0
        };
        draw_col_run(canvas, loop_x, edge.from_y, n, vertical);
        let m = if loop_x > edge.to_x {
            loop_x - edge.to_x
        } else {
            0
        };
        draw_row_run(canvas, edge.to_x, edge.to_y + 1, m, horizontal);
        canvas.set_char(edge.to_x, edge.to_y, arrow);
    }

    /// A note: an empty box with the note's lines inside.
    fn draw_note(&self, canvas: &mut AsciiCanvas, note: &PositionedNote)
        requires
            old(canvas).wf(),
            2 <= note.width,
            note.x + note.width <= DRAW_LIMIT,
            note.y + note.text.len() + 2 <= DRAW_LIMIT,
        ensures
            final(canvas).wf(),
            final(canvas).width == old(canvas).width,
            final(canvas).height == old(canvas).height,
            final(canvas).cells() == note_spec(old(canvas).cells(), self.unicode(), *note),
    {
        let height = note.text.len() + 2;
        let empty = "";
        proof {
            reveal_strlit("");
        }
        assert(empty@ =~= Seq::<char>::empty());
        self.draw_state_box(canvas, note.x, note.y, note.width, height, empty);
        let ghost g = canvas.cells();
        let ghost lines = note.text@.map_values(|l: String| l@);
        let mut line: usize = 0;
        while line < note.text.len()
            invariant
                canvas.wf(),
                canvas.width == old(canvas).width,
                canvas.height == old(canvas).height,
                note.y + note.text.len() + 2 <= DRAW_LIMIT,
                note.x + note.width <= DRAW_LIMIT,
                lines == note.text@.map_values(|l: String| l@),
                line <= note.text.len(),
                canvas.cells() == note_lines(g, note.x as int, note.y as int, lines.take(line as int)),
            decreases note.text.len() - line,
        {
            assert(lines.take(line + 1).drop_last() == lines.take(line as int));
            assert(lines.take(line + 1).last() == note.text@[line as int]@);
            canvas.draw_text(note.x + 1, note.y + line + 1, note.text[line].as_str());
            line += 1;
        }
        assert(lines.take(note.text.len() as int) == lines);
    }
}

fn min_max(t: &Vec<(usize, usize)>) -> (r: (usize, usize, usize, usize))
    requires
        t@.len() > 0,
    ensures
        r.0 == min_x(t@.map_values(|p: (usize, usize)| (p.0 as int, p.1 as int))),
        r.1 == max_x(t@.map_values(|p: (usize, usize)| (p.0 as int, p.1 as int))),
        r.2 == min_y(t@.map_values(|p: (usize, usize)| (p.0 as int, p.1 as int))),
        r.3 == max_y(t@.map_values(|p: (usize, usize)| (p.0 as int, p.1 as int))),
        exists|k: int| 0 <= k < t@.len() && (#[trigger] t@[k]).1 == r.2,
        exists|k: int| 0 <= k < t@.len() && (#[trigger] t@[k]).1 == r.3,
        exists|k: int| 0 <= k < t@.len() && (#[trigger] t@[k]).0 == r.1,
        forall|k: int| 0 <= k < t@.len() ==> r.2 <= (#[trigger] t@[k]).1 && t@[k].1 <= r.3 && r.0 <= t@[k].0 && t@[k].0 <= r.1,
{
    let ghost tv = t@.map_values(|p: (usize, usize)| (p.0 as int, p.1 as int));
    let mut a = t[0].0;
    let mut b = t[0].0;
    let mut c = t[0].1;
    let mut d = t[0].1;
    let mut k: usize = 1;
    assert(tv.take(1) =~= seq![tv[0]]);
    while k < t.len()
        invariant
            tv == t@.map_values(|p: (usize, usize)| (p.0 as int, p.1 as int)),
            1 <= k <= t.len(),
            a == min_x(tv.take(k as int)),
            b == max_x(tv.take(k as int)),
            c == min_y(tv.take(k as int)),
            d == max_y(tv.take(k as int)),
            exists|j: int| 0 <= j < k && (#[trigger] t@[j]).1 == c,
            exists|j: int| 0 <= j < k && (#[trigger] t@[j]).1 == d,
            exists|j: int| 0 <= j < k && (#[trigger] t@[j]).0 == b,
            forall|j: int| 0 <= j < k ==> c <= (#[trigger] t@[j]).1 && t@[j].1 <= d && a <= t@[j].0 && t@[j].0 <= b,
        decreases t.len() - k,
    {
        assert(tv.take(k + 1).drop_last() == tv.take(k as int));
        assert(tv.take(k + 1).last() == (t@[k as int].0 as int, t@[k as int].1 as int));
        let (x, y) = t[k];
        if x < a {
            a = x;
        }
        if x > b {
            b = x;
        }
        if y < c {
            c = y;
        }
        if y > d {
            d = y;
        }
        k += 1;
    }
    assert(tv.take(t.len() as int) == tv);
    (a, b, c, d)
}

impl StateRenderer {
    /// One source to several targets: down to a junction row, a bar across
    /// the targets, and down into each.
    fn draw_split_edges(&self, canvas: &mut AsciiCanvas, from_x: usize, from_y: usize, targets: &Vec<(usize, usize)>)
        requires
            old(canvas).wf(),
            from_x <= DRAW_LIMIT,
            from_y <= DRAW_LIMIT,
            forall|k: int| 0 <= k < targets@.len() ==> (#[trigger] targets@[k]).0 <= DRAW_LIMIT && targets@[k].1 <= DRAW_LIMIT && from_y <= targets@[k].1,
        ensures
            final(canvas).wf(),
            final(canvas).width == old(canvas).width,
            final(canvas).height == old(canvas).height,
            final(canvas).cells() == split_spec(
                old(canvas).cells(),
                self.unicode(),
                from_x as int,
                from_y as int,
                targets@.map_values(|p: (usize, usize)| (p.0 as int, p.1 as int)),
            ),
    {
        let ghost tv = targets@.map_values(|p: (usize, usize)| (p.0 as int, p.1 as int));
        if targets.len() == 0 {
            return;
        }
        let arrow_down = self.ch('▼', 'v');
        let v_line = self.ch('│', '|');
        let h_line = self.ch('─', '-');
        let (lx, rx, min_to_y, _max_to_y) = min_max(targets);
        assert(lx <= targets@[0].0 <= rx);
        let jy = from_y + (min_to_y - from_y) / 2;
        draw_col_run(canvas, from_x, from_y, jy - from_y, v_line);
        draw_row_run(canvas, lx, jy, rx - lx + 1, h_line);
        let jc = if self.is_unicode() {
            if from_x <= lx {
                '└'
            } else if from_x >= rx {
                '┘'
            } else {
                '┴'
            }
        } else {
            '+'
        };
        canvas.set_char(from_x, jy, jc);
        let ghost g = canvas.cells();
        let mut k: usize = 0;
        while k < targets.len()
            invariant
                canvas.wf(),
                canvas.width == old(canvas).width,
                canvas.height == old(canvas).height,
                tv == targets@.map_values(|p: (usize, usize)| (p.0 as int, p.1 as int)),
                forall|k: int| 0 <= k < targets@.len() ==> (#[trigger] targets@[k]).0 <= DRAW_LIMIT && targets@[k].1 <= DRAW_LIMIT,
                jy <= DRAW_LIMIT,
                lx == min_x(tv),
                rx == max_x(tv),
                k <= targets.len(),
                arrow_down == pick(self.unicode(), '▼', 'v'),
                v_line == pick(self.unicode(), '│', '|'),
                canvas.cells() == split_branches(g, self.unicode(), tv.take(k as int), jy as int, lx as int, rx as int),
            decreases targets.len() - k,
        {
            assert(tv.take(k + 1).drop_last() == tv.take(k as int));
            assert(tv.take(k + 1).last() == (targets@[k as int].0 as int, targets@[k as int].1 as int));
            let (tx, ty) = targets[k];
            let corner = if self.is_unicode() {
                if tx == lx {
                    '┌'
                } else if tx == rx {
                    '┐'
                } else {
                    '┬'
                }
            } else {
                '+'
            };
            canvas.set_char(tx, jy, corner);
            let n = if ty > jy + 1 {
                ty - (jy + 1)
            } else {
                0
            };
            draw_col_run(canvas, tx, jy + 1, n, v_line);
            canvas.set_char(tx, ty, arrow_down);
            k += 1;
        }
        assert(tv.take(targets.len() as int) == tv);
    }

    /// Several sources to one target: down from each to a junction row, a
    /// bar across them (over blank and bar cells only), and down into the
    /// target.
    fn draw_merge_edges(&self, canvas: &mut AsciiCanvas, sources: &Vec<(usize, usize)>, to_x: usize, to_y: usize)
        requires
            old(canvas).wf(),
            to_x <= DRAW_LIMIT,
            to_y <= DRAW_LIMIT,
            forall|k: int| 0 <= k < sources@.len() ==> (#[trigger] sources@[k]).0 <= DRAW_LIMIT && sources@[k].1 <= DRAW_LIMIT,
        ensures
            final(canvas).wf(),
            final(canvas).width == old(canvas).width,
            final(canvas).height == old(canvas).height,
            final(canvas).cells() == merge_spec(
                old(canvas).cells(),
                self.unicode(),
                sources@.map_values(|p: (usize, usize)| (p.0 as int, p.1 as int)),
                to_x as int,
                to_y as int,
            ),
    {
        let ghost sv = sources@.map_values(|p: (usize, usize)| (p.0 as int, p.1 as int));
        if sources.len() == 0 {
            return;
        }
        let arrow_down = self.ch('▼', 'v');
        let v_line = self.ch('│', '|');
        let h_line = self.ch('─', '-');
        let (lx, rx, _min_y, my) = min_max(sources);
        assert(lx <= sources@[0].0 <= rx);
        let jy = my + (if to_y >= my {
            to_y - my
        } else {
            0
        }) / 2;
        let ghost g0 = canvas.cells();
        let mut k: usize = 0;
        while k < sources.len()
            invariant
                canvas.wf(),
                canvas.width == old(canvas).width,
                canvas.height == old(canvas).height,
                sv == sources@.map_values(|p: (usize, usize)| (p.0 as int, p.1 as int)),
                forall|k: int| 0 <= k < sources@.len() ==> (#[trigger] sources@[k]).0 <= DRAW_LIMIT && sources@[k].1 <= DRAW_LIMIT,
                jy <= DRAW_LIMIT,
                lx == min_x(sv),
                rx == max_x(sv),
                k <= sources.len(),
                v_line == pick(self.unicode(), '│', '|'),
                canvas.cells() == merge_branches(g0, self.unicode(), sv.take(k as int), jy as int, lx as int, rx as int),
            decreases sources.len() - k,
        {
            assert(sv.take(k + 1).drop_last() == sv.take(k as int));
            assert(sv.take(k + 1).last() == (sources@[k as int].0 as int, sources@[k as int].1 as int));
            let (sx, sy) = sources[k];
            let n = if jy > sy {
                jy - sy
            } else {
                0
            };
            draw_col_run(canvas, sx, sy, n, v_line);
            let corner = if self.is_unicode() {
                if sx == lx {
                    '└'
                } else if sx == rx {
                    '┘'
                } else {
                    '┴'
                }
            } else {
                '+'
            };
            canvas.set_char(sx, jy, corner);
            k += 1;
        }
        assert(sv.take(sources.len() as int) == sv);
        let ghost g1 = canvas.cells();
        let mut x = lx;
        while x <= rx
            invariant
                canvas.wf(),
                canvas.width == old(canvas).width,
                canvas.height == old(canvas).height,
                lx <= x <= rx + 1,
                rx <= DRAW_LIMIT,
                h_line == pick(self.unicode(), '─', '-'),
                canvas.cells() == merge_bar(g1, lx as int, x - lx, jy as int, h_line),
            decreases rx + 1 - x,
        {
            let current = canvas.get_char(x, jy);
            if current == ' ' || current == h_line {
                canvas.set_char(x, jy, h_line);
            }
            x += 1;
        }
        let jc = if self.is_unicode() {
            if to_x <= lx {
                '└'
            } else if to_x >= rx {
                '┘'
            } else {
                '┬'
            }
        } else {
            '+'
        };
        canvas.set_char(to_x, jy, jc);
        let n = if to_y > jy + 1 {
            to_y - (jy + 1)
        } else {
            0
        };
        draw_col_run(canvas, to_x, jy + 1, n, v_line);
        canvas.set_char(to_x, to_y, arrow_down);
    }

    /// The label of a transition, wrapped and centred beside its edge.
    fn draw_transition_label(&self, canvas: &mut AsciiCanvas, edge: &PositionedTransition)
        requires
            old(canvas).wf(),
            edge.from_x <= DRAW_LIMIT,
            edge.from_y <= DRAW_LIMIT,
            edge.to_x <= DRAW_LIMIT,
            edge.to_y <= DRAW_LIMIT,
            edge.lane <= DRAW_LIMIT,
            label_w_of(edge.label) <= DRAW_LIMIT,
            edge.label matches Some(t) ==> t@.len() <= DRAW_LIMIT,
        ensures
            final(canvas).wf(),
            final(canvas).width == old(canvas).width,
            final(canvas).height == old(canvas).height,
            final(canvas).cells() == label_spec(old(canvas).cells(), *edge),
    {
        let label = match &edge.label {
            Some(l) => l,
            None => return,
        };
        let lines = crate::canvas::wrap_label(&crate::text::to_chars(label.as_str()), MAX_TRANSITION_LABEL_WIDTH);
        let ghost ls = lines@.map_values(|l: Vec<char>| l@);
        proof {
            crate::canvas::lemma_words_count(label@);
            crate::canvas::lemma_wrap_count(words_of(label@), MAX_TRANSITION_LABEL_WIDTH as int);
        }
        let width = crate::canvas::widest_line(&lines);
        let n = lines.len();
        let (center_x, start_y) = match edge.route {
            TransitionRoute::Forward => {
                let gap = if edge.to_y >= edge.from_y {
                    edge.to_y - edge.from_y
                } else {
                    0
                };
                let middle_y = edge.from_y + gap / 2;
                (edge.to_x, if middle_y >= n {
                    middle_y - n
                } else {
                    0
                })
            },
            TransitionRoute::Backward => {
                let d = width / 2 + 4;
                (if edge.from_x >= d {
                    edge.from_x - d
                } else {
                    0
                }, edge.from_y + 3)
            },
            TransitionRoute::Horizontal => ((edge.from_x + edge.to_x) / 2, if edge.from_y >= n {
                edge.from_y - n
            } else {
                0
            }),
            TransitionRoute::SelfLoop => (edge.from_x + width / 2 + 4 + edge.lane * 2, edge.from_y),
        };
        let ghost g = canvas.cells();
        let mut k: usize = 0;
        while k < n
            invariant
                canvas.wf(),
                canvas.width == old(canvas).width,
                canvas.height == old(canvas).height,
                ls == lines@.map_values(|l: Vec<char>| l@),
                n == lines.len(),
                n <= DRAW_LIMIT,
                start_y <= 3 * DRAW_LIMIT,
                k <= n,
                canvas.cells() == centred_lines(g, center_x as int, start_y as int, ls.take(k as int)),
            decreases n - k,
        {
            assert(ls.take(k + 1).drop_last() == ls.take(k as int));
            assert(ls.take(k + 1).last() == lines@[k as int]@);
            canvas.draw_centered_chars(center_x, start_y + k, &lines[k]);
            k += 1;
        }
        assert(ls.take(n as int) == ls);
    }
}

/// Number of the first `upto` forward transitions leaving `f`.
fn count_from(ts: &Vec<PositionedTransition>, f: &String, upto: usize) -> (r: usize)
    requires
        upto <= ts@.len(),
    ensures
        r == fcount(ts@, f@, upto as int),
        r <= upto,
{
    let mut c: usize = 0;
    let mut j: usize = 0;
    while j < upto
        invariant
            upto <= ts@.len(),
            j <= upto,
            c == fcount(ts@, f@, j as int),
            c <= j,
        decreases upto - j,
    {
        if ts[j].route == TransitionRoute::Forward && ts[j].from_id == *f {
            c += 1;
        }
        j += 1;
    }
    c
}

/// Forward transitions into `t` whose source has no other forward one.
fn unsplit(ts: &Vec<PositionedTransition>, t: &String) -> (r: Vec<usize>)
    ensures
        r@.map_values(|k: usize| k as int) == unsplit_into(ts@, t@, ts@.len() as int),
        forall|q: int| 0 <= q < r@.len() ==> (#[trigger] r@[q]) < ts@.len(),
{
    let mut out: Vec<usize> = Vec::new();
    let mut j: usize = 0;
    while j < ts.len()
        invariant
            j <= ts.len(),
            out@.map_values(|k: usize| k as int) == unsplit_into(ts@, t@, j as int),
            forall|q: int| 0 <= q < out@.len() ==> (#[trigger] out@[q]) < ts@.len(),
        decreases ts.len() - j,
    {
        let ghost before = out@;
        if ts[j].route == TransitionRoute::Forward && ts[j].to_id == *t && count_from(ts, &ts[j].from_id, ts.len()) <= 1 {
            out.push(j);
            assert(out@.map_values(|k: usize| k as int) =~= before.map_values(|k: usize| k as int).push(j as int));
        }
        j += 1;
    }
    out
}

/// Forward transitions from `f`.
fn forward_from(ts: &Vec<PositionedTransition>, f: &String) -> (r: Vec<usize>)
    ensures
        r@.map_values(|k: usize| k as int) == fwd_from(ts@, f@, ts@.len() as int),
        forall|q: int| 0 <= q < r@.len() ==> (#[trigger] r@[q]) < ts@.len() && is_fwd(ts@, r@[q] as int) && ts@[r@[q] as int].from_id@ == f@,
{
    let mut out: Vec<usize> = Vec::new();
    let mut j: usize = 0;
    while j < ts.len()
        invariant
            j <= ts.len(),
            out@.map_values(|k: usize| k as int) == fwd_from(ts@, f@, j as int),
            forall|q: int| 0 <= q < out@.len() ==> (#[trigger] out@[q]) < ts@.len() && is_fwd(ts@, out@[q] as int) && ts@[out@[q] as int].from_id@ == f@,
        decreases ts.len() - j,
    {
        let ghost before = out@;
        if ts[j].route == TransitionRoute::Forward && ts[j].from_id == *f {
            out.push(j);
            assert(out@.map_values(|k: usize| k as int) =~= before.map_values(|k: usize| k as int).push(j as int));
        }
        j += 1;
    }
    out
}

/// Whether transition `k` is the first forward one into its target.
fn is_first_into(ts: &Vec<PositionedTransition>, k: usize) -> (r: bool)
    requires
        k < ts@.len(),
    ensures
        r == first_into(ts@, k as int),
{
    if ts[k].route != TransitionRoute::Forward {
        return false;
    }
    let mut j: usize = 0;
    while j < k
        invariant
            k < ts@.len(),
            j <= k,
            forall|i: int| 0 <= i < j ==> !(is_fwd(ts@, i) && #[trigger] ts@[i].to_id@ == ts@[k as int].to_id@),
        decreases k - j,
    {
        if ts[j].route == TransitionRoute::Forward && ts[j].to_id == ts[k].to_id {
            return false;
        }
        j += 1;
    }
    true
}

impl StateRenderer {
    /// Draws a layout: splits and merges of forward transitions first, then
    /// every other edge, the labels, the notes, and the states on top.
    #[verifier::rlimit(40)]
    pub fn render_layout(&self, layout: &StateLayoutResult) -> (r: String)
        requires
            state_drawable(*layout),
        ensures
            r@ == state_picture(*layout, self.unicode()),
    {
        if layout.states.len() == 0 {
            return String::new();
        }
        let ts = &layout.transitions;
        let t = ts.len();
        let mut canvas = AsciiCanvas::new(layout.width + 20, layout.height + 2 * t + 2);
        let ghost u = self.unicode();
        let ghost g0 = canvas.cells();
        let mut k: usize = 0;
        while k < t
            invariant
                state_drawable(*layout),
                ts == &layout.transitions,
                t == ts@.len(),
                u == self.unicode(),
                canvas.wf(),
                k <= t,
                canvas.cells() == all_splits(g0, u, ts@, k as int),
            decreases t - k,
        {
            let e = &ts[k];
            if e.route == TransitionRoute::Forward && count_from(ts, &e.from_id, k) == 0 && count_from(ts, &e.from_id, t) > 1 {
                let members = forward_from(ts, &e.from_id);
                let mut targets: Vec<(usize, usize)> = Vec::new();
                let mut q: usize = 0;
                while q < members.len()
                    invariant
                        state_drawable(*layout),
                        ts == &layout.transitions,
                        k < ts@.len(),
                        ts@[k as int].route == TransitionRoute::Forward,
                        forall|q: int| 0 <= q < members@.len() ==> (#[trigger] members@[q]) < ts@.len() && is_fwd(ts@, members@[q] as int) && ts@[members@[q] as int].from_id@ == ts@[k as int].from_id@,
                        q <= members.len(),
                        targets@.len() == q,
                        forall|i: int|
                            0 <= i < q ==> (#[trigger] targets@[i]).0 as int == ts@[members@[i] as int].to_x as int && targets@[i].1 as int
                                == sat_sub(ts@[members@[i] as int].to_y as int, 1) && targets@[i].0 <= DRAW_LIMIT
                                && targets@[i].1 <= DRAW_LIMIT && ts@[k as int].from_y <= targets@[i].1,
                    decreases members.len() - q,
                {
                    let m = &ts[members[q]];
                    proof {
                        let mi = members@[q as int] as int;
                        assert(ts@[mi].from_id@ == ts@[k as int].from_id@);
                        assert(ts@[mi].from_y == ts@[k as int].from_y);
                    }
                    let ty = if m.to_y >= 1 {
                        m.to_y - 1
                    } else {
                        0
                    };
                    targets.push((m.to_x, ty));
                    q += 1;
                }
                assert(targets@.map_values(|p: (usize, usize)| (p.0 as int, p.1 as int)) =~= split_targets(
                    ts@,
                    fwd_from(ts@, e.from_id@, ts@.len() as int),
                )) by {
                    assert(members@.map_values(|k: usize| k as int).len() == members@.len());
                    assert forall|i: int| 0 <= i < targets@.len() implies targets@.map_values(|p: (usize, usize)| (p.0 as int, p.1 as int))[i]
                        == split_targets(ts@, fwd_from(ts@, e.from_id@, ts@.len() as int))[i] by {
                        assert(fwd_from(ts@, e.from_id@, ts@.len() as int)[i] == members@.map_values(|k: usize| k as int)[i]);
                    }
                }
                self.draw_split_edges(&mut canvas, e.from_x, e.from_y, &targets);
            }
            k += 1;
        }
        let ghost g1 = canvas.cells();
        let mut k: usize = 0;
        while k < t
            invariant
                state_drawable(*layout),
                ts == &layout.transitions,
                t == ts@.len(),
                u == self.unicode(),
                canvas.wf(),
                k <= t,
                canvas.cells() == all_merges(g1, u, ts@, k as int),
            decreases t - k,
        {
            let e = &ts[k];
            if is_first_into(ts, k) {
                let und = unsplit(ts, &e.to_id);
                if und.len() > 1 {
                    let mut sources: Vec<(usize, usize)> = Vec::new();
                    let mut q: usize = 0;
                    while q < und.len()
                        invariant
                            state_drawable(*layout),
                            ts == &layout.transitions,
                            forall|q: int| 0 <= q < und@.len() ==> (#[trigger] und@[q]) < ts@.len(),
                            q <= und.len(),
                            sources@.len() == q,
                            forall|i: int|
                                0 <= i < q ==> (#[trigger] sources@[i]).0 == ts@[und@[i] as int].from_x && sources@[i].1
                                    == ts@[und@[i] as int].from_y && sources@[i].0 <= DRAW_LIMIT && sources@[i].1 <= DRAW_LIMIT,
                        decreases und.len() - q,
                    {
                        let m = &ts[und[q]];
                        sources.push((m.from_x, m.from_y));
                        q += 1;
                    }
                    assert(sources@.map_values(|p: (usize, usize)| (p.0 as int, p.1 as int)) =~= merge_sources(
                        ts@,
                        unsplit_into(ts@, e.to_id@, ts@.len() as int),
                    )) by {
                        assert forall|i: int| 0 <= i < sources@.len() implies sources@.map_values(|p: (usize, usize)| (p.0 as int, p.1 as int))[i]
                            == merge_sources(ts@, unsplit_into(ts@, e.to_id@, ts@.len() as int))[i] by {
                            assert(unsplit_into(ts@, e.to_id@, ts@.len() as int)[i] == und@.map_values(|k: usize| k as int)[i]);
                        }
                    }
                    let first = &ts[und[0]];
                    assert(unsplit_into(ts@, e.to_id@, ts@.len() as int)[0] == und@[0] as int);
                    let fy = if first.to_y >= 1 {
                        first.to_y - 1
                    } else {
                        0
                    };
                    self.draw_merge_edges(&mut canvas, &sources, first.to_x, fy);
                }
            }
            k += 1;
        }
        let ghost g2 = canvas.cells();
        let mut k: usize = 0;
        while k < t
            invariant
                state_drawable(*layout),
                ts == &layout.transitions,
                t == ts@.len(),
                u == self.unicode(),
                canvas.wf(),
                k <= t,
                canvas.cells() == all_edges(g2, u, ts@, k as int),
            decreases t - k,
        {
            let e = &ts[k];
            match e.route {
                TransitionRoute::Forward => {
                    let grouped_here = count_from(ts, &e.from_id, t) > 1 || unsplit(ts, &e.to_id).len() > 1;
                    proof {
                        let und = unsplit_into(ts@, e.to_id@, ts@.len() as int);
                        assert(grouped(ts@, k as int) == (fcount(ts@, e.from_id@, ts@.len() as int) > 1 || und.len() > 1));
                    }
                    if !grouped_here {
                        let ty = if e.to_y >= 1 {
                            e.to_y - 1
                        } else {
                            0
                        };
                        self.draw_single_edge(&mut canvas, e.from_x, e.from_y, e.to_x, ty);
                    }
                },
                TransitionRoute::Backward => self.draw_backward_edge(&mut canvas, e),
                TransitionRoute::Horizontal => self.draw_horizontal_edge(&mut canvas, e),
                TransitionRoute::SelfLoop => self.draw_self_loop(&mut canvas, e),
            }
            k += 1;
        }
        let ghost g3 = canvas.cells();
        let mut k: usize = 0;
        while k < t
            invariant
                state_drawable(*layout),
                ts == &layout.transitions,
                t == ts@.len(),
                canvas.wf(),
                k <= t,
                canvas.cells() == all_labels(g3, ts@, k as int),
            decreases t - k,
        {
            self.draw_transition_label(&mut canvas, &ts[k]);
            k += 1;
        }
        let ghost g4 = canvas.cells();
        let notes = &layout.notes;
        let mut k: usize = 0;
        while k < notes.len()
            invariant
                state_drawable(*layout),
                notes == &layout.notes,
                u == self.unicode(),
                canvas.wf(),
                k <= notes.len(),
                canvas.cells() == all_notes(g4, u, notes@, k as int),
            decreases notes.len() - k,
        {
            self.draw_note(&mut canvas, &notes[k]);
            k += 1;
        }
        let ghost g5 = canvas.cells();
        let states = &layout.states;
        let start = crate::text::to_chars(super::database::START_TERMINAL);
        proof {
            reveal_strlit("[*]_start");
        }
        assert(start@ =~= start_id());
        let mut k: usize = 0;
        while k < states.len()
            invariant
                state_drawable(*layout),
                states == &layout.states,
                u == self.unicode(),
                start@ == start_id(),
                canvas.wf(),
                k <= states.len(),
                canvas.cells() == all_states(g5, u, states@, k as int),
            decreases states.len() - k,
        {
            let st = &states[k];
            match st.shape {
                NodeShape::Terminal => {
                    let is_start = crate::text::same_chars(&crate::text::to_chars(st.id.as_str()), &start);
                    self.draw_terminal(&mut canvas, st.x, st.y, st.width, is_start);
                },
                NodeShape::Diamond => self.draw_choice(&mut canvas, st.x, st.y, st.width, st.height, st.label.as_str()),
                _ => self.draw_state_box(&mut canvas, st.x, st.y, st.width, st.height, st.label.as_str()),
            }
            k += 1;
        }
        canvas.to_text()
    }

    /// Lays the database out and draws it; fails only where the layout does.
    pub fn render(&self, database: &StateDatabase) -> (r: Result<String, DiagramError>)
        requires
            database.wf(),
        ensures
            r is Err <==> (database.state_views().len() > 0 && !state_fits(
                database.state_views(),
                database.transition_views(),
                database.note_views(),
            )),
            r matches Ok(s) ==> exists|l: StateLayoutResult|
                state_layout_ok(database, l) && s@ == state_picture(l, self.unicode()),
            r matches Ok(s) ==> (!self.unicode() && ascii_database(database) ==> ascii_text(s@)),
    {
        let algorithm = StateLayoutAlgorithm::new();
        match algorithm.layout(database) {
            Err(e) => Err(e),
            Ok(l) => {
                let s = self.render_layout(&l);
                proof {
                    if ascii_database(database) {
                        lemma_ascii_drawing(database, l);
                    }
                }
                assert(state_layout_ok(database, l) && s@ == state_picture(l, self.unicode()));
                Ok(s)
            },
        }
    }
}
} // verus!
