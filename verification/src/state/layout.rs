//! Layout of state diagrams: states in rows by rank (their distance from the
//! start), each row centred on a common axis, transitions routed forward,
//! backward through lanes on the left, sideways within a row, or as loops,
//! and notes beside their states.
use super::database::{
    lemma_state_pos, note_view, start_id, state_pos, NoteSide, StateDatabase, StateNote,
};
use super::ranks::{assign_ranks, ranks_ok};
use crate::canvas::{sat_sub, widest, words_of, wrap_words};
use crate::model::{DiagramError, EdgeType, NodeData, NodeShape};
use vstd::prelude::*;

verus! {

/// Transition labels are wrapped to this many columns.
pub const MAX_TRANSITION_LABEL_WIDTH: usize = 28;

/// Upper bound, a 256th of the machine's address range, on the numbers of
/// states, transitions and notes, on label and note line lengths, on note
/// line counts, and on the total width of the state slots, that the layout
/// accepts: within it every coordinate fits in a machine word.
pub const STATE_LIMIT: usize = usize::MAX / 256;

pub type StateViews = Seq<(Seq<char>, Seq<char>, NodeShape)>;

pub type TransitionViews = Seq<(Seq<char>, Seq<char>, EdgeType, Option<Seq<char>>)>;

pub type NoteViews = Seq<(Seq<char>, NoteSide, Seq<Seq<char>>)>;

/// Width of a transition label once wrapped.
pub open spec fn tlw(l: Seq<char>) -> int {
    widest(wrap_words(words_of(l), MAX_TRANSITION_LABEL_WIDTH as int)) as int
}

pub open spec fn opt_tlw(l: Option<Seq<char>>) -> int {
    match l {
        Some(x) => tlw(x),
        None => 0,
    }
}

pub open spec fn max2(a: int, b: int) -> int {
    if a >= b {
        a
    } else {
        b
    }
}

/// Widest label (plus 4) among the first `k` transitions that join state
/// `id` to another state.
pub open spec fn conn_w(tv: TransitionViews, id: Seq<char>, k: int) -> int
    decreases k,
{
    if k <= 0 {
        0
    } else {
        let t = tv[k - 1];
        max2(
            conn_w(tv, id, k - 1),
            if t.0 != t.1 && (t.0 == id || t.1 == id) && t.3 is Some {
                tlw(t.3->0) + 4
            } else {
                0
            },
        )
    }
}

/// Widest label among the first `k` transitions from state `id` to itself.
pub open spec fn self_w(tv: TransitionViews, id: Seq<char>, k: int) -> int
    decreases k,
{
    if k <= 0 {
        0
    } else {
        let t = tv[k - 1];
        max2(
            self_w(tv, id, k - 1),
            if t.0 == id && t.1 == id && t.3 is Some {
                tlw(t.3->0)
            } else {
                0
            },
        )
    }
}

/// Width of a state: 3 for a terminal, else its label with padding of 2
/// on each side, at least 8.
pub open spec fn size_w(s: (Seq<char>, Seq<char>, NodeShape)) -> int {
    if s.2 == NodeShape::Terminal {
        3
    } else {
        max2(s.1.len() + 4int, 8)
    }
}

/// Width of the slot that state `i` takes in its row: room for its
/// connected labels and for a self-loop label beside it.
pub open spec fn slot(sv: StateViews, tv: TransitionViews, i: int) -> int {
    let w = size_w(sv[i]);
    let sw = self_w(tv, sv[i].0, tv.len() as int);
    max2(max2(w, conn_w(tv, sv[i].0, tv.len() as int)), w + sw + if sw > 0 { 8int } else { 0int })
}

/// Offset of state `i` in its slot: centred, or at the left when it has a
/// labelled self-loop.
pub open spec fn offset(sv: StateViews, tv: TransitionViews, i: int) -> int {
    if self_w(tv, sv[i].0, tv.len() as int) > 0 {
        0
    } else {
        (slot(sv, tv, i) - size_w(sv[i])) / 2
    }
}

/// Number of the first `k` states that have rank `rk`.
pub open spec fn row_count(r: Seq<usize>, rk: int, k: int) -> int
    decreases k,
{
    if k <= 0 {
        0
    } else {
        row_count(r, rk, k - 1) + if r[k - 1] == rk {
            1int
        } else {
            0int
        }
    }
}

/// Width of row `rk` over the first `k` states: their slots with gaps of 3.
pub open spec fn row_width(sv: StateViews, tv: TransitionViews, r: Seq<usize>, rk: int, k: int) -> int
    decreases k,
{
    if k <= 0 {
        0
    } else {
        let prev = row_width(sv, tv, r, rk, k - 1);
        if r[k - 1] == rk {
            prev + slot(sv, tv, k - 1) + if row_count(r, rk, k - 1) > 0 {
                3int
            } else {
                0int
            }
        } else {
            prev
        }
    }
}

/// Largest rank among the first `k` states.
pub open spec fn max_rank(r: Seq<usize>, k: int) -> int
    decreases k,
{
    if k <= 0 {
        0
    } else {
        max2(max_rank(r, k - 1), r[k - 1] as int)
    }
}

/// Widest of rows `0 .. q`.
pub open spec fn max_row_width(sv: StateViews, tv: TransitionViews, r: Seq<usize>, q: int) -> int
    decreases q,
{
    if q <= 0 {
        0
    } else {
        max2(max_row_width(sv, tv, r, q - 1), row_width(sv, tv, r, q - 1, sv.len() as int))
    }
}

/// Top of row `rk`: the rows above that have states, each 3 high, with
/// gaps of 7.
pub open spec fn row_y(r: Seq<usize>, rk: int, n: int) -> int
    decreases rk,
{
    if rk <= 0 {
        0
    } else {
        row_y(r, rk - 1, n) + if row_count(r, rk - 1, n) > 0 {
            10int
        } else {
            0int
        }
    }
}

/// The rank of the state with identifier `id`.
pub open spec fn rank_of(sv: StateViews, r: Seq<usize>, id: Seq<char>) -> int {
    r[state_pos(sv, id)->0] as int
}

/// Whether transition `k` goes back to a lower rank.
pub open spec fn backward(sv: StateViews, tv: TransitionViews, r: Seq<usize>, k: int) -> bool {
    tv[k].0 != tv[k].1 && rank_of(sv, r, tv[k].1) < rank_of(sv, r, tv[k].0)
}

/// Number of backward transitions among the first `k`.
pub open spec fn n_back(sv: StateViews, tv: TransitionViews, r: Seq<usize>, k: int) -> int
    decreases k,
{
    if k <= 0 {
        0
    } else {
        n_back(sv, tv, r, k - 1) + if backward(sv, tv, r, k - 1) {
            1int
        } else {
            0int
        }
    }
}

/// Number of self-loops among the first `k` transitions.
pub open spec fn n_self(tv: TransitionViews, k: int) -> int
    decreases k,
{
    if k <= 0 {
        0
    } else {
        n_self(tv, k - 1) + if tv[k - 1].0 == tv[k - 1].1 {
            1int
        } else {
            0int
        }
    }
}

/// Widest label of the backward transitions among the first `k`.
pub open spec fn back_label_w(sv: StateViews, tv: TransitionViews, r: Seq<usize>, k: int) -> int
    decreases k,
{
    if k <= 0 {
        0
    } else {
        max2(
            back_label_w(sv, tv, r, k - 1),
            if backward(sv, tv, r, k - 1) {
                opt_tlw(tv[k - 1].3)
            } else {
                0
            },
        )
    }
}

/// Widest line (plus 2) of the first `k` lines.
pub open spec fn lines_w(ls: Seq<Seq<char>>, k: int) -> int
    decreases k,
{
    if k <= 0 {
        0
    } else {
        max2(lines_w(ls, k - 1), ls[k - 1].len() + 2int)
    }
}

/// Widest line (plus 2) of the notes on the left among the first `k`.
pub open spec fn left_note_w(nv: NoteViews, k: int) -> int
    decreases k,
{
    if k <= 0 {
        0
    } else {
        max2(
            left_note_w(nv, k - 1),
            if nv[k - 1].1 == NoteSide::Left {
                lines_w(nv[k - 1].2, nv[k - 1].2.len() as int)
            } else {
                0
            },
        )
    }
}

/// Columns kept free on the left for backward lanes, their labels and
/// notes on the left.
pub open spec fn left_margin(sv: StateViews, tv: TransitionViews, nv: NoteViews, r: Seq<usize>) -> int {
    2 * n_back(sv, tv, r, tv.len() as int) + back_label_w(sv, tv, r, tv.len() as int) + left_note_w(
        nv,
        nv.len() as int,
    ) + 8
}

/// Sum of the slots (each with its gap of 3) of the first `k` states of
/// rank `rk`.
pub open spec fn before_in_row(sv: StateViews, tv: TransitionViews, r: Seq<usize>, rk: int, k: int) -> int
    decreases k,
{
    if k <= 0 {
        0
    } else {
        before_in_row(sv, tv, r, rk, k - 1) + if r[k - 1] == rk {
            slot(sv, tv, k - 1) + 3
        } else {
            0
        }
    }
}

/// Column of state `i`: its row centred on the common axis, after the
/// states before it in the row.
pub open spec fn state_x(sv: StateViews, tv: TransitionViews, nv: NoteViews, r: Seq<usize>, i: int) -> int {
    let n = sv.len() as int;
    let rk = r[i] as int;
    let center = max_row_width(sv, tv, r, max_rank(r, n) + 1) / 2;
    left_margin(sv, tv, nv, r) + sat_sub(center, row_width(sv, tv, r, rk, n) / 2) + before_in_row(sv, tv, r, rk, i)
        + offset(sv, tv, i)
}

/// Row of state `i`.
pub open spec fn state_y(r: Seq<usize>, i: int, n: int) -> int {
    row_y(r, r[i] as int, n)
}

/// The states of rank `rk` among the first `k`, in order.
pub open spec fn members(r: Seq<usize>, rk: int, k: int) -> Seq<int>
    decreases k,
{
    if k <= 0 {
        Seq::empty()
    } else if r[k - 1] == rk {
        members(r, rk, k - 1).push(k - 1)
    } else {
        members(r, rk, k - 1)
    }
}

/// The states of ranks `0 .. q`, rank by rank.
pub open spec fn rank_order(r: Seq<usize>, q: int) -> Seq<int>
    decreases q,
{
    if q <= 0 {
        Seq::empty()
    } else {
        rank_order(r, q - 1) + members(r, q - 1, r.len() as int)
    }
}


/// The slots of the first `k` states, each with a gap of 3.
pub open spec fn slot_sum(sv: StateViews, tv: TransitionViews, k: int) -> int
    decreases k,
{
    if k <= 0 {
        0
    } else {
        slot_sum(sv, tv, k - 1) + slot(sv, tv, k - 1) + 3
    }
}

/// Slot totals grow with the number of states counted.
pub proof fn lemma_slot_sum_mono(sv: StateViews, tv: TransitionViews, i: int, j: int)
    requires
        0 <= i <= j,
    ensures
        slot_sum(sv, tv, i) <= slot_sum(sv, tv, j),
    decreases j,
{
    if i < j {
        lemma_slot_sum_mono(sv, tv, i, j - 1);
        assert(slot(sv, tv, j - 1) >= size_w(sv[j - 1]));
    }
}

/// Whether the diagram is within the layout limits: each of its parts, and
/// the total width of its state slots.
pub open spec fn state_fits(sv: StateViews, tv: TransitionViews, nv: NoteViews) -> bool {
    &&& items_fit(sv, tv, nv)
    &&& slot_sum(sv, tv, sv.len() as int) <= STATE_LIMIT
}

/// Whether each part of the diagram is within the layout limits.
pub open spec fn items_fit(sv: StateViews, tv: TransitionViews, nv: NoteViews) -> bool {
    &&& sv.len() <= STATE_LIMIT
    &&& tv.len() <= STATE_LIMIT
    &&& nv.len() <= STATE_LIMIT
    &&& forall|i: int| 0 <= i < sv.len() ==> (#[trigger] sv[i]).1.len() <= STATE_LIMIT
    &&& forall|k: int| 0 <= k < tv.len() ==> opt_tlw((#[trigger] tv[k]).3) <= STATE_LIMIT
    &&& forall|k: int| 0 <= k < tv.len() ==> ((#[trigger] tv[k]).3 matches Some(l) ==> l.len() <= STATE_LIMIT)
    &&& forall|j: int|
        0 <= j < nv.len() ==> (#[trigger] nv[j]).2.len() <= STATE_LIMIT && forall|l: int|
            0 <= l < nv[j].2.len() ==> (#[trigger] nv[j].2[l]).len() <= STATE_LIMIT
}

/// Bound on every coordinate that the state renderer is given.
pub const DRAW_LIMIT: usize = 32 * STATE_LIMIT;

/// Width of a wrapped transition label, from the label itself.
pub open spec fn label_w_of(l: Option<String>) -> int {
    match l {
        Some(s) => tlw(s@),
        None => 0,
    }
}

/// A layout that can be drawn: coordinates far from the machine limits,
/// boxes at least 2 by 2, forward edges going down, and forward edges from
/// one state starting on one row.
pub open spec fn state_drawable(l: StateLayoutResult) -> bool {
    let ts = l.transitions@;
    &&& l.width + 20 <= DRAW_LIMIT
    &&& l.height + 2 * ts.len() + 2 <= DRAW_LIMIT
    &&& forall|i: int|
        0 <= i < l.states.len() ==> {
            let s = #[trigger] l.states@[i];
            &&& 2 <= s.width
            &&& 2 <= s.height
            &&& s.x + s.width <= DRAW_LIMIT
            &&& s.y + s.height <= DRAW_LIMIT
        }
    &&& forall|k: int|
        0 <= k < ts.len() ==> {
            let e = #[trigger] ts[k];
            &&& e.from_x <= DRAW_LIMIT
            &&& e.from_y <= DRAW_LIMIT
            &&& e.to_x <= DRAW_LIMIT
            &&& e.to_y <= DRAW_LIMIT
            &&& e.lane <= DRAW_LIMIT
            &&& label_w_of(e.label) <= DRAW_LIMIT
            &&& (e.label matches Some(t) ==> t@.len() <= DRAW_LIMIT)
            &&& (e.route == TransitionRoute::Forward ==> e.from_y + 1 <= e.to_y)
        }
    &&& forall|j: int, k: int|
        0 <= j < ts.len() && 0 <= k < ts.len() && (#[trigger] ts[j]).route == TransitionRoute::Forward && (
        #[trigger] ts[k]).route == TransitionRoute::Forward && ts[j].from_id@ == ts[k].from_id@ ==> ts[j].from_y
            == ts[k].from_y
    &&& forall|q: int|
        0 <= q < l.notes.len() ==> {
            let n = #[trigger] l.notes@[q];
            &&& 2 <= n.width
            &&& n.x + n.width <= DRAW_LIMIT
            &&& n.y + n.text.len() + 2 <= DRAW_LIMIT
        }
}

/// Rows move down: a later rank starts below an earlier one with states.
pub proof fn lemma_row_y_mono(r: Seq<usize>, a: int, b: int, n: int)
    requires
        0 <= a < b,
    ensures
        row_y(r, b, n) >= row_y(r, a, n) + if row_count(r, a, n) > 0 {
            10int
        } else {
            0int
        },
    decreases b,
{
    if b > a + 1 {
        lemma_row_y_mono(r, a, b - 1, n);
    }
}

/// A rank that some state has is not empty.
pub proof fn lemma_row_count_pos(r: Seq<usize>, rk: int, k: int, f: int)
    requires
        0 <= f < k,
        r[f] == rk,
    ensures
        row_count(r, rk, k) >= 1,
    decreases k,
{
    if f < k - 1 {
        lemma_row_count_pos(r, rk, k - 1, f);
    } else {
        lemma_row_count_nonneg(r, rk, k - 1);
    }
}

pub proof fn lemma_row_count_nonneg(r: Seq<usize>, rk: int, k: int)
    ensures
        row_count(r, rk, k) >= 0,
    decreases k,
{
    if k > 0 {
        lemma_row_count_nonneg(r, rk, k - 1);
    }
}

/// Width of a wrapped transition label.
pub fn transition_label_width(label: &str) -> (r: usize)
    ensures
        r == tlw(label@),
{
    let lines = crate::canvas::wrap_label(&crate::text::to_chars(label), MAX_TRANSITION_LABEL_WIDTH);
    crate::canvas::widest_line(&lines)
}

fn opt_label_width(label: &Option<String>) -> (r: usize)
    ensures
        r == opt_tlw(super::database::label_view(*label)),
{
    match label {
        Some(l) => transition_label_width(l.as_str()),
        None => 0,
    }
}

/// The widest connected label (plus 4) and the widest self-loop label of
/// the state `id`.
fn label_widths(trans: &[crate::model::EdgeData], id: &String, Ghost(tv): Ghost<TransitionViews>) -> (r: (usize, usize))
    requires
        trans@.map_values(|e: crate::model::EdgeData| super::database::edge_view(e)) == tv,
        forall|k: int| 0 <= k < tv.len() ==> opt_tlw((#[trigger] tv[k]).3) <= STATE_LIMIT,
    ensures
        r.0 == conn_w(tv, id@, tv.len() as int),
        r.1 == self_w(tv, id@, tv.len() as int),
        r.0 <= STATE_LIMIT + 4,
        r.1 <= STATE_LIMIT,
{
    let mut c: usize = 0;
    let mut sw: usize = 0;
    let mut k: usize = 0;
    while k < trans.len()
        invariant
            trans@.map_values(|e: crate::model::EdgeData| super::database::edge_view(e)) == tv,
            forall|k: int| 0 <= k < tv.len() ==> opt_tlw((#[trigger] tv[k]).3) <= STATE_LIMIT,
            k <= trans.len(),
            c == conn_w(tv, id@, k as int),
            sw == self_w(tv, id@, k as int),
            c <= STATE_LIMIT + 4,
            sw <= STATE_LIMIT,
        decreases trans.len() - k,
    {
        let e = &trans[k];
        assert(tv[k as int] == super::database::edge_view(*e));
        assert(opt_tlw(tv[k as int].3) <= STATE_LIMIT);
        let w = opt_label_width(&e.label);
        let from_is = e.from == *id;
        let to_is = e.to == *id;
        let same = e.from == e.to;
        if !same && (from_is || to_is) && e.label.is_some() {
            if w + 4 > c {
                c = w + 4;
            }
        }
        if from_is && to_is && e.label.is_some() {
            if w > sw {
                sw = w;
            }
        }
        k += 1;
    }
    (c, sw)
}

/// Width of a state box.
fn state_width(n: &NodeData) -> (r: usize)
    requires
        n.label@.len() <= STATE_LIMIT,
    ensures
        r == size_w(super::database::node_view(*n)),
        r <= STATE_LIMIT + 4,
{
    match n.shape {
        NodeShape::Terminal => 3,
        _ => {
            let len = crate::text::to_chars(n.label.as_str()).len();
            if len + 4 > 8 {
                len + 4
            } else {
                8
            }
        },
    }
}

/// A placed state.
#[derive(Clone, Debug)]
pub struct PositionedState {
    pub id: String,
    pub label: String,
    pub shape: NodeShape,
    pub x: usize,
    pub y: usize,
    pub width: usize,
    pub height: usize,
    pub rank: usize,
}

/// How a transition is drawn.
#[derive(Clone, Copy, Debug, PartialEq, Eq, Structural)]
pub enum TransitionRoute {
    /// Down to a higher rank.
    Forward,
    /// Up to a lower rank, through a lane on the left.
    Backward,
    /// Sideways within a rank.
    Horizontal,
    /// From a state to itself.
    SelfLoop,
}

/// A placed transition.
#[derive(Clone, Debug)]
pub struct PositionedTransition {
    pub from_id: String,
    pub to_id: String,
    pub label: Option<String>,
    pub from_x: usize,
    pub from_y: usize,
    pub to_x: usize,
    pub to_y: usize,
    pub route: TransitionRoute,
    pub lane: usize,
}

/// A placed note.
#[derive(Clone, Debug)]
pub struct PositionedNote {
    pub x: usize,
    pub y: usize,
    pub width: usize,
    pub text: Vec<String>,
}

/// The layout of a state diagram.
#[derive(Clone, Debug)]
pub struct StateLayoutResult {
    pub states: Vec<PositionedState>,
    pub transitions: Vec<PositionedTransition>,
    pub notes: Vec<PositionedNote>,
    pub width: usize,
    pub height: usize,
}

/// Transitions as pairs of state positions.
pub open spec fn edge_indices(sv: StateViews, tv: TransitionViews) -> Seq<(int, int)> {
    tv.map_values(|t: (Seq<char>, Seq<char>, EdgeType, Option<Seq<char>>)| (state_pos(sv, t.0)->0, state_pos(sv, t.1)->0))
}

/// Where the ranks are counted from: the start terminal when `[*]` was used
/// as a source, else the first state.
pub open spec fn rank_start(sv: StateViews, start_flag: bool) -> Option<int> {
    if start_flag {
        state_pos(sv, start_id())
    } else {
        Some(0)
    }
}

/// State `i` placed.
pub open spec fn state_placed_ok(p: PositionedState, sv: StateViews, tv: TransitionViews, nv: NoteViews, r: Seq<usize>, i: int) -> bool {
    &&& p.id@ == sv[i].0
    &&& p.label@ == sv[i].1
    &&& p.shape == sv[i].2
    &&& p.x == state_x(sv, tv, nv, r, i)
    &&& p.y == state_y(r, i, sv.len() as int)
    &&& p.width == size_w(sv[i])
    &&& p.height == 3
    &&& p.rank == r[i]
}

/// End points, route and lane of transition `k`.
pub open spec fn trans_geom(sv: StateViews, tv: TransitionViews, nv: NoteViews, r: Seq<usize>, k: int) -> (
    int,
    int,
    int,
    int,
    TransitionRoute,
    int,
) {
    let t = tv[k];
    let n = sv.len() as int;
    let f = state_pos(sv, t.0)->0;
    let g = state_pos(sv, t.1)->0;
    let fx = state_x(sv, tv, nv, r, f);
    let fy = state_y(r, f, n);
    let fw = size_w(sv[f]);
    let tx = state_x(sv, tv, nv, r, g);
    let ty = state_y(r, g, n);
    let tw = size_w(sv[g]);
    if t.0 == t.1 {
        (fx + fw, fy + 1, fx + fw / 2, fy + 3, TransitionRoute::SelfLoop, n_self(tv, k))
    } else if r[g] > r[f] {
        (fx + fw / 2, fy + 3, tx + tw / 2, ty, TransitionRoute::Forward, 0)
    } else if r[g] < r[f] {
        (fx, fy + 1, tx, ty + 1, TransitionRoute::Backward, n_back(sv, tv, r, k))
    } else if fx < tx {
        (fx + fw, fy + 1, tx, ty + 1, TransitionRoute::Horizontal, 0)
    } else {
        (fx, fy + 1, tx + tw, ty + 1, TransitionRoute::Horizontal, 0)
    }
}

/// Transition `k` placed.
pub open spec fn trans_placed_ok(p: PositionedTransition, sv: StateViews, tv: TransitionViews, nv: NoteViews, r: Seq<usize>, k: int) -> bool {
    let g = trans_geom(sv, tv, nv, r, k);
    &&& p.from_id@ == tv[k].0
    &&& p.to_id@ == tv[k].1
    &&& super::database::label_view(p.label) == tv[k].3
    &&& p.from_x == g.0
    &&& p.from_y == g.1
    &&& p.to_x == g.2
    &&& p.to_y == g.3
    &&& p.route == g.4
    &&& p.lane == g.5
}

/// The notes that name a state, in order.
pub open spec fn placed_notes(sv: StateViews, nv: NoteViews, k: int) -> Seq<int>
    decreases k,
{
    if k <= 0 {
        Seq::empty()
    } else if state_pos(sv, nv[k - 1].0) is Some {
        placed_notes(sv, nv, k - 1).push(k - 1)
    } else {
        placed_notes(sv, nv, k - 1)
    }
}

/// Width of note `j`: its widest line plus 2, at least 4.
pub open spec fn note_w(nv: NoteViews, j: int) -> int {
    max2(lines_w(nv[j].2, nv[j].2.len() as int), 4)
}

/// Column of note `j`: left of its state with a gap of 2, or right of it
/// past its self-loop label.
pub open spec fn note_x(sv: StateViews, tv: TransitionViews, nv: NoteViews, r: Seq<usize>, j: int) -> int {
    let i = state_pos(sv, nv[j].0)->0;
    let x = state_x(sv, tv, nv, r, i);
    if nv[j].1 == NoteSide::Left {
        sat_sub(x, note_w(nv, j) + 2)
    } else {
        x + size_w(sv[i]) + self_w(tv, nv[j].0, tv.len() as int) + 8
    }
}

/// Note `j` placed.
pub open spec fn note_placed_ok(p: PositionedNote, sv: StateViews, tv: TransitionViews, nv: NoteViews, r: Seq<usize>, j: int) -> bool {
    &&& p.x == note_x(sv, tv, nv, r, j)
    &&& p.y == state_y(r, state_pos(sv, nv[j].0)->0, sv.len() as int)
    &&& p.width == note_w(nv, j)
    &&& p.text@.map_values(|l: String| l@) == nv[j].2
}

/// Rightmost column reached by the first `k` states.
pub open spec fn states_right(sv: StateViews, tv: TransitionViews, nv: NoteViews, r: Seq<usize>, k: int) -> int
    decreases k,
{
    if k <= 0 {
        0
    } else {
        max2(states_right(sv, tv, nv, r, k - 1), state_x(sv, tv, nv, r, k - 1) + size_w(sv[k - 1]))
    }
}

/// Lowest row reached by the first `k` states.
pub open spec fn states_bottom(r: Seq<usize>, n: int, k: int) -> int
    decreases k,
{
    if k <= 0 {
        0
    } else {
        max2(states_bottom(r, n, k - 1), state_y(r, k - 1, n) + 3)
    }
}

/// Rightmost column and lowest row reached by the placed notes among the
/// first `k`.
pub open spec fn notes_extent(sv: StateViews, tv: TransitionViews, nv: NoteViews, r: Seq<usize>, k: int) -> (int, int)
    decreases k,
{
    if k <= 0 {
        (0, 0)
    } else {
        let prev = notes_extent(sv, tv, nv, r, k - 1);
        if state_pos(sv, nv[k - 1].0) is Some {
            let i = state_pos(sv, nv[k - 1].0)->0;
            (
                max2(prev.0, note_x(sv, tv, nv, r, k - 1) + note_w(nv, k - 1)),
                max2(prev.1, state_y(r, i, sv.len() as int) + nv[k - 1].2.len() + 2),
            )
        } else {
            prev
        }
    }
}

/// Rightmost column reached by the labels and lanes of the first `k`
/// transitions.
pub open spec fn trans_right(sv: StateViews, tv: TransitionViews, nv: NoteViews, r: Seq<usize>, k: int) -> int
    decreases k,
{
    if k <= 0 {
        0
    } else {
        let g = trans_geom(sv, tv, nv, r, k - 1);
        max2(trans_right(sv, tv, nv, r, k - 1), g.0 + opt_tlw(tv[k - 1].3) + g.5 * 2 + 6)
    }
}

/// The whole layout of a database with ranks `r`.
pub open spec fn layout_matches(db: &StateDatabase, res: StateLayoutResult, r: Seq<usize>) -> bool {
    let sv = db.state_views();
    let tv = db.transition_views();
    let nv = db.note_views();
    let n = sv.len() as int;
    let order = rank_order(r, max_rank(r, n) + 1);
    let pn = placed_notes(sv, nv, nv.len() as int);
    &&& res.states.len() == order.len()
    &&& forall|p: int| 0 <= p < order.len() ==> state_placed_ok(#[trigger] res.states@[p], sv, tv, nv, r, order[p])
    &&& res.transitions.len() == tv.len()
    &&& forall|k: int| 0 <= k < tv.len() ==> trans_placed_ok(#[trigger] res.transitions@[k], sv, tv, nv, r, k)
    &&& res.notes.len() == pn.len()
    &&& forall|q: int| 0 <= q < pn.len() ==> note_placed_ok(#[trigger] res.notes@[q], sv, tv, nv, r, pn[q])
    &&& res.width == max2(
        max2(states_right(sv, tv, nv, r, n), notes_extent(sv, tv, nv, r, nv.len() as int).0),
        trans_right(sv, tv, nv, r, tv.len() as int),
    ) + n_self(tv, tv.len() as int) * 2 + 4
    &&& res.height == max2(states_bottom(r, n, n), notes_extent(sv, tv, nv, r, nv.len() as int).1)
}

/// The layout of a database: empty for an empty database, otherwise the
/// layout with the breadth-first ranks.
pub open spec fn state_layout_ok(db: &StateDatabase, res: StateLayoutResult) -> bool {
    let sv = db.state_views();
    let tv = db.transition_views();
    if sv.len() == 0 {
        &&& res.states.len() == 0
        &&& res.transitions.len() == 0
        &&& res.notes.len() == 0
        &&& res.width == 0
        &&& res.height == 0
    } else {
        exists|r: Seq<usize>, m: usize|
            #[trigger] ranks_ok(edge_indices(sv, tv), rank_start(sv, db.start_flag()), sv.len() as int, r, m)
                && #[trigger] layout_matches(db, res, r)
    }
}

/// Every transition as the positions of its two states.
fn edge_positions(db: &StateDatabase) -> (edges: Vec<(usize, usize)>)
    requires
        db.wf(),
    ensures
        edges@.len() == db.transition_views().len(),
        forall|k: int|
            0 <= k < edges@.len() ==> (#[trigger] edges@[k]).0 as int == state_pos(
                db.state_views(),
                db.transition_views()[k].0,
            )->0 && edges@[k].1 as int == state_pos(db.state_views(), db.transition_views()[k].1)->0
                && edges@[k].0 < db.state_views().len() && edges@[k].1 < db.state_views().len(),
        edges@.map_values(|e: (usize, usize)| (e.0 as int, e.1 as int)) == edge_indices(
            db.state_views(),
            db.transition_views(),
        ),
{
    let ghost sv = db.state_views();
    let ghost tv = db.transition_views();
    let n = db.state_count();
    let trans = db.transitions();
    let mut edges: Vec<(usize, usize)> = Vec::new();
    let mut k: usize = 0;
    while k < trans.len()
        invariant
            db.wf(),
            sv == db.state_views(),
            tv == db.transition_views(),
            n == sv.len(),
            trans@.map_values(|e: crate::model::EdgeData| super::database::edge_view(e)) == tv,
            k <= trans.len(),
            edges@.len() == k,
            forall|j: int|
                0 <= j < k ==> (#[trigger] edges@[j]).0 as int == state_pos(sv, tv[j].0)->0 && edges@[j].1 as int
                    == state_pos(sv, tv[j].1)->0 && edges@[j].0 < n && edges@[j].1 < n,
        decreases trans.len() - k,
    {
        let e = &trans[k];
        assert(tv[k as int] == super::database::edge_view(*e));
        assert(state_pos(sv, tv[k as int].0) is Some && state_pos(sv, tv[k as int].1) is Some);
        proof {
            lemma_state_pos(sv, tv[k as int].0);
            lemma_state_pos(sv, tv[k as int].1);
        }
        let f = match db.state_index(e.from.as_str()) {
            Some(i) => i,
            None => 0,
        };
        let t = match db.state_index(e.to.as_str()) {
            Some(i) => i,
            None => 0,
        };
        edges.push((f, t));
        k += 1;
    }
    assert(edges@.map_values(|e: (usize, usize)| (e.0 as int, e.1 as int)) =~= edge_indices(sv, tv));
    edges
}

/// Ranks of the states of a database, breadth first from the start.
fn compute_ranks(db: &StateDatabase, edges: &Vec<(usize, usize)>) -> (r: (Vec<usize>, usize))
    requires
        db.wf(),
        1 <= db.state_views().len() <= STATE_LIMIT,
        forall|k: int| 0 <= k < edges@.len() ==> (#[trigger] edges@[k]).0 < db.state_views().len() && edges@[k].1 < db.state_views().len(),
        edges@.map_values(|e: (usize, usize)| (e.0 as int, e.1 as int)) == edge_indices(
            db.state_views(),
            db.transition_views(),
        ),
    ensures
        ranks_ok(
            edge_indices(db.state_views(), db.transition_views()),
            rank_start(db.state_views(), db.start_flag()),
            db.state_views().len() as int,
            r.0@,
            r.1,
        ),
        r.1 <= db.state_views().len(),
        forall|v: int| 0 <= v < db.state_views().len() ==> #[trigger] r.0@[v] <= db.state_views().len() + 1,
{
    let ghost sv = db.state_views();
    let n = db.state_count();
    let start = if db.has_start_terminal() {
        proof {
            lemma_state_pos(sv, start_id());
            reveal_strlit("[*]_start");
        }
        assert(super::database::START_TERMINAL@ == start_id());
        db.state_index(super::database::START_TERMINAL)
    } else {
        Some(0)
    };
    proof {
        lemma_state_pos(sv, start_id());
    }
    let ghost st: Option<int> = match start {
        Some(x) => Some(x as int),
        None => None,
    };
    assert(st == rank_start(sv, db.start_flag()));
    assign_ranks(edges, start, n)
}

/// Width, slot, offset and self-loop label width of every state.
fn state_slots(
    states: &[NodeData],
    trans: &[crate::model::EdgeData],
    Ghost(sv): Ghost<StateViews>,
    Ghost(tv): Ghost<TransitionViews>,
) -> (r: (Vec<usize>, Vec<usize>, Vec<usize>, Vec<usize>))
    requires
        states@.map_values(|n: NodeData| super::database::node_view(n)) == sv,
        trans@.map_values(|e: crate::model::EdgeData| super::database::edge_view(e)) == tv,
        forall|i: int| 0 <= i < sv.len() ==> (#[trigger] sv[i]).1.len() <= STATE_LIMIT,
        forall|k: int| 0 <= k < tv.len() ==> opt_tlw((#[trigger] tv[k]).3) <= STATE_LIMIT,
    ensures
        r.0@.len() == sv.len(),
        r.1@.len() == sv.len(),
        r.2@.len() == sv.len(),
        r.3@.len() == sv.len(),
        forall|i: int| 0 <= i < sv.len() ==> #[trigger] r.0@[i] == size_w(sv[i]) && r.0@[i] <= STATE_LIMIT + 4,
        forall|i: int|
            0 <= i < sv.len() ==> #[trigger] r.1@[i] == slot(sv, tv, i) && r.1@[i] <= 2 * STATE_LIMIT + 12 && r.2@[i]
                == offset(sv, tv, i) && r.2@[i] <= r.1@[i],
        forall|i: int| 0 <= i < sv.len() ==> #[trigger] r.3@[i] == self_w(tv, sv[i].0, tv.len() as int) && r.3@[i] <= STATE_LIMIT,
{
    let mut ws: Vec<usize> = Vec::new();
    let mut slots: Vec<usize> = Vec::new();
    let mut offs: Vec<usize> = Vec::new();
    let mut sws: Vec<usize> = Vec::new();
    let mut i: usize = 0;
    while i < states.len()
        invariant
            states@.map_values(|n: NodeData| super::database::node_view(n)) == sv,
            trans@.map_values(|e: crate::model::EdgeData| super::database::edge_view(e)) == tv,
            forall|i: int| 0 <= i < sv.len() ==> (#[trigger] sv[i]).1.len() <= STATE_LIMIT,
            forall|k: int| 0 <= k < tv.len() ==> opt_tlw((#[trigger] tv[k]).3) <= STATE_LIMIT,
            i <= states.len(),
            ws@.len() == i,
            slots@.len() == i,
            offs@.len() == i,
            sws@.len() == i,
            forall|j: int| 0 <= j < i ==> #[trigger] ws@[j] == size_w(sv[j]) && ws@[j] <= STATE_LIMIT + 4,
            forall|j: int|
                0 <= j < i ==> #[trigger] slots@[j] == slot(sv, tv, j) && slots@[j] <= 2 * STATE_LIMIT + 12
                    && offs@[j] == offset(sv, tv, j) && offs@[j] <= slots@[j],
            forall|j: int| 0 <= j < i ==> #[trigger] sws@[j] == self_w(tv, sv[j].0, tv.len() as int) && sws@[j] <= STATE_LIMIT,
        decreases states.len() - i,
    {
        let st = &states[i];
        assert(sv[i as int] == super::database::node_view(*st));
        assert(sv[i as int].1.len() <= STATE_LIMIT);
        let w = state_width(st);
        let (c, sw) = label_widths(trans, &st.id, Ghost(tv));
        let extra: usize = if sw > 0 {
            8
        } else {
            0
        };
        let a = if w > c {
            w
        } else {
            c
        };
        let b = w + sw + extra;
        let sl = if a >= b {
            a
        } else {
            b
        };
        let off = if sw > 0 {
            0
        } else {
            (sl - w) / 2
        };
        ws.push(w);
        slots.push(sl);
        offs.push(off);
        sws.push(sw);
        i += 1;
    }
    (ws, slots, offs, sws)
}

/// Width and number of states of every row `0 ..= maxr`.
fn row_tables(
    ranks: &Vec<usize>,
    slots: &Vec<usize>,
    maxr: usize,
    Ghost(sv): Ghost<StateViews>,
    Ghost(tv): Ghost<TransitionViews>,
) -> (r: (Vec<usize>, Vec<usize>))
    requires
        ranks@.len() == sv.len(),
        slots@.len() == sv.len(),
        sv.len() <= STATE_LIMIT,
        maxr <= STATE_LIMIT + 1,
        slot_sum(sv, tv, sv.len() as int) <= STATE_LIMIT,
        forall|i: int| 0 <= i < sv.len() ==> #[trigger] ranks@[i] <= maxr,
        forall|i: int| 0 <= i < sv.len() ==> #[trigger] slots@[i] == slot(sv, tv, i) && slots@[i] <= 2 * STATE_LIMIT + 12,
    ensures
        r.0@.len() == maxr + 1,
        r.1@.len() == maxr + 1,
        forall|rk: int|
            0 <= rk <= maxr ==> #[trigger] r.0@[rk] == row_width(sv, tv, ranks@, rk, sv.len() as int) && r.1@[rk]
                == row_count(ranks@, rk, sv.len() as int) && r.0@[rk] <= STATE_LIMIT,
{
    let mut rw: Vec<usize> = Vec::new();
    let mut cnt: Vec<usize> = Vec::new();
    let mut q: usize = 0;
    while q <= maxr
        invariant
            maxr <= STATE_LIMIT + 1,
            q <= maxr + 1,
            rw@.len() == q,
            cnt@.len() == q,
            forall|rk: int| 0 <= rk < q ==> #[trigger] rw@[rk] == 0 && cnt@[rk] == 0,
        decreases maxr + 1 - q,
    {
        rw.push(0);
        cnt.push(0);
        q += 1;
    }
    let n = ranks.len();
    let mut i: usize = 0;
    while i < n
        invariant
            n == sv.len(),
            ranks@.len() == n,
            slots@.len() == n,
            n <= STATE_LIMIT,
            slot_sum(sv, tv, n as int) <= STATE_LIMIT,
            i <= n,
            rw@.len() == maxr + 1,
            cnt@.len() == maxr + 1,
            forall|i: int| 0 <= i < n ==> #[trigger] ranks@[i] <= maxr,
            forall|i: int| 0 <= i < n ==> #[trigger] slots@[i] == slot(sv, tv, i) && slots@[i] <= 2 * STATE_LIMIT + 12,
            forall|rk: int|
                0 <= rk <= maxr ==> #[trigger] rw@[rk] == row_width(sv, tv, ranks@, rk, i as int) && cnt@[rk]
                    == row_count(ranks@, rk, i as int) && rw@[rk] <= slot_sum(sv, tv, i as int) && cnt@[rk] <= i,
        decreases n - i,
    {
        let rk = ranks[i];
        proof {
            lemma_slot_sum_mono(sv, tv, i + 1, n as int);
            lemma_slot_sum_mono(sv, tv, i as int, i + 1);
        }
        let gap: usize = if cnt[rk] > 0 {
            3
        } else {
            0
        };
        let nw = rw[rk] + slots[i] + gap;
        let nc = cnt[rk] + 1;
        let ghost rw0 = rw@;
        let ghost cnt0 = cnt@;
        rw.set(rk, nw);
        cnt.set(rk, nc);
        assert forall|q: int| 0 <= q <= maxr implies #[trigger] rw@[q] == row_width(sv, tv, ranks@, q, i + 1) && cnt@[q]
            == row_count(ranks@, q, i + 1) && rw@[q] <= slot_sum(sv, tv, i + 1) && cnt@[q] <= i + 1 by {
            if q != rk {
                assert(rw@[q] == rw0[q]);
                assert(cnt@[q] == cnt0[q]);
            }
        }
        i += 1;
    }
    proof {
        assert forall|rk: int| 0 <= rk <= maxr implies #[trigger] rw@[rk] <= STATE_LIMIT by {
            assert(rw@[rk] <= slot_sum(sv, tv, n as int));
        }
    }
    (rw, cnt)
}

/// The widest line (plus 2) of a note's lines.
fn note_lines_width(text: &Vec<String>) -> (r: usize)
    requires
        text@.len() <= STATE_LIMIT,
        forall|l: int| 0 <= l < text@.len() ==> (#[trigger] text@[l])@.len() <= STATE_LIMIT,
    ensures
        r == lines_w(text@.map_values(|l: String| l@), text@.len() as int),
        r <= STATE_LIMIT + 2,
{
    let ghost ls = text@.map_values(|l: String| l@);
    let mut best: usize = 0;
    let mut k: usize = 0;
    while k < text.len()
        invariant
            ls == text@.map_values(|l: String| l@),
            forall|l: int| 0 <= l < text@.len() ==> (#[trigger] text@[l])@.len() <= STATE_LIMIT,
            k <= text.len(),
            best == lines_w(ls, k as int),
            best <= STATE_LIMIT + 2,
        decreases text.len() - k,
    {
        assert(ls[k as int] == text@[k as int]@);
        let len = crate::text::to_chars(text[k].as_str()).len();
        if len + 2 > best {
            best = len + 2;
        }
        k += 1;
    }
    best
}

/// Columns kept free on the left.
fn margin(
    trans: &[crate::model::EdgeData],
    notes: &[StateNote],
    edges_ranks: &Vec<(usize, usize)>,
    Ghost(sv): Ghost<StateViews>,
    Ghost(tv): Ghost<TransitionViews>,
    Ghost(nv): Ghost<NoteViews>,
    Ghost(r): Ghost<Seq<usize>>,
) -> (m: usize)
    requires
        trans@.map_values(|e: crate::model::EdgeData| super::database::edge_view(e)) == tv,
        notes@.map_values(|n: StateNote| note_view(n)) == nv,
        edges_ranks@.len() == tv.len(),
        forall|k: int|
            0 <= k < tv.len() ==> (#[trigger] edges_ranks@[k]).0 == rank_of(sv, r, tv[k].0) && edges_ranks@[k].1
                == rank_of(sv, r, tv[k].1),
        tv.len() <= STATE_LIMIT,
        nv.len() <= STATE_LIMIT,
        forall|k: int| 0 <= k < tv.len() ==> opt_tlw((#[trigger] tv[k]).3) <= STATE_LIMIT,
        forall|j: int|
            0 <= j < nv.len() ==> (#[trigger] nv[j]).2.len() <= STATE_LIMIT && forall|l: int|
                0 <= l < nv[j].2.len() ==> (#[trigger] nv[j].2[l]).len() <= STATE_LIMIT,
    ensures
        m == left_margin(sv, tv, nv, r),
        m <= 4 * STATE_LIMIT + 10,
{
    let mut nb: usize = 0;
    let mut bw: usize = 0;
    let mut k: usize = 0;
    while k < trans.len()
        invariant
            trans@.map_values(|e: crate::model::EdgeData| super::database::edge_view(e)) == tv,
            edges_ranks@.len() == tv.len(),
            forall|k: int|
                0 <= k < tv.len() ==> (#[trigger] edges_ranks@[k]).0 == rank_of(sv, r, tv[k].0) && edges_ranks@[k].1
                    == rank_of(sv, r, tv[k].1),
            tv.len() <= STATE_LIMIT,
            forall|k: int| 0 <= k < tv.len() ==> opt_tlw((#[trigger] tv[k]).3) <= STATE_LIMIT,
            k <= trans.len(),
            nb == n_back(sv, tv, r, k as int),
            bw == back_label_w(sv, tv, r, k as int),
            nb <= k,
            bw <= STATE_LIMIT,
        decreases trans.len() - k,
    {
        let e = &trans[k];
        assert(tv[k as int] == super::database::edge_view(*e));
        let (fr, tr) = edges_ranks[k];
        assert(opt_tlw(tv[k as int].3) <= STATE_LIMIT);
        if !(e.from == e.to) && tr < fr {
            nb += 1;
            let w = opt_label_width(&e.label);
            if w > bw {
                bw = w;
            }
        }
        k += 1;
    }
    let mut lw: usize = 0;
    let mut j: usize = 0;
    while j < notes.len()
        invariant
            notes@.map_values(|n: StateNote| note_view(n)) == nv,
            nv.len() <= STATE_LIMIT,
            forall|j: int|
                0 <= j < nv.len() ==> (#[trigger] nv[j]).2.len() <= STATE_LIMIT && forall|l: int|
                    0 <= l < nv[j].2.len() ==> (#[trigger] nv[j].2[l]).len() <= STATE_LIMIT,
            j <= notes.len(),
            lw == left_note_w(nv, j as int),
            lw <= STATE_LIMIT + 2,
        decreases notes.len() - j,
    {
        let note = &notes[j];
        assert(nv[j as int] == note_view(*note));
        if note.side == NoteSide::Left {
            assert(nv[j as int].2 == note.text@.map_values(|l: String| l@));
            assert forall|l: int| 0 <= l < note.text@.len() implies (#[trigger] note.text@[l])@.len() <= STATE_LIMIT by {
                assert(nv[j as int].2[l] == note.text@[l]@);
            }
            let w = note_lines_width(&note.text);
            if w > lw {
                lw = w;
            }
        }
        j += 1;
    }
    2 * nb + bw + lw + 8
}

/// The largest rank.
fn largest_rank(ranks: &Vec<usize>, bound: usize) -> (m: usize)
    requires
        forall|i: int| 0 <= i < ranks@.len() ==> #[trigger] ranks@[i] <= bound,
    ensures
        m == max_rank(ranks@, ranks@.len() as int),
        m <= bound,
        forall|i: int| 0 <= i < ranks@.len() ==> #[trigger] ranks@[i] <= m,
{
    let mut m: usize = 0;
    let mut i: usize = 0;
    while i < ranks.len()
        invariant
            forall|i: int| 0 <= i < ranks@.len() ==> #[trigger] ranks@[i] <= bound,
            i <= ranks.len(),
            m == max_rank(ranks@, i as int),
            m <= bound,
            forall|j: int| 0 <= j < i ==> #[trigger] ranks@[j] <= m,
        decreases ranks.len() - i,
    {
        if ranks[i] > m {
            m = ranks[i];
        }
        i += 1;
    }
    m
}

/// The column and row of every state.
fn positions(
    ranks: &Vec<usize>,
    slots: &Vec<usize>,
    offs: &Vec<usize>,
    rw: &Vec<usize>,
    cnt: &Vec<usize>,
    maxr: usize,
    lm: usize,
    Ghost(sv): Ghost<StateViews>,
    Ghost(tv): Ghost<TransitionViews>,
    Ghost(nv): Ghost<NoteViews>,
) -> (r: (Vec<usize>, Vec<usize>))
    requires
        ranks@.len() == sv.len(),
        slots@.len() == sv.len(),
        offs@.len() == sv.len(),
        sv.len() <= STATE_LIMIT,
        maxr == max_rank(ranks@, sv.len() as int),
        maxr <= STATE_LIMIT + 1,
        lm == left_margin(sv, tv, nv, ranks@),
        lm <= 4 * STATE_LIMIT + 10,
        slot_sum(sv, tv, sv.len() as int) <= STATE_LIMIT,
        forall|i: int| 0 <= i < sv.len() ==> #[trigger] ranks@[i] <= maxr,
        forall|i: int|
            0 <= i < sv.len() ==> #[trigger] slots@[i] == slot(sv, tv, i) && slots@[i] <= 2 * STATE_LIMIT + 12
                && offs@[i] == offset(sv, tv, i) && offs@[i] <= slots@[i],
        rw@.len() == maxr + 1,
        cnt@.len() == maxr + 1,
        forall|rk: int|
            0 <= rk <= maxr ==> #[trigger] rw@[rk] == row_width(sv, tv, ranks@, rk, sv.len() as int) && cnt@[rk]
                == row_count(ranks@, rk, sv.len() as int) && rw@[rk] <= STATE_LIMIT,
    ensures
        r.0@.len() == sv.len(),
        r.1@.len() == sv.len(),
        forall|i: int| 0 <= i < sv.len() ==> #[trigger] r.0@[i] == state_x(sv, tv, nv, ranks@, i) && r.0@[i] <= 8 * STATE_LIMIT + 22,
        forall|i: int| 0 <= i < sv.len() ==> #[trigger] r.1@[i] == state_y(ranks@, i, sv.len() as int) && r.1@[i] <= 10 * STATE_LIMIT + 20,
{
    let n = ranks.len();
    let mut mrw: usize = 0;
    let mut q: usize = 0;
    while q <= maxr
        invariant
            maxr <= STATE_LIMIT + 1,
            rw@.len() == maxr + 1,
            forall|rk: int|
                0 <= rk <= maxr ==> #[trigger] rw@[rk] == row_width(sv, tv, ranks@, rk, sv.len() as int) && rw@[rk]
                    <= STATE_LIMIT,
            q <= maxr + 1,
            mrw == max_row_width(sv, tv, ranks@, q as int),
            mrw <= STATE_LIMIT,
        decreases maxr + 1 - q,
    {
        if rw[q] > mrw {
            mrw = rw[q];
        }
        q += 1;
    }
    let center = mrw / 2;
    assert forall|rk: int| 0 <= rk <= maxr implies #[trigger] cnt@[rk] == row_count(ranks@, rk, sv.len() as int) by {
        assert(rw@[rk] == row_width(sv, tv, ranks@, rk, sv.len() as int));
    }
    let mut ry: Vec<usize> = Vec::new();
    let mut y: usize = 0;
    let mut p: usize = 0;
    while p <= maxr
        invariant
            maxr <= STATE_LIMIT + 1,
            cnt@.len() == maxr + 1,
            forall|rk: int| 0 <= rk <= maxr ==> #[trigger] cnt@[rk] == row_count(ranks@, rk, sv.len() as int),
            p <= maxr + 1,
            ry@.len() == p,
            y == row_y(ranks@, p as int, sv.len() as int),
            y <= p * 10,
            forall|rk: int| 0 <= rk < p ==> #[trigger] ry@[rk] == row_y(ranks@, rk, sv.len() as int) && ry@[rk] <= rk * 10,
        decreases maxr + 1 - p,
    {
        ry.push(y);
        if cnt[p] > 0 {
            y = y + 10;
        }
        p += 1;
    }
    let mut acc: Vec<usize> = Vec::new();
    let mut a: usize = 0;
    while a <= maxr
        invariant
            maxr <= STATE_LIMIT + 1,
            a <= maxr + 1,
            acc@.len() == a,
            forall|rk: int| 0 <= rk < a ==> #[trigger] acc@[rk] == 0,
        decreases maxr + 1 - a,
    {
        acc.push(0);
        a += 1;
    }
    let mut xs: Vec<usize> = Vec::new();
    let mut ys: Vec<usize> = Vec::new();
    let mut i: usize = 0;
    while i < n
        invariant
            n == sv.len(),
            n <= STATE_LIMIT,
            ranks@.len() == n,
            slots@.len() == n,
            offs@.len() == n,
            maxr == max_rank(ranks@, n as int),
            maxr <= STATE_LIMIT + 1,
            lm == left_margin(sv, tv, nv, ranks@),
            lm <= 4 * STATE_LIMIT + 10,
            slot_sum(sv, tv, n as int) <= STATE_LIMIT,
            center == max_row_width(sv, tv, ranks@, maxr + 1) / 2,
            center <= STATE_LIMIT,
            forall|i: int| 0 <= i < n ==> #[trigger] ranks@[i] <= maxr,
            forall|i: int|
                0 <= i < n ==> #[trigger] slots@[i] == slot(sv, tv, i) && slots@[i] <= 2 * STATE_LIMIT + 12
                    && offs@[i] == offset(sv, tv, i) && offs@[i] <= slots@[i],
            rw@.len() == maxr + 1,
            forall|rk: int|
                0 <= rk <= maxr ==> #[trigger] rw@[rk] == row_width(sv, tv, ranks@, rk, n as int) && rw@[rk] <= STATE_LIMIT,
            ry@.len() == maxr + 1,
            forall|rk: int| 0 <= rk <= maxr ==> #[trigger] ry@[rk] == row_y(ranks@, rk, n as int) && ry@[rk] <= rk * 10,
            acc@.len() == maxr + 1,
            forall|rk: int| 0 <= rk <= maxr ==> #[trigger] acc@[rk] == before_in_row(sv, tv, ranks@, rk, i as int) && acc@[rk] <= slot_sum(sv, tv, i as int),
            i <= n,
            xs@.len() == i,
            ys@.len() == i,
            forall|j: int| 0 <= j < i ==> #[trigger] xs@[j] == state_x(sv, tv, nv, ranks@, j) && xs@[j] <= 8 * STATE_LIMIT + 22,
            forall|j: int| 0 <= j < i ==> #[trigger] ys@[j] == state_y(ranks@, j, n as int) && ys@[j] <= 10 * STATE_LIMIT + 20,
        decreases n - i,
    {
        let rk = ranks[i];
        let half = rw[rk] / 2;
        let shift = if center >= half {
            center - half
        } else {
            0
        };
        proof {
            lemma_slot_sum_mono(sv, tv, i + 1, n as int);
            lemma_slot_sum_mono(sv, tv, i as int, i + 1);
        }
        assert(slot_sum(sv, tv, i as int) <= STATE_LIMIT);
        assert(slots@[i as int] <= 2 * STATE_LIMIT + 12 && offs@[i as int] <= slots@[i as int]);
        assert(acc@[rk as int] <= slot_sum(sv, tv, i as int));
        let x = lm + shift + acc[rk] + offs[i];
        xs.push(x);
        ys.push(ry[rk]);
        let ghost acc0 = acc@;
        let na = acc[rk] + slots[i] + 3;
        acc.set(rk, na);
        assert forall|q: int| 0 <= q <= maxr implies #[trigger] acc@[q] == before_in_row(sv, tv, ranks@, q, i + 1) && acc@[q]
            <= slot_sum(sv, tv, i + 1) by {
            if q != rk {
                assert(acc@[q] == acc0[q]);
            }
        }
        i += 1;
    }
    (xs, ys)
}

/// The placed states, rank by rank.
fn place_states(
    states: &[NodeData],
    ranks: &Vec<usize>,
    xs: &Vec<usize>,
    ys: &Vec<usize>,
    ws: &Vec<usize>,
    maxr: usize,
    Ghost(sv): Ghost<StateViews>,
    Ghost(tv): Ghost<TransitionViews>,
    Ghost(nv): Ghost<NoteViews>,
) -> (out: Vec<PositionedState>)
    requires
        states@.map_values(|n: NodeData| super::database::node_view(n)) == sv,
        ranks@.len() == sv.len(),
        xs@.len() == sv.len(),
        ys@.len() == sv.len(),
        ws@.len() == sv.len(),
        maxr <= STATE_LIMIT + 1,
        forall|i: int| 0 <= i < sv.len() ==> #[trigger] xs@[i] == state_x(sv, tv, nv, ranks@, i),
        forall|i: int| 0 <= i < sv.len() ==> #[trigger] ys@[i] == state_y(ranks@, i, sv.len() as int),
        forall|i: int| 0 <= i < sv.len() ==> #[trigger] ws@[i] == size_w(sv[i]),
        forall|i: int| 0 <= i < sv.len() ==> #[trigger] xs@[i] <= 8 * STATE_LIMIT + 22,
        forall|i: int| 0 <= i < sv.len() ==> #[trigger] ys@[i] <= 10 * STATE_LIMIT + 20,
        forall|i: int| 0 <= i < sv.len() ==> #[trigger] ws@[i] <= STATE_LIMIT + 4,
    ensures
        forall|p: int|
            0 <= p < out@.len() ==> (#[trigger] out@[p]).x <= 8 * STATE_LIMIT + 22 && out@[p].y <= 10 * STATE_LIMIT + 20 && out@[p].width
                <= STATE_LIMIT + 4 && 3 <= out@[p].width && out@[p].height == 3,
        out@.len() == rank_order(ranks@, maxr + 1).len(),
        forall|p: int|
            0 <= p < out@.len() ==> state_placed_ok(#[trigger] out@[p], sv, tv, nv, ranks@, rank_order(ranks@, maxr + 1)[p]),
{
    let n = ranks.len();
    let ghost r = ranks@;
    let mut out: Vec<PositionedState> = Vec::new();
    let mut rk: usize = 0;
    while rk <= maxr
        invariant
            states@.map_values(|n: NodeData| super::database::node_view(n)) == sv,
            r == ranks@,
            n == r.len(),
            n == sv.len(),
            xs@.len() == n,
            ys@.len() == n,
            ws@.len() == n,
            maxr <= STATE_LIMIT + 1,
            forall|i: int| 0 <= i < sv.len() ==> #[trigger] xs@[i] == state_x(sv, tv, nv, ranks@, i),
            forall|i: int| 0 <= i < sv.len() ==> #[trigger] ys@[i] == state_y(ranks@, i, sv.len() as int),
            forall|i: int| 0 <= i < sv.len() ==> #[trigger] ws@[i] == size_w(sv[i]),
            forall|i: int| 0 <= i < sv.len() ==> #[trigger] xs@[i] <= 8 * STATE_LIMIT + 22,
            forall|i: int| 0 <= i < sv.len() ==> #[trigger] ys@[i] <= 10 * STATE_LIMIT + 20,
            forall|i: int| 0 <= i < sv.len() ==> #[trigger] ws@[i] <= STATE_LIMIT + 4,
            forall|p: int|
                0 <= p < out@.len() ==> (#[trigger] out@[p]).x <= 8 * STATE_LIMIT + 22 && out@[p].y <= 10 * STATE_LIMIT + 20 && out@[p].width
                    <= STATE_LIMIT + 4 && 3 <= out@[p].width && out@[p].height == 3,
            rk <= maxr + 1,
            out@.len() == rank_order(r, rk as int).len(),
            forall|p: int|
                0 <= p < out@.len() ==> state_placed_ok(#[trigger] out@[p], sv, tv, nv, r, rank_order(r, rk as int)[p]),
        decreases maxr + 1 - rk,
    {
        let mut i: usize = 0;
        while i < n
            invariant
                states@.map_values(|n: NodeData| super::database::node_view(n)) == sv,
                r == ranks@,
                n == r.len(),
                n == sv.len(),
                xs@.len() == n,
                ys@.len() == n,
                ws@.len() == n,
                rk <= maxr,
                maxr <= STATE_LIMIT + 1,
                forall|i: int| 0 <= i < sv.len() ==> #[trigger] xs@[i] == state_x(sv, tv, nv, ranks@, i),
                forall|i: int| 0 <= i < sv.len() ==> #[trigger] ys@[i] == state_y(ranks@, i, sv.len() as int),
                forall|i: int| 0 <= i < sv.len() ==> #[trigger] ws@[i] == size_w(sv[i]),
                forall|i: int| 0 <= i < sv.len() ==> #[trigger] xs@[i] <= 8 * STATE_LIMIT + 22,
                forall|i: int| 0 <= i < sv.len() ==> #[trigger] ys@[i] <= 10 * STATE_LIMIT + 20,
                forall|i: int| 0 <= i < sv.len() ==> #[trigger] ws@[i] <= STATE_LIMIT + 4,
                forall|p: int|
                    0 <= p < out@.len() ==> (#[trigger] out@[p]).x <= 8 * STATE_LIMIT + 22 && out@[p].y <= 10 * STATE_LIMIT + 20 && out@[p].width
                        <= STATE_LIMIT + 4 && 3 <= out@[p].width && out@[p].height == 3,
                i <= n,
                out@.len() == (rank_order(r, rk as int) + members(r, rk as int, i as int)).len(),
                forall|p: int|
                    0 <= p < out@.len() ==> state_placed_ok(
                        #[trigger] out@[p],
                        sv,
                        tv,
                        nv,
                        r,
                        (rank_order(r, rk as int) + members(r, rk as int, i as int))[p],
                    ),
            decreases n - i,
        {
            if ranks[i] == rk {
                let st = &states[i];
                assert(sv[i as int] == super::database::node_view(*st));
                let p = PositionedState {
                    id: st.id.clone(),
                    label: st.label.clone(),
                    shape: st.shape,
                    x: xs[i],
                    y: ys[i],
                    width: ws[i],
                    height: 3,
                    rank: ranks[i],
                };
                let ghost before = rank_order(r, rk as int) + members(r, rk as int, i as int);
                assert(state_placed_ok(p, sv, tv, nv, r, i as int));
                out.push(p);
                assert(rank_order(r, rk as int) + members(r, rk as int, i + 1) =~= before.push(i as int));
            } else {
                assert(members(r, rk as int, i + 1) == members(r, rk as int, i as int));
            }
            i += 1;
        }
        assert(rank_order(r, rk + 1) == rank_order(r, rk as int) + members(r, rk as int, n as int));
        rk += 1;
    }
    out
}

/// The placed transitions, the rightmost column their labels and lanes
/// reach, and the number of self-loops.
fn place_transitions(
    trans: &[crate::model::EdgeData],
    edges: &Vec<(usize, usize)>,
    ranks: &Vec<usize>,
    xs: &Vec<usize>,
    ys: &Vec<usize>,
    ws: &Vec<usize>,
    Ghost(sv): Ghost<StateViews>,
    Ghost(tv): Ghost<TransitionViews>,
    Ghost(nv): Ghost<NoteViews>,
) -> (r: (Vec<PositionedTransition>, usize, usize))
    requires
        trans@.map_values(|e: crate::model::EdgeData| super::database::edge_view(e)) == tv,
        tv.len() <= STATE_LIMIT,
        forall|k: int| 0 <= k < tv.len() ==> opt_tlw((#[trigger] tv[k]).3) <= STATE_LIMIT,
        forall|k: int| 0 <= k < tv.len() ==> ((#[trigger] tv[k]).3 matches Some(l) ==> l.len() <= STATE_LIMIT),
        edges@.len() == tv.len(),
        forall|k: int|
            0 <= k < tv.len() ==> (#[trigger] edges@[k]).0 as int == state_pos(sv, tv[k].0)->0 && edges@[k].1 as int
                == state_pos(sv, tv[k].1)->0 && edges@[k].0 < sv.len() && edges@[k].1 < sv.len(),
        ranks@.len() == sv.len(),
        xs@.len() == sv.len(),
        ys@.len() == sv.len(),
        ws@.len() == sv.len(),
        forall|i: int| 0 <= i < sv.len() ==> #[trigger] xs@[i] == state_x(sv, tv, nv, ranks@, i) && xs@[i] <= 8 * STATE_LIMIT + 22,
        forall|i: int| 0 <= i < sv.len() ==> #[trigger] ys@[i] == state_y(ranks@, i, sv.len() as int) && ys@[i] <= 10 * STATE_LIMIT + 20,
        forall|i: int| 0 <= i < sv.len() ==> #[trigger] ws@[i] == size_w(sv[i]) && ws@[i] <= STATE_LIMIT + 4,
    ensures
        forall|k: int|
            0 <= k < tv.len() ==> {
                let e = #[trigger] r.0@[k];
                &&& e.from_x <= 9 * STATE_LIMIT + 26
                &&& e.from_y <= 10 * STATE_LIMIT + 23
                &&& e.to_x <= 9 * STATE_LIMIT + 26
                &&& e.to_y <= 10 * STATE_LIMIT + 23
                &&& e.lane <= STATE_LIMIT
                &&& label_w_of(e.label) <= STATE_LIMIT
                &&& (e.label matches Some(t) ==> t@.len() <= STATE_LIMIT)
                &&& (e.route == TransitionRoute::Forward ==> e.from_y + 1 <= e.to_y)
            },
        r.0@.len() == tv.len(),
        forall|k: int| 0 <= k < tv.len() ==> trans_placed_ok(#[trigger] r.0@[k], sv, tv, nv, ranks@, k),
        r.1 == trans_right(sv, tv, nv, ranks@, tv.len() as int),
        r.1 <= 12 * STATE_LIMIT + 40,
        r.2 == n_self(tv, tv.len() as int),
        r.2 <= STATE_LIMIT,
{
    let ghost rv = ranks@;
    let mut out: Vec<PositionedTransition> = Vec::new();
    let mut right: usize = 0;
    let mut self_lane: usize = 0;
    let mut back_lane: usize = 0;
    let mut k: usize = 0;
    while k < trans.len()
        invariant
            trans@.map_values(|e: crate::model::EdgeData| super::database::edge_view(e)) == tv,
            tv.len() <= STATE_LIMIT,
            forall|k: int| 0 <= k < tv.len() ==> opt_tlw((#[trigger] tv[k]).3) <= STATE_LIMIT,
            forall|k: int| 0 <= k < tv.len() ==> ((#[trigger] tv[k]).3 matches Some(l) ==> l.len() <= STATE_LIMIT),
            edges@.len() == tv.len(),
            forall|k: int|
                0 <= k < tv.len() ==> (#[trigger] edges@[k]).0 as int == state_pos(sv, tv[k].0)->0 && edges@[k].1 as int
                    == state_pos(sv, tv[k].1)->0 && edges@[k].0 < sv.len() && edges@[k].1 < sv.len(),
            rv == ranks@,
            ranks@.len() == sv.len(),
            xs@.len() == sv.len(),
            ys@.len() == sv.len(),
            ws@.len() == sv.len(),
            forall|i: int| 0 <= i < sv.len() ==> #[trigger] xs@[i] == state_x(sv, tv, nv, rv, i) && xs@[i] <= 8 * STATE_LIMIT + 22,
            forall|i: int| 0 <= i < sv.len() ==> #[trigger] ys@[i] == state_y(rv, i, sv.len() as int) && ys@[i] <= 10 * STATE_LIMIT + 20,
            forall|i: int| 0 <= i < sv.len() ==> #[trigger] ws@[i] == size_w(sv[i]) && ws@[i] <= STATE_LIMIT + 4,
            k <= trans.len(),
            out@.len() == k,
            forall|j: int|
                0 <= j < k ==> {
                    let e = #[trigger] out@[j];
                    &&& e.from_x <= 9 * STATE_LIMIT + 26
                    &&& e.from_y <= 10 * STATE_LIMIT + 23
                    &&& e.to_x <= 9 * STATE_LIMIT + 26
                    &&& e.to_y <= 10 * STATE_LIMIT + 23
                    &&& e.lane <= STATE_LIMIT
                    &&& label_w_of(e.label) <= STATE_LIMIT
                    &&& (e.label matches Some(t) ==> t@.len() <= STATE_LIMIT)
                    &&& (e.route == TransitionRoute::Forward ==> e.from_y + 1 <= e.to_y)
                },
            forall|j: int| 0 <= j < k ==> trans_placed_ok(#[trigger] out@[j], sv, tv, nv, rv, j),
            right == trans_right(sv, tv, nv, rv, k as int),
            right <= 12 * STATE_LIMIT + 40,
            self_lane == n_self(tv, k as int),
            back_lane == n_back(sv, tv, rv, k as int),
            self_lane <= k,
            back_lane <= k,
        decreases trans.len() - k,
    {
        let e = &trans[k];
        assert(tv[k as int] == super::database::edge_view(*e));
        let (f, g) = edges[k];
        let fx = xs[f];
        let fy = ys[f];
        let fw = ws[f];
        let tx = xs[g];
        let ty = ys[g];
        let tw = ws[g];
        let same = e.from == e.to;
        let (from_x, from_y, to_x, to_y, route, lane) = if same {
            let lane = self_lane;
            self_lane += 1;
            (fx + fw, fy + 1, fx + fw / 2, fy + 3, TransitionRoute::SelfLoop, lane)
        } else if ranks[g] > ranks[f] {
            (fx + fw / 2, fy + 3, tx + tw / 2, ty, TransitionRoute::Forward, 0)
        } else if ranks[g] < ranks[f] {
            let lane = back_lane;
            back_lane += 1;
            (fx, fy + 1, tx, ty + 1, TransitionRoute::Backward, lane)
        } else if fx < tx {
            (fx + fw, fy + 1, tx, ty + 1, TransitionRoute::Horizontal, 0)
        } else {
            (fx, fy + 1, tx + tw, ty + 1, TransitionRoute::Horizontal, 0)
        };
        assert(opt_tlw(tv[k as int].3) <= STATE_LIMIT);
        let lw = opt_label_width(&e.label);
        let reach = from_x + lw + lane * 2 + 6;
        if reach > right {
            right = reach;
        }
        let label = match &e.label {
            Some(l) => Some(l.clone()),
            None => None,
        };
        let p = PositionedTransition {
            from_id: e.from.clone(),
            to_id: e.to.clone(),
            label,
            from_x,
            from_y,
            to_x,
            to_y,
            route,
            lane,
        };
        assert(trans_placed_ok(p, sv, tv, nv, rv, k as int));
        if route == TransitionRoute::Forward {
            proof {
                lemma_row_y_mono(rv, rv[f as int] as int, rv[g as int] as int, sv.len() as int);
                lemma_row_count_pos(rv, rv[f as int] as int, sv.len() as int, f as int);
            }
        }
        assert(tv[k as int].3 == super::database::label_view(e.label));
        out.push(p);
        k += 1;
    }
    (out, right, self_lane)
}

/// The notes placed beside their states, and the rightmost column and
/// lowest row they reach.
fn place_notes(
    db: &StateDatabase,
    xs: &Vec<usize>,
    ys: &Vec<usize>,
    ws: &Vec<usize>,
    sws: &Vec<usize>,
    Ghost(r): Ghost<Seq<usize>>,
) -> (res: (Vec<PositionedNote>, usize, usize))
    requires
        db.wf(),
        state_fits(db.state_views(), db.transition_views(), db.note_views()),
        r.len() == db.state_views().len(),
        xs@.len() == db.state_views().len(),
        ys@.len() == db.state_views().len(),
        ws@.len() == db.state_views().len(),
        sws@.len() == db.state_views().len(),
        forall|i: int|
            0 <= i < db.state_views().len() ==> #[trigger] xs@[i] == state_x(
                db.state_views(),
                db.transition_views(),
                db.note_views(),
                r,
                i,
            ) && xs@[i] <= 8 * STATE_LIMIT + 22,
        forall|i: int|
            0 <= i < db.state_views().len() ==> #[trigger] ys@[i] == state_y(r, i, db.state_views().len() as int)
                && ys@[i] <= 10 * STATE_LIMIT + 20,
        forall|i: int|
            0 <= i < db.state_views().len() ==> #[trigger] ws@[i] == size_w(db.state_views()[i]) && ws@[i]
                <= STATE_LIMIT + 4,
        forall|i: int|
            0 <= i < db.state_views().len() ==> #[trigger] sws@[i] == self_w(
                db.transition_views(),
                db.state_views()[i].0,
                db.transition_views().len() as int,
            ) && sws@[i] <= STATE_LIMIT,
    ensures
        forall|q: int|
            0 <= q < res.0@.len() ==> 4 <= (#[trigger] res.0@[q]).width && res.0@[q].x + res.0@[q].width <= 12 * STATE_LIMIT + 40
                && res.0@[q].y + res.0@[q].text.len() + 2 <= 11 * STATE_LIMIT + 22,
        res.0@.len() == placed_notes(db.state_views(), db.note_views(), db.note_views().len() as int).len(),
        forall|q: int|
            0 <= q < res.0@.len() ==> note_placed_ok(
                #[trigger] res.0@[q],
                db.state_views(),
                db.transition_views(),
                db.note_views(),
                r,
                placed_notes(db.state_views(), db.note_views(), db.note_views().len() as int)[q],
            ),
        (res.1 as int, res.2 as int) == notes_extent(
            db.state_views(),
            db.transition_views(),
            db.note_views(),
            r,
            db.note_views().len() as int,
        ),
        res.1 <= 12 * STATE_LIMIT + 40,
        res.2 <= 11 * STATE_LIMIT + 22,
{
    let ghost sv = db.state_views();
    let ghost tv = db.transition_views();
    let ghost nv = db.note_views();
    let notes = db.notes();
    let mut out: Vec<PositionedNote> = Vec::new();
    let mut right: usize = 0;
    let mut bottom: usize = 0;
    let mut j: usize = 0;
    while j < notes.len()
        invariant
            db.wf(),
            sv == db.state_views(),
            tv == db.transition_views(),
            nv == db.note_views(),
            state_fits(sv, tv, nv),
            notes@.map_values(|n: StateNote| note_view(n)) == nv,
            r.len() == sv.len(),
            xs@.len() == sv.len(),
            ys@.len() == sv.len(),
            ws@.len() == sv.len(),
            sws@.len() == sv.len(),
            forall|i: int| 0 <= i < sv.len() ==> #[trigger] xs@[i] == state_x(sv, tv, nv, r, i) && xs@[i] <= 8 * STATE_LIMIT + 22,
            forall|i: int| 0 <= i < sv.len() ==> #[trigger] ys@[i] == state_y(r, i, sv.len() as int) && ys@[i] <= 10 * STATE_LIMIT + 20,
            forall|i: int| 0 <= i < sv.len() ==> #[trigger] ws@[i] == size_w(sv[i]) && ws@[i] <= STATE_LIMIT + 4,
            forall|i: int|
                0 <= i < sv.len() ==> #[trigger] sws@[i] == self_w(tv, sv[i].0, tv.len() as int) && sws@[i] <= STATE_LIMIT,
            j <= notes.len(),
            forall|q: int|
                0 <= q < out@.len() ==> 4 <= (#[trigger] out@[q]).width && out@[q].x + out@[q].width <= 12 * STATE_LIMIT + 40
                    && out@[q].y + out@[q].text.len() + 2 <= 11 * STATE_LIMIT + 22,
            out@.len() == placed_notes(sv, nv, j as int).len(),
            forall|q: int|
                0 <= q < out@.len() ==> note_placed_ok(#[trigger] out@[q], sv, tv, nv, r, placed_notes(sv, nv, j as int)[q]),
            (right as int, bottom as int) == notes_extent(sv, tv, nv, r, j as int),
            right <= 12 * STATE_LIMIT + 40,
            bottom <= 11 * STATE_LIMIT + 22,
        decreases notes.len() - j,
    {
        let note = &notes[j];
        assert(nv[j as int] == note_view(*note));
        let ghost before = placed_notes(sv, nv, j as int);
        proof {
            lemma_state_pos(sv, nv[j as int].0);
        }
        match db.state_index(note.state_id.as_str()) {
            Some(i) => {
                assert(nv[j as int].2 == note.text@.map_values(|l: String| l@));
                assert(nv[j as int].2.len() <= STATE_LIMIT);
                assert forall|l: int| 0 <= l < note.text@.len() implies (#[trigger] note.text@[l])@.len() <= STATE_LIMIT by {
                    assert(nv[j as int].2[l] == note.text@[l]@);
                }
                let lw = note_lines_width(&note.text);
                let nw = if lw > 4 {
                    lw
                } else {
                    4
                };
                let x = match note.side {
                    NoteSide::Left => if xs[i] >= nw + 2 {
                        xs[i] - (nw + 2)
                    } else {
                        0
                    },
                    NoteSide::Right => xs[i] + ws[i] + sws[i] + 8,
                };
                let mut text: Vec<String> = Vec::new();
                let mut l: usize = 0;
                while l < note.text.len()
                    invariant
                        l <= note.text.len(),
                        text@.len() == l,
                        forall|m: int| 0 <= m < l ==> (#[trigger] text@[m])@ == note.text@[m]@,
                    decreases note.text.len() - l,
                {
                    text.push(note.text[l].clone());
                    l += 1;
                }
                assert(text@.map_values(|l: String| l@) =~= note.text@.map_values(|l: String| l@));
                let p = PositionedNote { x, y: ys[i], width: nw, text };
                assert(note_placed_ok(p, sv, tv, nv, r, j as int));
                out.push(p);
                assert(placed_notes(sv, nv, j + 1) == before.push(j as int));
                let xr = x + nw;
                if xr > right {
                    right = xr;
                }
                let yb = ys[i] + note.text.len() + 2;
                if yb > bottom {
                    bottom = yb;
                }
            },
            None => {
                assert(placed_notes(sv, nv, j + 1) == before);
            },
        }
        j += 1;
    }
    (out, right, bottom)
}

/// Whether the slots of all states, each with its gap, fit the limit.
fn slots_fit(slots: &Vec<usize>, Ghost(sv): Ghost<StateViews>, Ghost(tv): Ghost<TransitionViews>) -> (r: bool)
    requires
        slots@.len() == sv.len(),
        forall|i: int| 0 <= i < sv.len() ==> #[trigger] slots@[i] == slot(sv, tv, i) && slots@[i] <= 2 * STATE_LIMIT + 12,
    ensures
        r == (slot_sum(sv, tv, sv.len() as int) <= STATE_LIMIT),
{
    let mut total: usize = 0;
    let mut i: usize = 0;
    while i < slots.len()
        invariant
            slots@.len() == sv.len(),
            forall|i: int| 0 <= i < sv.len() ==> #[trigger] slots@[i] == slot(sv, tv, i) && slots@[i] <= 2 * STATE_LIMIT + 12,
            i <= slots.len(),
            total == slot_sum(sv, tv, i as int),
            total <= STATE_LIMIT,
        decreases slots.len() - i,
    {
        let next = total + slots[i] + 3;
        if next > STATE_LIMIT {
            proof {
                lemma_slot_sum_mono(sv, tv, i + 1, sv.len() as int);
            }
            return false;
        }
        total = next;
        i += 1;
    }
    true
}

/// Whether each part of the diagram is within the layout limits.
fn check_fits(db: &StateDatabase) -> (r: bool)
    ensures
        r == items_fit(db.state_views(), db.transition_views(), db.note_views()),
{
    let ghost sv = db.state_views();
    let ghost tv = db.transition_views();
    let ghost nv = db.note_views();
    let states = db.states();
    let trans = db.transitions();
    let notes = db.notes();
    if states.len() > STATE_LIMIT || trans.len() > STATE_LIMIT || notes.len() > STATE_LIMIT {
        return false;
    }
    let mut i: usize = 0;
    while i < states.len()
        invariant
            states@.map_values(|n: NodeData| super::database::node_view(n)) == sv,
            sv == db.state_views(),
            tv == db.transition_views(),
            nv == db.note_views(),
            i <= states.len(),
            forall|j: int| 0 <= j < i ==> (#[trigger] sv[j]).1.len() <= STATE_LIMIT,
        decreases states.len() - i,
    {
        assert(sv[i as int] == super::database::node_view(states@[i as int]));
        if crate::text::to_chars(states[i].label.as_str()).len() > STATE_LIMIT {
            assert(sv[i as int].1.len() > STATE_LIMIT);
            return false;
        }
        i += 1;
    }
    let mut k: usize = 0;
    while k < trans.len()
        invariant
            trans@.map_values(|e: crate::model::EdgeData| super::database::edge_view(e)) == tv,
            sv == db.state_views(),
            tv == db.transition_views(),
            nv == db.note_views(),
            k <= trans.len(),
            forall|j: int| 0 <= j < k ==> opt_tlw((#[trigger] tv[j]).3) <= STATE_LIMIT,
            forall|j: int| 0 <= j < k ==> ((#[trigger] tv[j]).3 matches Some(l) ==> l.len() <= STATE_LIMIT),
        decreases trans.len() - k,
    {
        assert(tv[k as int] == super::database::edge_view(trans@[k as int]));
        if opt_label_width(&trans[k].label) > STATE_LIMIT {
            assert(opt_tlw(tv[k as int].3) > STATE_LIMIT);
            return false;
        }
        match &trans[k].label {
            Some(l) => {
                if crate::text::to_chars(l.as_str()).len() > STATE_LIMIT {
                    assert(tv[k as int].3 == Some(l@));
                    return false;
                }
            },
            None => {},
        }
        k += 1;
    }
    let mut j: usize = 0;
    while j < notes.len()
        invariant
            notes@.map_values(|n: StateNote| note_view(n)) == nv,
            sv == db.state_views(),
            tv == db.transition_views(),
            nv == db.note_views(),
            j <= notes.len(),
            forall|q: int|
                0 <= q < j ==> (#[trigger] nv[q]).2.len() <= STATE_LIMIT && forall|l: int|
                    0 <= l < nv[q].2.len() ==> (#[trigger] nv[q].2[l]).len() <= STATE_LIMIT,
        decreases notes.len() - j,
    {
        let note = &notes[j];
        assert(nv[j as int] == note_view(*note));
        assert(nv[j as int].2 == note.text@.map_values(|l: String| l@));
        if note.text.len() > STATE_LIMIT {
            assert(nv[j as int].2.len() > STATE_LIMIT);
            return false;
        }
        let mut l: usize = 0;
        while l < note.text.len()
            invariant
                0 <= j < nv.len(),
                sv == db.state_views(),
                tv == db.transition_views(),
                nv == db.note_views(),
                nv[j as int].2 == note.text@.map_values(|l: String| l@),
                l <= note.text.len(),
                forall|m: int| 0 <= m < l ==> (#[trigger] nv[j as int].2[m]).len() <= STATE_LIMIT,
            decreases note.text.len() - l,
        {
            assert(nv[j as int].2[l as int] == note.text@[l as int]@);
            if crate::text::to_chars(note.text[l].as_str()).len() > STATE_LIMIT {
                assert(nv[j as int].2[l as int].len() > STATE_LIMIT);
                assert(!items_fit(sv, tv, nv)) by {
                    assert(nv[j as int].2[l as int].len() > STATE_LIMIT);
                }
                return false;
            }
            l += 1;
        }
        j += 1;
    }
    true
}

/// Right edge and bottom of the states.
fn state_extent(xs: &Vec<usize>, ys: &Vec<usize>, ws: &Vec<usize>, Ghost(sv): Ghost<StateViews>, Ghost(tv): Ghost<TransitionViews>, Ghost(nv): Ghost<NoteViews>, Ghost(r): Ghost<Seq<usize>>) -> (res: (usize, usize))
    requires
        r.len() == sv.len(),
        xs@.len() == sv.len(),
        ys@.len() == sv.len(),
        ws@.len() == sv.len(),
        forall|i: int| 0 <= i < sv.len() ==> #[trigger] xs@[i] == state_x(sv, tv, nv, r, i) && xs@[i] <= 8 * STATE_LIMIT + 22,
        forall|i: int| 0 <= i < sv.len() ==> #[trigger] ys@[i] == state_y(r, i, sv.len() as int) && ys@[i] <= 10 * STATE_LIMIT + 20,
        forall|i: int| 0 <= i < sv.len() ==> #[trigger] ws@[i] == size_w(sv[i]) && ws@[i] <= STATE_LIMIT + 4,
    ensures
        res.0 == states_right(sv, tv, nv, r, sv.len() as int),
        res.1 == states_bottom(r, sv.len() as int, sv.len() as int),
        res.0 <= 9 * STATE_LIMIT + 26,
        res.1 <= 10 * STATE_LIMIT + 23,
{
    let mut right: usize = 0;
    let mut bottom: usize = 0;
    let mut i: usize = 0;
    while i < xs.len()
        invariant
            r.len() == sv.len(),
            xs@.len() == sv.len(),
            ys@.len() == sv.len(),
            ws@.len() == sv.len(),
            forall|i: int| 0 <= i < sv.len() ==> #[trigger] xs@[i] == state_x(sv, tv, nv, r, i) && xs@[i] <= 8 * STATE_LIMIT + 22,
            forall|i: int| 0 <= i < sv.len() ==> #[trigger] ys@[i] == state_y(r, i, sv.len() as int) && ys@[i] <= 10 * STATE_LIMIT + 20,
            forall|i: int| 0 <= i < sv.len() ==> #[trigger] ws@[i] == size_w(sv[i]) && ws@[i] <= STATE_LIMIT + 4,
            i <= xs.len(),
            right == states_right(sv, tv, nv, r, i as int),
            bottom == states_bottom(r, sv.len() as int, i as int),
            right <= 9 * STATE_LIMIT + 26,
            bottom <= 10 * STATE_LIMIT + 23,
        decreases xs.len() - i,
    {
        let xr = xs[i] + ws[i];
        if xr > right {
            right = xr;
        }
        let yb = ys[i] + 3;
        if yb > bottom {
            bottom = yb;
        }
        i += 1;
    }
    (right, bottom)
}

/// Layout of state diagrams.
pub struct StateLayoutAlgorithm {
    min_state_width: usize,
    state_height: usize,
    terminal_size: usize,
    h_spacing: usize,
    v_spacing: usize,
    padding: usize,
}

impl StateLayoutAlgorithm {
    #[verifier::type_invariant]
    spec fn standard(self) -> bool {
        &&& self.min_state_width == 8
        &&& self.state_height == 3
        &&& self.terminal_size == 3
        &&& self.h_spacing == 3
        &&& self.v_spacing == 7
        &&& self.padding == 2
    }

    /// The standard layout: boxes at least 8 wide and 3 high, terminals 3
    /// by 3, gaps of 3 between states and 7 between ranks, padding 2.
    pub fn new() -> (r: Self) {
        StateLayoutAlgorithm {
            min_state_width: 8,
            state_height: 3,
            terminal_size: 3,
            h_spacing: 3,
            v_spacing: 7,
            padding: 2,
        }
    }

    /// The side of a terminal state.
    pub fn terminal_size(&self) -> (r: usize)
        ensures
            r == 3,
    {
        proof {
            use_type_invariant(self);
        }
        self.terminal_size
    }

    /// Width and height of a state with the given label and shape.
    pub fn calculate_state_size(&self, label: &str, shape: NodeShape) -> (r: (usize, usize))
        requires
            label@.len() + 4 <= usize::MAX,
        ensures
            r.0 == size_w((Seq::empty(), label@, shape)),
            r.1 == 3,
    {
        proof {
            use_type_invariant(self);
        }
        match shape {
            NodeShape::Terminal => (self.terminal_size, self.terminal_size),
            _ => {
                let label_width = crate::text::to_chars(label).len();
                let width = if label_width + self.padding * 2 > self.min_state_width {
                    label_width + self.padding * 2
                } else {
                    self.min_state_width
                };
                (width, self.state_height)
            },
        }
    }

    /// Lay the diagram out: states in rows by their distance from the start,
    /// transitions and notes placed around them. Fails only on diagrams
    /// beyond the layout limits.
    #[verifier::rlimit(30)]
    pub fn layout(&self, db: &StateDatabase) -> (r: Result<StateLayoutResult, DiagramError>)
        requires
            db.wf(),
        ensures
            r is Err <==> (db.state_views().len() > 0 && !state_fits(
                db.state_views(),
                db.transition_views(),
                db.note_views(),
            )),
            r matches Ok(res) ==> state_layout_ok(db, res) && state_drawable(res),
    {
        let ghost sv = db.state_views();
        let ghost tv = db.transition_views();
        let ghost nv = db.note_views();
        let n = db.state_count();
        if n == 0 {
            return Ok(
                StateLayoutResult {
                    states: Vec::new(),
                    transitions: Vec::new(),
                    notes: Vec::new(),
                    width: 0,
                    height: 0,
                },
            );
        }
        if !check_fits(db) {
            return Err(DiagramError::new(crate::model::own("diagram too large to lay out")));
        }
        let edges = edge_positions(db);
        let (ranks, _m) = compute_ranks(db, &edges);
        let ghost r = ranks@;
        let states = db.states();
        let trans = db.transitions();
        let notes = db.notes();
        let (ws, slots, offs, sws) = state_slots(states, trans, Ghost(sv), Ghost(tv));
        if !slots_fit(&slots, Ghost(sv), Ghost(tv)) {
            return Err(DiagramError::new(crate::model::own("diagram too large to lay out")));
        }
        let maxr = largest_rank(&ranks, n + 1);
        let (rw, cnt) = row_tables(&ranks, &slots, maxr, Ghost(sv), Ghost(tv));
        let mut edge_ranks: Vec<(usize, usize)> = Vec::new();
        let mut k: usize = 0;
        while k < edges.len()
            invariant
                edges@.len() == tv.len(),
                forall|k: int|
                    0 <= k < edges@.len() ==> (#[trigger] edges@[k]).0 as int == state_pos(sv, tv[k].0)->0
                        && edges@[k].1 as int == state_pos(sv, tv[k].1)->0 && edges@[k].0 < sv.len() && edges@[k].1
                        < sv.len(),
                ranks@ == r,
                r.len() == sv.len(),
                k <= edges.len(),
                edge_ranks@.len() == k,
                forall|j: int|
                    0 <= j < k ==> (#[trigger] edge_ranks@[j]).0 == rank_of(sv, r, tv[j].0) && edge_ranks@[j].1
                        == rank_of(sv, r, tv[j].1),
            decreases edges.len() - k,
        {
            let (f, t) = edges[k];
            edge_ranks.push((ranks[f], ranks[t]));
            k += 1;
        }
        let lm = margin(trans, notes, &edge_ranks, Ghost(sv), Ghost(tv), Ghost(nv), Ghost(r));
        let (xs, ys) = positions(&ranks, &slots, &offs, &rw, &cnt, maxr, lm, Ghost(sv), Ghost(tv), Ghost(nv));
        let placed = place_states(states, &ranks, &xs, &ys, &ws, maxr, Ghost(sv), Ghost(tv), Ghost(nv));
        let (pts, tr, ns) = place_transitions(trans, &edges, &ranks, &xs, &ys, &ws, Ghost(sv), Ghost(tv), Ghost(nv));
        let (pns, nr, nb) = place_notes(db, &xs, &ys, &ws, &sws, Ghost(r));
        let (sr, sb) = state_extent(&xs, &ys, &ws, Ghost(sv), Ghost(tv), Ghost(nv), Ghost(r));
        let a = if sr >= nr {
            sr
        } else {
            nr
        };
        let b = if a >= tr {
            a
        } else {
            tr
        };
        let width = b + ns * 2 + 4;
        let height = if sb >= nb {
            sb
        } else {
            nb
        };
        let res = StateLayoutResult { states: placed, transitions: pts, notes: pns, width, height };
        assert(layout_matches(db, res, r));
        proof {
            let ts = res.transitions@;
            assert forall|j: int, k: int|
                0 <= j < ts.len() && 0 <= k < ts.len() && (#[trigger] ts[j]).route == TransitionRoute::Forward && (
                #[trigger] ts[k]).route == TransitionRoute::Forward && ts[j].from_id@ == ts[k].from_id@ implies ts[j].from_y
                == ts[k].from_y by {
                assert(trans_placed_ok(ts[j], sv, tv, nv, r, j));
                assert(trans_placed_ok(ts[k], sv, tv, nv, r, k));
            }
        }
        assert(state_drawable(res));
        Ok(res)
    }
}
} // verus!
