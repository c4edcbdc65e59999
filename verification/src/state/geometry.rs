//! How a layout follows its database: the rank of each placed state is its
//! distance from the start, and each placed transition meets the placed
//! states it connects, its route following their ranks, its end points on
//! their boxes and its lane numbered in order.
use super::database::{NoteSide, lemma_state_pos, lemma_state_pos_is, start_id, state_pos, StateDatabase};
use super::layout::{
    backward, lines_w, note_placed_ok, placed_notes, before_in_row, conn_w, lemma_row_count_nonneg, lemma_row_count_pos, row_count, row_y, self_w, size_w, slot, edge_indices, left_margin, max_row_width, offset, row_width, StateViews, TransitionViews, layout_matches, max_rank, n_back, n_self, rank_order, rank_start, state_layout_ok,
    state_placed_ok, trans_placed_ok, PositionedState, PositionedTransition, StateLayoutResult, TransitionRoute,
};
use super::placement::{lemma_placed_notes_named, lemma_max_rank, lemma_rank_order, lemma_state_placed_once};
use super::ranks::{dist_is, lemma_rank_is_shortest_path, ranks_ok, reach, reachable, walk};
use vstd::prelude::*;

verus! {

/// Transition `e` drawn between the boxes of states `a` and `b`: a
/// self-loop exactly when they are one state; otherwise forward down to a
/// higher rank, backward up to a lower one, sideways within a rank; a
/// forward edge runs from the middle of the bottom of `a` to the middle of
/// the top of `b`, a backward one between the left sides of the two middle
/// rows, a sideways one between the facing sides of the middle rows, and a
/// self-loop leaves the right side of `a` and comes back under it.
pub open spec fn drawn_between(e: PositionedTransition, a: PositionedState, b: PositionedState) -> bool {
    &&& e.from_id@ == a.id@
    &&& e.to_id@ == b.id@
    &&& (e.route == TransitionRoute::SelfLoop <==> a.id@ == b.id@)
    &&& a.id@ != b.id@ ==> {
        &&& (e.route == TransitionRoute::Forward <==> b.rank > a.rank)
        &&& (e.route == TransitionRoute::Backward <==> b.rank < a.rank)
        &&& (e.route == TransitionRoute::Horizontal <==> b.rank == a.rank)
    }
    &&& e.route == TransitionRoute::Forward ==> {
        &&& e.from_x == a.x + a.width / 2
        &&& e.from_y == a.y + a.height
        &&& e.to_x == b.x + b.width / 2
        &&& e.to_y == b.y
    }
    &&& e.route == TransitionRoute::Backward ==> {
        &&& e.from_x == a.x
        &&& e.from_y == a.y + 1
        &&& e.to_x == b.x
        &&& e.to_y == b.y + 1
    }
    &&& e.route == TransitionRoute::Horizontal ==> {
        &&& e.from_y == a.y + 1
        &&& e.to_y == b.y + 1
        &&& a.x < b.x ==> e.from_x == a.x + a.width && e.to_x == b.x
        &&& a.x >= b.x ==> e.from_x == a.x && e.to_x == b.x + b.width
    }
    &&& e.route == TransitionRoute::SelfLoop ==> {
        &&& e.from_x == a.x + a.width
        &&& e.from_y == a.y + 1
        &&& e.to_x == a.x + a.width / 2
        &&& e.to_y == a.y + a.height
    }
}

/// Number of the first `k` transitions drawn along `route`.
pub open spec fn count_route(ts: Seq<PositionedTransition>, route: TransitionRoute, k: int) -> int
    decreases k,
{
    if k <= 0 {
        0
    } else {
        count_route(ts, route, k - 1) + if ts[k - 1].route == route {
            1int
        } else {
            0int
        }
    }
}

/// The placed state of database state `i`, the only one with its identifier.
proof fn lemma_placed_at(db: &StateDatabase, l: StateLayoutResult, r: Seq<usize>, i: int) -> (p: int)
    requires
        db.wf(),
        state_layout_ok(db, l),
        db.state_views().len() > 0,
        layout_matches(db, l, r),
        r.len() == db.state_views().len(),
        0 <= i < db.state_views().len(),
    ensures
        0 <= p < l.states.len(),
        state_placed_ok(
            l.states@[p],
            db.state_views(),
            db.transition_views(),
            db.note_views(),
            r,
            i,
        ),
        forall|p2: int| 0 <= p2 < l.states.len() && (#[trigger] l.states@[p2]).id@ == l.states@[p].id@ ==> p2 == p,
{
    let sv = db.state_views();
    let n = sv.len() as int;
    lemma_state_placed_once(db, l, i);
    let p = choose|p: int| 0 <= p < l.states.len() && (#[trigger] l.states@[p]).id@ == sv[i].0;
    let order = rank_order(r, max_rank(r, n) + 1);
    lemma_rank_order(r, max_rank(r, n) + 1);
    assert(state_placed_ok(l.states@[p], sv, db.transition_views(), db.note_views(), r, order[p]));
    if order[p] < i {
        assert(sv[order[p]].0 != sv[i].0);
    } else if order[p] > i {
        assert(sv[i].0 != sv[order[p]].0);
    }
    p
}

/// Each transition of a layout runs between the placed states it names,
/// as `drawn_between` says; the two are the only states with those
/// identifiers.
pub proof fn lemma_transition_geometry(db: &StateDatabase, l: StateLayoutResult, k: int) -> (pq: (int, int))
    requires
        db.wf(),
        state_layout_ok(db, l),
        0 <= k < l.transitions.len(),
    ensures
        0 <= pq.0 < l.states.len(),
        0 <= pq.1 < l.states.len(),
        drawn_between(l.transitions@[k], l.states@[pq.0], l.states@[pq.1]),
        forall|p2: int|
            0 <= p2 < l.states.len() && (#[trigger] l.states@[p2]).id@ == l.transitions@[k].from_id@ ==> p2 == pq.0,
        forall|q2: int|
            0 <= q2 < l.states.len() && (#[trigger] l.states@[q2]).id@ == l.transitions@[k].to_id@ ==> q2 == pq.1,
{
    let sv = db.state_views();
    let tv = db.transition_views();
    let nv = db.note_views();
    let n = sv.len() as int;
    let (r, m) = choose|r: Seq<usize>, m: usize|
        #[trigger] ranks_ok(edge_indices(sv, tv), rank_start(sv, db.start_flag()), n, r, m)
            && #[trigger] layout_matches(db, l, r);
    assert(trans_placed_ok(l.transitions@[k], sv, tv, nv, r, k));
    let t = tv[k];
    assert(state_pos(sv, t.0) is Some && state_pos(sv, t.1) is Some);
    lemma_state_pos(sv, t.0);
    lemma_state_pos(sv, t.1);
    let f = state_pos(sv, t.0)->0;
    let g = state_pos(sv, t.1)->0;
    let p = lemma_placed_at(db, l, r, f);
    let q = lemma_placed_at(db, l, r, g);
    assert(t.0 == t.1 ==> f == g);
    assert(f == g ==> t.0 == t.1);
    (p, q)
}

proof fn lemma_lane_counts(db: &StateDatabase, l: StateLayoutResult, r: Seq<usize>, k: int)
    requires
        db.wf(),
        layout_matches(db, l, r),
        r.len() == db.state_views().len(),
        0 <= k <= l.transitions.len(),
    ensures
        n_back(db.state_views(), db.transition_views(), r, k) == count_route(
            l.transitions@,
            TransitionRoute::Backward,
            k,
        ),
        n_self(db.transition_views(), k) == count_route(l.transitions@, TransitionRoute::SelfLoop, k),
    decreases k,
{
    if k > 0 {
        lemma_lane_counts(db, l, r, k - 1);
        let sv = db.state_views();
        let tv = db.transition_views();
        assert(trans_placed_ok(l.transitions@[k - 1], sv, tv, db.note_views(), r, k - 1));
        let t = tv[k - 1];
        assert(state_pos(sv, t.0) is Some && state_pos(sv, t.1) is Some);
        lemma_state_pos(sv, t.0);
        lemma_state_pos(sv, t.1);
        assert(backward(sv, tv, r, k - 1) <==> l.transitions@[k - 1].route == TransitionRoute::Backward);
    }
}

/// Lanes are numbered in order: the backward transitions of a layout take
/// lanes 0, 1, 2, ... as they come, and so do the self-loops; every other
/// transition has lane 0.
pub proof fn lemma_lanes(db: &StateDatabase, l: StateLayoutResult, k: int)
    requires
        db.wf(),
        state_layout_ok(db, l),
        0 <= k < l.transitions.len(),
    ensures
        l.transitions@[k].route == TransitionRoute::Backward ==> l.transitions@[k].lane == count_route(
            l.transitions@,
            TransitionRoute::Backward,
            k,
        ),
        l.transitions@[k].route == TransitionRoute::SelfLoop ==> l.transitions@[k].lane == count_route(
            l.transitions@,
            TransitionRoute::SelfLoop,
            k,
        ),
        l.transitions@[k].route == TransitionRoute::Forward || l.transitions@[k].route == TransitionRoute::Horizontal
            ==> l.transitions@[k].lane == 0,
{
    let sv = db.state_views();
    let tv = db.transition_views();
    let n = sv.len() as int;
    let (r, m) = choose|r: Seq<usize>, m: usize|
        #[trigger] ranks_ok(edge_indices(sv, tv), rank_start(sv, db.start_flag()), n, r, m)
            && #[trigger] layout_matches(db, l, r);
    assert(trans_placed_ok(l.transitions@[k], sv, tv, db.note_views(), r, k));
    lemma_lane_counts(db, l, r, k);
}

/// Whether the database state with identifier `id` can be reached from
/// where ranks are counted.
pub open spec fn reachable_id(db: &StateDatabase, id: Seq<char>) -> bool {
    let sv = db.state_views();
    reachable(edge_indices(sv, db.transition_views()), rank_start(sv, db.start_flag()), state_pos(sv, id)->0)
}

/// The database state placed at `p` is at position `order[p]`, and that
/// position is where its identifier is found.
proof fn lemma_placed_index(db: &StateDatabase, l: StateLayoutResult, r: Seq<usize>, p: int) -> (i: int)
    requires
        db.wf(),
        layout_matches(db, l, r),
        r.len() == db.state_views().len(),
        0 <= p < l.states.len(),
    ensures
        0 <= i < db.state_views().len(),
        state_placed_ok(l.states@[p], db.state_views(), db.transition_views(), db.note_views(), r, i),
        state_pos(db.state_views(), l.states@[p].id@) == Some(i),
{
    let sv = db.state_views();
    let n = sv.len() as int;
    let order = rank_order(r, max_rank(r, n) + 1);
    lemma_rank_order(r, max_rank(r, n) + 1);
    let i = order[p];
    assert(state_placed_ok(l.states@[p], sv, db.transition_views(), db.note_views(), r, i));
    assert forall|j: int| 0 <= j < i implies (#[trigger] sv[j]).0 != sv[i].0 by {}
    lemma_state_pos_is(sv, sv[i].0, i);
    i
}

/// The rank of every placed state is its distance from the start (the
/// start terminal when `[*]` was used as a source, else the first state):
/// a state that can be reached has a walk of transitions from the start of
/// exactly its rank's length, and none shorter; a state that cannot be
/// reached has no such walk, and its rank is one more than the largest
/// rank of a state that can.
pub proof fn lemma_layout_ranks(db: &StateDatabase, l: StateLayoutResult, p: int)
    requires
        db.wf(),
        state_layout_ok(db, l),
        0 <= p < l.states.len(),
    ensures
        ({
            let sv = db.state_views();
            let e = edge_indices(sv, db.transition_views());
            let x = rank_start(sv, db.start_flag())->0;
            let i = state_pos(sv, l.states@[p].id@)->0;
            let rk = l.states@[p].rank;
            &&& rank_start(sv, db.start_flag()) is Some
            &&& reachable_id(db, l.states@[p].id@) ==> (exists|w: Seq<int>| w.len() == rk && #[trigger] walk(e, x, w, i))
                && (forall|w: Seq<int>| #[trigger] walk(e, x, w, i) ==> w.len() >= rk)
            &&& !reachable_id(db, l.states@[p].id@) ==> {
                &&& forall|w: Seq<int>| !#[trigger] walk(e, x, w, i)
                &&& forall|p2: int|
                    0 <= p2 < l.states.len() && reachable_id(db, (#[trigger] l.states@[p2]).id@) ==> l.states@[p2].rank
                        < rk
                &&& exists|p2: int|
                    0 <= p2 < l.states.len() && reachable_id(db, (#[trigger] l.states@[p2]).id@) && l.states@[p2].rank
                        + 1 == rk
            }
        }),
{
    let sv = db.state_views();
    let tv = db.transition_views();
    let n = sv.len() as int;
    let e = edge_indices(sv, tv);
    let st = rank_start(sv, db.start_flag());
    let (r, m) = choose|r: Seq<usize>, m: usize|
        #[trigger] ranks_ok(e, st, n, r, m) && #[trigger] layout_matches(db, l, r);
    lemma_state_pos(sv, start_id());
    assert(st is Some);
    let x = st->0;
    assert(0 <= x < n);
    let i = lemma_placed_index(db, l, r, p);
    lemma_rank_is_shortest_path(e, x, n, r, m, i);
    if !reachable(e, st, i) {
        assert forall|p2: int|
            0 <= p2 < l.states.len() && reachable_id(db, (#[trigger] l.states@[p2]).id@) implies l.states@[p2].rank
            < l.states@[p].rank by {
            let i2 = lemma_placed_index(db, l, r, p2);
            assert(r[i2] <= m);
        }
        let v = if m == 0 {
            assert(reach(e, st, 0).contains(x));
            assert(dist_is(e, st, x, r[x] as nat));
            x
        } else {
            choose|v: int| 0 <= v < n && reachable(e, st, v) && #[trigger] r[v] == m
        };
        assert(reachable(e, st, v) && r[v] == m);
        let p2 = lemma_placed_at(db, l, r, v);
        lemma_state_pos_is(sv, sv[v].0, v);
        assert(l.states@[p2].id@ == sv[v].0);
        assert(reachable_id(db, l.states@[p2].id@) && l.states@[p2].rank + 1 == l.states@[p].rank);
    }
}

proof fn lemma_row_width_le_max(sv: StateViews, tv: TransitionViews, r: Seq<usize>, rk: int, q: int)
    requires
        0 <= rk < q,
    ensures
        row_width(sv, tv, r, rk, sv.len() as int) <= max_row_width(sv, tv, r, q),
    decreases q,
{
    if rk < q - 1 {
        lemma_row_width_le_max(sv, tv, r, rk, q - 1);
    }
}

/// Rows are centred on one axis: every row, its slots laid side by side
/// with their gaps, has its middle column on the middle column of the
/// widest row, counted from the left margin. So a state's column is the
/// left margin, plus half the widest row less half its own row, plus the
/// slots before it in its row, plus its offset in its slot.
pub proof fn lemma_rows_centred(db: &StateDatabase, l: StateLayoutResult, p: int)
    requires
        db.wf(),
        state_layout_ok(db, l),
        0 <= p < l.states.len(),
    ensures
        exists|r: Seq<usize>|
            #[trigger] layout_matches(db, l, r) && r.len() == db.state_views().len() && ({
                let sv = db.state_views();
                let tv = db.transition_views();
                let n = sv.len() as int;
                let i = state_pos(sv, l.states@[p].id@)->0;
                let rk = l.states@[p].rank as int;
                &&& row_width(sv, tv, r, rk, n) <= max_row_width(sv, tv, r, max_rank(r, n) + 1)
                &&& l.states@[p].x + row_width(sv, tv, r, rk, n) / 2 == left_margin(sv, tv, db.note_views(), r)
                    + max_row_width(sv, tv, r, max_rank(r, n) + 1) / 2 + before_in_row(sv, tv, r, rk, i) + offset(
                    sv,
                    tv,
                    i,
                )
            }),
{
    let sv = db.state_views();
    let tv = db.transition_views();
    let n = sv.len() as int;
    let (r, m) = choose|r: Seq<usize>, m: usize|
        #[trigger] ranks_ok(edge_indices(sv, tv), rank_start(sv, db.start_flag()), n, r, m)
            && #[trigger] layout_matches(db, l, r);
    let i = lemma_placed_index(db, l, r, p);
    lemma_max_rank(r, n, i);
    lemma_row_width_le_max(sv, tv, r, r[i] as int, max_rank(r, n) + 1);
}

/// Whether no transition of the layout that starts or ends at `id` carries
/// a label.
pub open spec fn unlabelled_at(l: StateLayoutResult, id: Seq<char>) -> bool {
    forall|k: int|
        0 <= k < l.transitions.len() && ((#[trigger] l.transitions@[k]).from_id@ == id || l.transitions@[k].to_id@
            == id) ==> l.transitions@[k].label is None
}

proof fn lemma_widths_zero(tv: TransitionViews, id: Seq<char>, k: int)
    requires
        0 <= k <= tv.len(),
        forall|j: int| 0 <= j < tv.len() && ((#[trigger] tv[j]).0 == id || tv[j].1 == id) ==> tv[j].3 is None,
    ensures
        conn_w(tv, id, k) == 0,
        self_w(tv, id, k) == 0,
    decreases k,
{
    if k > 0 {
        lemma_widths_zero(tv, id, k - 1);
        let t = tv[k - 1];
        if t.0 == id || t.1 == id {
            assert(t.3 is None);
        }
    }
}

proof fn lemma_alone_in_row(sv: StateViews, tv: TransitionViews, r: Seq<usize>, i: int, k: int)
    requires
        0 <= i < r.len(),
        0 <= k <= r.len(),
        forall|j: int| 0 <= j < r.len() && j != i ==> #[trigger] r[j] != r[i],
    ensures
        row_count(r, r[i] as int, k) == if k > i { 1int } else { 0int },
        row_width(sv, tv, r, r[i] as int, k) == if k > i { slot(sv, tv, i) } else { 0int },
        k <= i ==> before_in_row(sv, tv, r, r[i] as int, k) == 0,
    decreases k,
{
    if k > 0 {
        lemma_alone_in_row(sv, tv, r, i, k - 1);
        if k - 1 != i {
            assert(r[k - 1] != r[i]);
        }
    }
}

/// A state alone in its row, with no label on any transition that starts
/// or ends at it, has its middle column on the axis of the diagram: the
/// left margin plus half the widest row. So all such states, one per row,
/// stand one above the other on one column.
pub proof fn lemma_lone_state_on_axis(db: &StateDatabase, l: StateLayoutResult, p: int)
    requires
        db.wf(),
        state_layout_ok(db, l),
        0 <= p < l.states.len(),
        forall|p2: int| 0 <= p2 < l.states.len() && p2 != p ==> (#[trigger] l.states@[p2]).rank != l.states@[p].rank,
        unlabelled_at(l, l.states@[p].id@),
    ensures
        exists|r: Seq<usize>|
            #[trigger] layout_matches(db, l, r) && r.len() == db.state_views().len() && l.states@[p].x
                + l.states@[p].width / 2 == left_margin(db.state_views(), db.transition_views(), db.note_views(), r)
                + max_row_width(
                db.state_views(),
                db.transition_views(),
                r,
                max_rank(r, db.state_views().len() as int) + 1,
            ) / 2,
{
    let sv = db.state_views();
    let tv = db.transition_views();
    let nv = db.note_views();
    let n = sv.len() as int;
    let (r, m) = choose|r: Seq<usize>, m: usize|
        #[trigger] ranks_ok(edge_indices(sv, tv), rank_start(sv, db.start_flag()), n, r, m)
            && #[trigger] layout_matches(db, l, r);
    let i = lemma_placed_index(db, l, r, p);
    let id = sv[i].0;
    assert forall|j: int| 0 <= j < tv.len() && ((#[trigger] tv[j]).0 == id || tv[j].1 == id) implies tv[j].3 is None by {
        assert(trans_placed_ok(l.transitions@[j], sv, tv, nv, r, j));
        assert(l.transitions@[j].label is None);
    }
    lemma_widths_zero(tv, id, tv.len() as int);
    assert forall|j: int| 0 <= j < r.len() && j != i implies #[trigger] r[j] != r[i] by {
        let p2 = lemma_placed_at(db, l, r, j);
        assert(l.states@[p2].id@ == sv[j].0);
        lemma_state_pos_is(sv, sv[j].0, j);
        if p2 == p {
            assert(state_pos(sv, l.states@[p].id@) == Some(i));
        }
    }
    lemma_alone_in_row(sv, tv, r, i, n);
    lemma_alone_in_row(sv, tv, r, i, i);
    lemma_max_rank(r, n, i);
    lemma_row_width_le_max(sv, tv, r, r[i] as int, max_rank(r, n) + 1);
    assert(slot(sv, tv, i) == size_w(sv[i]));
    assert(layout_matches(db, l, r) && r.len() == n);
}

proof fn lemma_row_count_witness(r: Seq<usize>, rk: int, k: int)
    requires
        0 <= k <= r.len(),
        row_count(r, rk, k) > 0,
    ensures
        exists|v: int| 0 <= v < k && r[v] == rk,
    decreases k,
{
    if r[k - 1] != rk {
        lemma_row_count_witness(r, rk, k - 1);
        let v = choose|v: int| 0 <= v < k - 1 && r[v] == rk;
        assert(0 <= v < k && r[v] == rk);
    }
}

proof fn lemma_row_y_empty_below(r: Seq<usize>, rk: int, n: int)
    requires
        forall|a: int| 0 <= a < rk ==> #[trigger] row_count(r, a, n) == 0,
    ensures
        row_y(r, rk, n) == 0,
    decreases rk,
{
    if rk > 0 {
        lemma_row_y_empty_below(r, rk - 1, n);
    }
}

proof fn lemma_row_y_next(r: Seq<usize>, a: int, b: int, n: int)
    requires
        0 <= a < b,
        row_count(r, a, n) > 0,
        forall|c: int| a < c < b ==> #[trigger] row_count(r, c, n) == 0,
    ensures
        row_y(r, b, n) == row_y(r, a, n) + 10,
    decreases b,
{
    if b > a + 1 {
        lemma_row_y_next(r, a, b - 1, n);
        assert(row_count(r, b - 1, n) == 0);
    }
}

/// States are stacked in rows by rank, each row three high with a gap of
/// seven: states of one rank share a row; the lowest rank present is at
/// the top; and a rank present below it starts ten rows after the next
/// rank above it that has states.
pub proof fn lemma_rows_stacked(db: &StateDatabase, l: StateLayoutResult, p: int, q: int)
    requires
        db.wf(),
        state_layout_ok(db, l),
        0 <= p < l.states.len(),
        0 <= q < l.states.len(),
    ensures
        l.states@[p].height == 3,
        l.states@[p].rank == l.states@[q].rank ==> l.states@[p].y == l.states@[q].y,
        (forall|p2: int| 0 <= p2 < l.states.len() ==> (#[trigger] l.states@[p2]).rank >= l.states@[p].rank)
            ==> l.states@[p].y == 0,
        l.states@[p].rank < l.states@[q].rank && (forall|p2: int|
            0 <= p2 < l.states.len() ==> !(l.states@[p].rank < (#[trigger] l.states@[p2]).rank < l.states@[q].rank))
            ==> l.states@[q].y == l.states@[p].y + 10,
{
    let sv = db.state_views();
    let tv = db.transition_views();
    let n = sv.len() as int;
    let (r, m) = choose|r: Seq<usize>, m: usize|
        #[trigger] ranks_ok(edge_indices(sv, tv), rank_start(sv, db.start_flag()), n, r, m)
            && #[trigger] layout_matches(db, l, r);
    let i = lemma_placed_index(db, l, r, p);
    let j = lemma_placed_index(db, l, r, q);
    let rp = r[i] as int;
    let rq = r[j] as int;
    if forall|p2: int| 0 <= p2 < l.states.len() ==> (#[trigger] l.states@[p2]).rank >= l.states@[p].rank {
        assert forall|a: int| 0 <= a < rp implies #[trigger] row_count(r, a, n) == 0 by {
            lemma_row_count_nonneg(r, a, n);
            if row_count(r, a, n) > 0 {
                lemma_row_count_witness(r, a, n);
                let v = choose|v: int| 0 <= v < n && r[v] == a;
                let p2 = lemma_placed_at(db, l, r, v);
                assert(l.states@[p2].rank >= l.states@[p].rank);
            }
        }
        lemma_row_y_empty_below(r, rp, n);
    }
    if rp < rq && (forall|p2: int|
        0 <= p2 < l.states.len() ==> !(l.states@[p].rank < (#[trigger] l.states@[p2]).rank < l.states@[q].rank)) {
        assert forall|c: int| rp < c < rq implies #[trigger] row_count(r, c, n) == 0 by {
            lemma_row_count_nonneg(r, c, n);
            if row_count(r, c, n) > 0 {
                lemma_row_count_witness(r, c, n);
                let v = choose|v: int| 0 <= v < n && r[v] == c;
                let p2 = lemma_placed_at(db, l, r, v);
                assert(!(l.states@[p].rank < l.states@[p2].rank < l.states@[q].rank));
            }
        }
        lemma_row_count_pos(r, rp, n, i);
        lemma_row_y_next(r, rp, rq, n);
    }
}

proof fn lemma_lines_w(ls: Seq<Seq<char>>, k: int)
    requires
        0 <= k <= ls.len(),
    ensures
        forall|j: int| 0 <= j < k ==> (#[trigger] ls[j]).len() + 2 <= lines_w(ls, k),
        lines_w(ls, k) == 0 || exists|j: int| 0 <= j < k && (#[trigger] ls[j]).len() + 2 == lines_w(ls, k),
        lines_w(ls, k) >= 0,
    decreases k,
{
    if k > 0 {
        lemma_lines_w(ls, k - 1);
        if lines_w(ls, k - 1) > 0 && lines_w(ls, k) == lines_w(ls, k - 1) {
            let j = choose|j: int| 0 <= j < k - 1 && (#[trigger] ls[j]).len() + 2 == lines_w(ls, k - 1);
            assert(0 <= j < k && ls[j].len() + 2 == lines_w(ls, k));
        }
    }
}

proof fn lemma_self_w(tv: TransitionViews, id: Seq<char>, k: int)
    requires
        0 <= k <= tv.len(),
    ensures
        self_w(tv, id, k) >= 0,
        (forall|j: int| 0 <= j < tv.len() && (#[trigger] tv[j]).0 == id && tv[j].1 == id ==> tv[j].3 is None)
            ==> self_w(tv, id, k) == 0,
    decreases k,
{
    if k > 0 {
        lemma_self_w(tv, id, k - 1);
    }
}

/// Each placed note belongs to a note of the database on a state that is
/// placed: it carries that note's lines, stands on the state's row, is as
/// wide as its widest line plus 2 (at least 4), and sits 2 columns left of
/// the state (or at the left edge when there is no room), or, on the
/// right, 8 columns past the state and the label of any self-loop of it.
pub proof fn lemma_note_geometry(db: &StateDatabase, l: StateLayoutResult, q: int) -> (jp: (int, int))
    requires
        db.wf(),
        state_layout_ok(db, l),
        0 <= q < l.notes.len(),
    ensures
        ({
            let nv = db.note_views();
            let j = jp.0;
            let s = l.states@[jp.1];
            let note = l.notes@[q];
            &&& 0 <= j < nv.len()
            &&& 0 <= jp.1 < l.states.len()
            &&& s.id@ == nv[j].0
            &&& note.text@.map_values(|t: String| t@) == nv[j].2
            &&& note.y == s.y
            &&& forall|k: int| 0 <= k < nv[j].2.len() ==> (#[trigger] nv[j].2[k]).len() + 2 <= note.width
            &&& 4 <= note.width
            &&& note.width == 4 || exists|k: int| 0 <= k < nv[j].2.len() && (#[trigger] nv[j].2[k]).len() + 2 == note.width
            &&& nv[j].1 == NoteSide::Left ==> {
                &&& s.x >= note.width + 2 ==> note.x + note.width + 2 == s.x
                &&& s.x < note.width + 2 ==> note.x == 0
            }
            &&& nv[j].1 == NoteSide::Right ==> {
                &&& note.x >= s.x + s.width + 8
                &&& (forall|k: int|
                    0 <= k < l.transitions.len() && (#[trigger] l.transitions@[k]).from_id@ == s.id@
                        && l.transitions@[k].to_id@ == s.id@ ==> l.transitions@[k].label is None) ==> note.x == s.x
                    + s.width + 8
            }
        }),
{
    let sv = db.state_views();
    let tv = db.transition_views();
    let nv = db.note_views();
    let n = sv.len() as int;
    let (r, m) = choose|r: Seq<usize>, m: usize|
        #[trigger] ranks_ok(edge_indices(sv, tv), rank_start(sv, db.start_flag()), n, r, m)
            && #[trigger] layout_matches(db, l, r);
    let pn = placed_notes(sv, nv, nv.len() as int);
    lemma_placed_notes_named(sv, nv, nv.len() as int);
    let j = pn[q];
    assert(note_placed_ok(l.notes@[q], sv, tv, nv, r, j));
    lemma_state_pos(sv, nv[j].0);
    let i = state_pos(sv, nv[j].0)->0;
    let p = lemma_placed_at(db, l, r, i);
    lemma_lines_w(nv[j].2, nv[j].2.len() as int);
    lemma_self_w(tv, nv[j].0, tv.len() as int);
    if forall|k: int|
        0 <= k < l.transitions.len() && (#[trigger] l.transitions@[k]).from_id@ == nv[j].0 && l.transitions@[k].to_id@
            == nv[j].0 ==> l.transitions@[k].label is None {
        assert forall|k: int| 0 <= k < tv.len() && (#[trigger] tv[k]).0 == nv[j].0 && tv[k].1 == nv[j].0 implies tv[k].3 is None by {
            assert(trans_placed_ok(l.transitions@[k], sv, tv, nv, r, k));
        }
    }
    (j, p)
}

} // verus!
