//! Facts about the order in which a layout places the states.
use super::database::StateDatabase;
use super::layout::{
    before_in_row, edge_indices, layout_matches, lemma_row_count_pos, lemma_row_y_mono, max2, max_rank, members,
    n_self, note_placed_ok, note_w, note_x, notes_extent, offset, placed_notes, rank_order, rank_start, size_w,
    slot, state_layout_ok, state_placed_ok, state_x, state_y, states_bottom, states_right, NoteViews, StateViews,
    StateLayoutResult, TransitionViews,
};
use super::database::state_pos;
use super::ranks::ranks_ok;
use vstd::prelude::*;

verus! {

pub proof fn lemma_max_rank(r: Seq<usize>, k: int, j: int)
    requires
        0 <= j < k <= r.len(),
    ensures
        r[j] <= max_rank(r, k),
    decreases k,
{
    if j < k - 1 {
        lemma_max_rank(r, k - 1, j);
    }
}

/// The members of a rank are the states of that rank, in increasing order.
proof fn lemma_members(r: Seq<usize>, rk: int, k: int)
    requires
        0 <= k <= r.len(),
    ensures
        forall|p: int|
            0 <= p < members(r, rk, k).len() ==> 0 <= #[trigger] members(r, rk, k)[p] < k && r[members(
                r,
                rk,
                k,
            )[p]] == rk,
        forall|p: int, q: int|
            0 <= p < q < members(r, rk, k).len() ==> #[trigger] members(r, rk, k)[p] < #[trigger] members(
                r,
                rk,
                k,
            )[q],
        forall|j: int|
            0 <= j < k && r[j] == rk ==> exists|p: int|
                0 <= p < members(r, rk, k).len() && #[trigger] members(r, rk, k)[p] == j,
    decreases k,
{
    if k > 0 {
        lemma_members(r, rk, k - 1);
        let prev = members(r, rk, k - 1);
        let m = members(r, rk, k);
        if r[k - 1] == rk {
            assert(m == prev.push(k - 1));
            assert forall|j: int| 0 <= j < k && r[j] == rk implies exists|p: int| 0 <= p < m.len() && #[trigger] m[p] == j by {
                if j == k - 1 {
                    assert(m[prev.len() as int] == j);
                } else {
                    let p = choose|p: int| 0 <= p < prev.len() && #[trigger] prev[p] == j;
                    assert(m[p] == j);
                }
            }
        }
    }
}

/// The placement order lists each state of rank below `q` exactly once.
pub proof fn lemma_rank_order(r: Seq<usize>, q: int)
    requires
        0 <= q,
    ensures
        forall|p: int|
            0 <= p < rank_order(r, q).len() ==> 0 <= #[trigger] rank_order(r, q)[p] < r.len() && r[rank_order(
                r,
                q,
            )[p]] < q,
        forall|p: int, p2: int|
            0 <= p < rank_order(r, q).len() && 0 <= p2 < rank_order(r, q).len() && p != p2 ==> #[trigger] rank_order(
                r,
                q,
            )[p] != #[trigger] rank_order(r, q)[p2],
        forall|j: int|
            0 <= j < r.len() && r[j] < q ==> exists|p: int|
                0 <= p < rank_order(r, q).len() && #[trigger] rank_order(r, q)[p] == j,
    decreases q,
{
    if q > 0 {
        lemma_rank_order(r, q - 1);
        lemma_members(r, q - 1, r.len() as int);
        let a = rank_order(r, q - 1);
        let b = members(r, q - 1, r.len() as int);
        let o = rank_order(r, q);
        assert(o == a + b);
        assert forall|p: int| 0 <= p < o.len() implies 0 <= #[trigger] o[p] < r.len() && r[o[p]] < q by {
            if p >= a.len() {
                assert(o[p] == b[p - a.len()]);
            }
        }
        assert forall|p: int, p2: int| 0 <= p < o.len() && 0 <= p2 < o.len() && p != p2 implies #[trigger] o[p]
            != #[trigger] o[p2] by {
            if p < a.len() && p2 >= a.len() {
                assert(o[p2] == b[p2 - a.len()]);
                assert(r[o[p]] < q - 1);
            } else if p >= a.len() && p2 < a.len() {
                assert(o[p] == b[p - a.len()]);
                assert(r[o[p2]] < q - 1);
            } else if p >= a.len() && p2 >= a.len() {
                assert(o[p] == b[p - a.len()]);
                assert(o[p2] == b[p2 - a.len()]);
                if p < p2 {
                    assert(b[p - a.len()] < b[p2 - a.len()]);
                } else {
                    assert(b[p2 - a.len()] < b[p - a.len()]);
                }
            }
        }
        assert forall|j: int| 0 <= j < r.len() && r[j] < q implies exists|p: int| 0 <= p < o.len() && #[trigger] o[p] == j by {
            if r[j] < q - 1 {
                let p = choose|p: int| 0 <= p < a.len() && #[trigger] a[p] == j;
                assert(o[p] == j);
            } else {
                let p = choose|p: int| 0 <= p < b.len() && #[trigger] b[p] == j;
                assert(o[p + a.len()] == j);
            }
        }
    }
}

/// Every state of a database is drawn exactly once in its layout: exactly
/// one placed state carries its identifier.
pub proof fn lemma_state_placed_once(db: &StateDatabase, res: StateLayoutResult, i: int)
    requires
        db.wf(),
        state_layout_ok(db, res),
        0 <= i < db.state_views().len(),
    ensures
        exists|p: int| 0 <= p < res.states.len() && (#[trigger] res.states@[p]).id@ == db.state_views()[i].0,
        forall|p: int, q: int|
            0 <= p < res.states.len() && 0 <= q < res.states.len() && (#[trigger] res.states@[p]).id@
                == db.state_views()[i].0 && (#[trigger] res.states@[q]).id@ == db.state_views()[i].0 ==> p == q,
{
    let sv = db.state_views();
    let tv = db.transition_views();
    let nv = db.note_views();
    let n = sv.len() as int;
    let (r, m) = choose|r: Seq<usize>, m: usize|
        #[trigger] ranks_ok(
            super::layout::edge_indices(sv, tv),
            super::layout::rank_start(sv, db.start_flag()),
            n,
            r,
            m,
        ) && #[trigger] layout_matches(db, res, r);
    let q = max_rank(r, n) + 1;
    let order = rank_order(r, q);
    lemma_rank_order(r, q);
    lemma_max_rank(r, n, i);
    let p = choose|p: int| 0 <= p < order.len() && #[trigger] order[p] == i;
    assert(state_placed_ok(res.states@[p], sv, tv, nv, r, order[p]));
    assert forall|p1: int, p2: int|
        0 <= p1 < res.states.len() && 0 <= p2 < res.states.len() && (#[trigger] res.states@[p1]).id@ == sv[i].0 && (
        #[trigger] res.states@[p2]).id@ == sv[i].0 implies p1 == p2 by {
        assert(state_placed_ok(res.states@[p1], sv, tv, nv, r, order[p1]));
        assert(state_placed_ok(res.states@[p2], sv, tv, nv, r, order[p2]));
        if order[p1] != i {
            if order[p1] < i {
                assert(sv[order[p1]].0 != sv[i].0);
            } else {
                assert(sv[i].0 != sv[order[p1]].0);
            }
        }
        if order[p2] != i {
            if order[p2] < i {
                assert(sv[order[p2]].0 != sv[i].0);
            } else {
                assert(sv[i].0 != sv[order[p2]].0);
            }
        }
    }
}

/// Two states of the same rank are listed in the placement order as they
/// are in the database.
proof fn lemma_order_within_rank(r: Seq<usize>, q: int, p1: int, p2: int)
    requires
        0 <= q,
        0 <= p1 < p2 < rank_order(r, q).len(),
        r[rank_order(r, q)[p1]] == r[rank_order(r, q)[p2]],
    ensures
        rank_order(r, q)[p1] < rank_order(r, q)[p2],
    decreases q,
{
    lemma_rank_order(r, q);
    if q > 0 {
        lemma_rank_order(r, q - 1);
        lemma_members(r, q - 1, r.len() as int);
        let a = rank_order(r, q - 1);
        let b = members(r, q - 1, r.len() as int);
        assert(rank_order(r, q) == a + b);
        if p2 < a.len() {
            lemma_order_within_rank(r, q - 1, p1, p2);
        } else if p1 >= a.len() {
            assert(b[p1 - a.len()] < b[p2 - a.len()]);
        } else {
            assert(r[a[p1]] < q - 1);
            assert(rank_order(r, q)[p2] == b[p2 - a.len()]);
        }
    }
}

proof fn lemma_before_mono(sv: StateViews, tv: TransitionViews, r: Seq<usize>, rk: int, i: int, j: int)
    requires
        0 <= i <= j <= r.len(),
        j <= sv.len(),
    ensures
        before_in_row(sv, tv, r, rk, i) <= before_in_row(sv, tv, r, rk, j),
    decreases j,
{
    if i < j {
        lemma_before_mono(sv, tv, r, rk, i, j - 1);
        assert(slot(sv, tv, j - 1) >= size_w(sv[j - 1]));
    }
}

proof fn lemma_states_right(sv: StateViews, tv: TransitionViews, nv: NoteViews, r: Seq<usize>, k: int, i: int)
    requires
        0 <= i < k,
    ensures
        state_x(sv, tv, nv, r, i) + size_w(sv[i]) <= states_right(sv, tv, nv, r, k),
    decreases k,
{
    if i < k - 1 {
        lemma_states_right(sv, tv, nv, r, k - 1, i);
    }
}

proof fn lemma_states_bottom(r: Seq<usize>, n: int, k: int, i: int)
    requires
        0 <= i < k,
    ensures
        state_y(r, i, n) + 3 <= states_bottom(r, n, k),
    decreases k,
{
    if i < k - 1 {
        lemma_states_bottom(r, n, k - 1, i);
    }
}

proof fn lemma_notes_extent(sv: StateViews, tv: TransitionViews, nv: NoteViews, r: Seq<usize>, k: int, j: int)
    requires
        0 <= j < k,
        state_pos(sv, nv[j].0) is Some,
    ensures
        note_x(sv, tv, nv, r, j) + note_w(nv, j) <= notes_extent(sv, tv, nv, r, k).0,
        state_y(r, state_pos(sv, nv[j].0)->0, sv.len() as int) + nv[j].2.len() + 2 <= notes_extent(sv, tv, nv, r, k).1,
    decreases k,
{
    if j < k - 1 {
        lemma_notes_extent(sv, tv, nv, r, k - 1, j);
    }
}

proof fn lemma_n_self(tv: TransitionViews, k: int)
    ensures
        n_self(tv, k) >= 0,
    decreases k,
{
    if k > 0 {
        lemma_n_self(tv, k - 1);
    }
}

pub(crate) proof fn lemma_placed_notes_named(sv: StateViews, nv: NoteViews, k: int)
    requires
        0 <= k <= nv.len(),
    ensures
        forall|q: int|
            0 <= q < placed_notes(sv, nv, k).len() ==> 0 <= #[trigger] placed_notes(sv, nv, k)[q] < k && state_pos(
                sv,
                nv[placed_notes(sv, nv, k)[q]].0,
            ) is Some,
    decreases k,
{
    if k > 0 {
        lemma_placed_notes_named(sv, nv, k - 1);
        let prev = placed_notes(sv, nv, k - 1);
        let cur = placed_notes(sv, nv, k);
        assert forall|q: int| 0 <= q < cur.len() implies 0 <= #[trigger] cur[q] < k && state_pos(sv, nv[cur[q]].0) is Some by {
            if q < prev.len() {
                assert(cur[q] == prev[q]);
            }
        }
    }
}

/// The placed states and notes of a layout keep apart and stay inside it:
/// a state of a lower rank ends above every state of a higher rank; of two
/// states of the same rank the one placed first ends, a gap of at least 3
/// columns, before the other starts; every state and every note lies within
/// the layout's width and height.
pub proof fn lemma_layout_separation(db: &StateDatabase, res: StateLayoutResult, p: int, q: int)
    requires
        state_layout_ok(db, res),
        0 <= p < res.states.len(),
        0 <= q < res.states.len(),
    ensures
        res.states@[p].rank < res.states@[q].rank ==> res.states@[p].y + res.states@[p].height < res.states@[q].y,
        res.states@[p].rank == res.states@[q].rank && p < q ==> res.states@[p].x + res.states@[p].width + 3
            <= res.states@[q].x,
        res.states@[p].x + res.states@[p].width <= res.width,
        res.states@[p].y + res.states@[p].height <= res.height,
        forall|k: int|
            0 <= k < res.notes.len() ==> (#[trigger] res.notes@[k]).x + res.notes@[k].width <= res.width
                && res.notes@[k].y + res.notes@[k].text.len() + 2 <= res.height,
{
    let sv = db.state_views();
    let tv = db.transition_views();
    let nv = db.note_views();
    let n = sv.len() as int;
    let (r, m) = choose|r: Seq<usize>, m: usize|
        #[trigger] ranks_ok(edge_indices(sv, tv), rank_start(sv, db.start_flag()), n, r, m)
            && #[trigger] layout_matches(db, res, r);
    let qq = max_rank(r, n) + 1;
    let order = rank_order(r, qq);
    lemma_rank_order(r, qq);
    let i = order[p];
    let j = order[q];
    assert(state_placed_ok(res.states@[p], sv, tv, nv, r, i));
    assert(state_placed_ok(res.states@[q], sv, tv, nv, r, j));
    if res.states@[p].rank < res.states@[q].rank {
        lemma_row_count_pos(r, r[i] as int, n, i);
        lemma_row_y_mono(r, r[i] as int, r[j] as int, n);
    }
    if res.states@[p].rank == res.states@[q].rank && p < q {
        lemma_order_within_rank(r, qq, p, q);
        let rk = r[i] as int;
        lemma_before_mono(sv, tv, r, rk, i + 1, j);
        assert(slot(sv, tv, i) >= size_w(sv[i]));
        assert(offset(sv, tv, i) + size_w(sv[i]) <= slot(sv, tv, i));
        assert(offset(sv, tv, j) >= 0);
    }
    lemma_states_right(sv, tv, nv, r, n, i);
    lemma_states_bottom(r, n, n, i);
    lemma_n_self(tv, tv.len() as int);
    let pn = placed_notes(sv, nv, nv.len() as int);
    lemma_placed_notes_named(sv, nv, nv.len() as int);
    assert forall|k: int| 0 <= k < res.notes.len() implies (#[trigger] res.notes@[k]).x + res.notes@[k].width
        <= res.width && res.notes@[k].y + res.notes@[k].text.len() + 2 <= res.height by {
        assert(note_placed_ok(res.notes@[k], sv, tv, nv, r, pn[k]));
        lemma_notes_extent(sv, tv, nv, r, nv.len() as int, pn[k]);
        assert(res.notes@[k].text@.map_values(|l: String| l@).len() == res.notes@[k].text.len());
    }
}

} // verus!
