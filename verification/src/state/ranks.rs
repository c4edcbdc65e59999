//! Ranks of states: the length of a shortest path of transitions from the
//! start, computed breadth first, layer by layer.
use vstd::prelude::*;

verus! {

/// `s` together with every state that a transition leads to from `s`.
pub open spec fn step(edges: Seq<(int, int)>, s: Set<int>) -> Set<int> {
    s.union(Set::new(|t: int| exists|k: int| 0 <= k < edges.len() && s.contains(edges[k].0) && edges[k].1 == t))
}

/// The states reachable from `start` in at most `k` transitions.
pub open spec fn reach(edges: Seq<(int, int)>, start: Option<int>, k: nat) -> Set<int>
    decreases k,
{
    if k == 0 {
        match start {
            Some(x) => set![x],
            None => Set::empty(),
        }
    } else {
        step(edges, reach(edges, start, (k - 1) as nat))
    }
}

/// Whether `v` is reachable from `start` at all.
pub open spec fn reachable(edges: Seq<(int, int)>, start: Option<int>, v: int) -> bool {
    exists|k: nat| #[trigger] reach(edges, start, k).contains(v)
}

/// Whether the shortest path from `start` to `v` has `k` transitions.
pub open spec fn dist_is(edges: Seq<(int, int)>, start: Option<int>, v: int, k: nat) -> bool {
    reach(edges, start, k).contains(v) && (k == 0 || !reach(edges, start, (k - 1) as nat).contains(v))
}

/// The rank of every state: its distance from the start when reachable,
/// and otherwise one more than the largest distance found (or than 0).
pub open spec fn ranks_ok(edges: Seq<(int, int)>, start: Option<int>, n: int, r: Seq<usize>, m: usize) -> bool {
    &&& r.len() == n
    &&& forall|v: int| 0 <= v < n && reachable(edges, start, v) ==> dist_is(edges, start, v, #[trigger] r[v] as nat)
    &&& forall|v: int| 0 <= v < n && reachable(edges, start, v) ==> #[trigger] r[v] <= m
    &&& (m == 0 || exists|v: int| 0 <= v < n && reachable(edges, start, v) && #[trigger] r[v] == m)
    &&& forall|v: int| 0 <= v < n && !reachable(edges, start, v) ==> #[trigger] r[v] == m + 1
}

pub proof fn lemma_reach_mono(edges: Seq<(int, int)>, start: Option<int>, j: nat, k: nat)
    requires
        j <= k,
    ensures
        reach(edges, start, j).subset_of(reach(edges, start, k)),
    decreases k,
{
    if j < k {
        lemma_reach_mono(edges, start, j, (k - 1) as nat);
    }
}

pub proof fn lemma_reach_fix(edges: Seq<(int, int)>, start: Option<int>, k: nat, m: nat)
    requires
        reach(edges, start, k + 1) == reach(edges, start, k),
        k <= m,
    ensures
        reach(edges, start, m) == reach(edges, start, k),
    decreases m,
{
    if m > k + 1 {
        lemma_reach_fix(edges, start, k, (m - 1) as nat);
        assert(reach(edges, start, m) == step(edges, reach(edges, start, (m - 1) as nat)));
    }
}

pub proof fn lemma_reach_bounded(edges: Seq<(int, int)>, start: Option<int>, n: int, k: nat)
    requires
        start matches Some(x) ==> 0 <= x < n,
        forall|e: int| 0 <= e < edges.len() ==> 0 <= (#[trigger] edges[e]).0 < n && 0 <= edges[e].1 < n,
    ensures
        forall|v: int| reach(edges, start, k).contains(v) ==> 0 <= v < n,
    decreases k,
{
    if k > 0 {
        lemma_reach_bounded(edges, start, n, (k - 1) as nat);
        let prev = reach(edges, start, (k - 1) as nat);
        assert forall|v: int| reach(edges, start, k).contains(v) implies 0 <= v < n by {
            if !prev.contains(v) {
                let j = choose|j: int| 0 <= j < edges.len() && prev.contains(edges[j].0) && edges[j].1 == v;
                assert(0 <= edges[j].1 < n);
            }
        }
    }
}

/// Number of entries that are set.
pub open spec fn count_set(r: Seq<Option<usize>>) -> nat
    decreases r.len(),
{
    if r.len() == 0 {
        0
    } else {
        count_set(r.drop_last()) + if r.last() is Some {
            1nat
        } else {
            0nat
        }
    }
}

pub proof fn lemma_count_set(r: Seq<Option<usize>>, i: int, x: usize)
    requires
        0 <= i < r.len(),
        r[i] is None,
    ensures
        count_set(r.update(i, Some(x))) == count_set(r) + 1,
        count_set(r) <= r.len(),
    decreases r.len(),
{
    lemma_count_bound(r);
    if i < r.len() - 1 {
        lemma_count_set(r.drop_last(), i, x);
        assert(r.update(i, Some(x)).drop_last() == r.drop_last().update(i, Some(x)));
    } else {
        assert(r.update(i, Some(x)).drop_last() == r.drop_last());
    }
}

pub proof fn lemma_count_bound(r: Seq<Option<usize>>)
    ensures
        count_set(r) <= r.len(),
    decreases r.len(),
{
    if r.len() > 0 {
        lemma_count_bound(r.drop_last());
    }
}

/// Ranks of `n` states joined by `edges`, by breadth-first layers from
/// `start`, and the largest rank of a reachable state (0 when none is).
pub fn assign_ranks(edges: &Vec<(usize, usize)>, start: Option<usize>, n: usize) -> (r: (Vec<usize>, usize))
    requires
        n < usize::MAX,
        start matches Some(x) ==> x < n,
        forall|e: int| 0 <= e < edges.len() ==> (#[trigger] edges@[e]).0 < n && edges@[e].1 < n,
    ensures
        ranks_ok(
            edges@.map_values(|e: (usize, usize)| (e.0 as int, e.1 as int)),
            match start {
                Some(x) => Some(x as int),
                None => None,
            },
            n as int,
            r.0@,
            r.1,
        ),
        r.1 <= n,
        forall|v: int| 0 <= v < n ==> #[trigger] r.0@[v] <= n + 1,
{
    let ghost es = edges@.map_values(|e: (usize, usize)| (e.0 as int, e.1 as int));
    let ghost st: Option<int> = match start {
        Some(x) => Some(x as int),
        None => None,
    };
    proof {
        assert forall|e: int| 0 <= e < es.len() implies 0 <= (#[trigger] es[e]).0 < n && 0 <= es[e].1 < n by {
            assert(es[e] == (edges@[e].0 as int, edges@[e].1 as int));
        }
    }
    let mut rank: Vec<Option<usize>> = Vec::new();
    let mut i: usize = 0;
    while i < n
        invariant
            i <= n,
            rank@.len() == i,
            forall|v: int| 0 <= v < i ==> rank@[v] is None,
        decreases n - i,
    {
        rank.push(None);
        i += 1;
    }
    assert(count_set(rank@) == 0) by {
        assert forall|j: int| 0 <= j <= rank@.len() implies count_set(#[trigger] rank@.take(j)) == 0 by {
            lemma_count_zero(rank@, j);
        }
        assert(rank@.take(rank@.len() as int) == rank@);
    }
    let mut cnt: usize = 0;
    let mut changed = false;
    match start {
        Some(x) => {
            proof {
                lemma_count_set(rank@, x as int, 0);
            }
            rank.set(x, Some(0));
            cnt = 1;
            changed = true;
        },
        None => {},
    }
    proof {
        lemma_count_bound(rank@);
        if start is None {
            assert(reach(es, st, 1) =~= reach(es, st, 0));
        }
    }
    let mut k: usize = 0;
    while changed
        invariant
            rank@.len() == n,
            es == edges@.map_values(|e: (usize, usize)| (e.0 as int, e.1 as int)),
            forall|e: int| 0 <= e < es.len() ==> 0 <= (#[trigger] es[e]).0 < n && 0 <= es[e].1 < n,
            forall|e: int| 0 <= e < edges.len() ==> (#[trigger] edges@[e]).0 < n && edges@[e].1 < n,
            st matches Some(x) ==> 0 <= x < n,
            cnt == count_set(rank@),
            cnt <= n,
            k <= n,
            changed ==> cnt >= k + 1,
            forall|v: int| 0 <= v < n && (#[trigger] rank@[v]) is Some ==> rank@[v]->0 <= k && dist_is(es, st, v, rank@[v]->0 as nat),
            forall|v: int| reach(es, st, k as nat).contains(v) ==> 0 <= v < n && (#[trigger] rank@[v]) is Some,
            !changed ==> reach(es, st, (k + 1) as nat) == reach(es, st, k as nat),
        decreases n - k,
    {
        let ghost cnt0 = cnt;
        let mut found = false;
        let mut e: usize = 0;
        while e < edges.len()
            invariant
                rank@.len() == n,
                es == edges@.map_values(|e: (usize, usize)| (e.0 as int, e.1 as int)),
                forall|e: int| 0 <= e < edges.len() ==> (#[trigger] edges@[e]).0 < n && edges@[e].1 < n,
                cnt == count_set(rank@),
                cnt <= n,
                k < n,
                cnt >= cnt0,
                found ==> cnt >= cnt0 + 1,
                e <= edges.len(),
                forall|v: int| 0 <= v < n && (#[trigger] rank@[v]) is Some ==> rank@[v]->0 <= k + 1 && dist_is(es, st, v, rank@[v]->0 as nat),
                forall|v: int| reach(es, st, k as nat).contains(v) ==> 0 <= v < n && (#[trigger] rank@[v]) is Some,
                forall|j: int| 0 <= j < e && rank@[es[j].0] == Some(k) ==> (#[trigger] rank@[es[j].1]) is Some,
                !found ==> forall|v: int| 0 <= v < n ==> #[trigger] rank@[v] != Some((k + 1) as usize),
                forall|v: int| 0 <= v < n && rank@[v] == Some((k + 1) as usize) ==> reach(es, st, (k + 1) as nat).contains(v),
            decreases edges.len() - e,
        {
            let (f, t) = edges[e];
            assert(es[e as int] == (f as int, t as int));
            if rank[f] == Some(k) && rank[t].is_none() {
                proof {
                    lemma_count_set(rank@, t as int, (k + 1) as usize);
                    lemma_count_bound(rank@.update(t as int, Some((k + 1) as usize)));
                    assert(dist_is(es, st, f as int, k as nat));
                    assert(reach(es, st, (k + 1) as nat) == step(es, reach(es, st, k as nat)));
                    assert(reach(es, st, (k + 1) as nat).contains(t as int));
                }
                let ghost before = rank@;
                rank.set(t, Some(k + 1));
                cnt = cnt + 1;
                found = true;
                proof {
                    assert forall|v: int| reach(es, st, k as nat).contains(v) implies 0 <= v < n
                        && (#[trigger] rank@[v]) is Some by {
                        if v != t {
                            assert(rank@[v] == before[v]);
                        }
                    }
                    assert forall|j: int| 0 <= j < e + 1 && rank@[es[j].0] == Some(k) implies (
                    #[trigger] rank@[es[j].1]) is Some by {
                        if es[j].1 != t {
                            assert(rank@[es[j].1] == before[es[j].1]);
                            if es[j].0 != t {
                                assert(rank@[es[j].0] == before[es[j].0]);
                            }
                        }
                    }
                }
            }
            e += 1;
        }
        proof {
            let r1 = reach(es, st, (k + 1) as nat);
            let r0 = reach(es, st, k as nat);
            assert(r1 == step(es, r0));
            assert forall|v: int| r1.contains(v) implies 0 <= v < n && (#[trigger] rank@[v]) is Some by {
                if !r0.contains(v) {
                    let j = choose|j: int| 0 <= j < es.len() && r0.contains(es[j].0) && es[j].1 == v;
                    let f = es[j].0;
                    assert(rank@[f] is Some);
                    let d = rank@[f]->0;
                    if d < k {
                        lemma_reach_mono(es, st, (d + 1) as nat, k as nat);
                        assert(reach(es, st, (d + 1) as nat) == step(es, reach(es, st, d as nat)));
                        assert(reach(es, st, (d + 1) as nat).contains(v));
                    } else if d == k + 1 {
                        assert(!reach(es, st, k as nat).contains(f));
                    }
                }
            }
            if !found {
                assert forall|v: int| r1.contains(v) implies r0.contains(v) by {
                    assert(rank@[v] is Some);
                    let d = rank@[v]->0;
                    if d <= k {
                        lemma_reach_mono(es, st, d as nat, k as nat);
                    }
                }
                assert(r1 =~= r0);
                assert(reach(es, st, (k + 2) as nat) == step(es, r1));
            }
        }
        k = k + 1;
        changed = found;
    }
    let ghost rk = rank@;
    proof {
        assert forall|v: int| 0 <= v < n && reachable(es, st, v) implies (#[trigger] rk[v]) is Some by {
            let j = choose|j: nat| #[trigger] reach(es, st, j).contains(v);
            if j <= k {
                lemma_reach_mono(es, st, j, k as nat);
            } else {
                lemma_reach_fix(es, st, k as nat, j);
            }
        }
        assert forall|v: int| 0 <= v < n && (#[trigger] rk[v]) is Some implies reachable(es, st, v) by {
            let d = rk[v]->0;
            assert(reach(es, st, d as nat).contains(v));
        }
    }
    let mut out: Vec<usize> = Vec::new();
    let mut m: usize = 0;
    let mut w: usize = 0;
    while w < n
        invariant
            rank@ == rk,
            rk.len() == n,
            w <= n,
            out@.len() == w,
            forall|v: int| 0 <= v < w && (#[trigger] rk[v]) is Some ==> out@[v] == rk[v]->0 && out@[v] <= m,
            forall|v: int| 0 <= v < w ==> #[trigger] out@[v] <= k,
            m == 0 || exists|v: int| 0 <= v < w && (#[trigger] rk[v]) == Some(m),
            forall|v: int| 0 <= v < n && (#[trigger] rk[v]) is Some ==> rk[v]->0 <= k,
            k <= n,
            n < usize::MAX,
            m <= k,
        decreases n - w,
    {
        match rank[w] {
            Some(d) => {
                out.push(d);
                if d > m {
                    m = d;
                }
            },
            None => {
                out.push(0);
            },
        }
        w += 1;
    }
    let ghost o1 = out@;
    let mut u: usize = 0;
    while u < n
        invariant
            rank@ == rk,
            rk.len() == n,
            out@.len() == n,
            u <= n,
            m <= n,
            n < usize::MAX,
            forall|v: int| 0 <= v < n && (#[trigger] rk[v]) is Some ==> out@[v] == rk[v]->0 && out@[v] <= m,
            forall|v: int| 0 <= v < u && (#[trigger] rk[v]) is None ==> out@[v] == m + 1,
            forall|v: int| 0 <= v < n ==> #[trigger] out@[v] <= n + 1,
        decreases n - u,
    {
        if rank[u].is_none() {
            out.set(u, m + 1);
        }
        u += 1;
    }
    proof {
        assert forall|v: int| 0 <= v < n && reachable(es, st, v) implies dist_is(es, st, v, #[trigger] out@[v] as nat) by {
            assert(rk[v] is Some);
        }
        assert forall|v: int| 0 <= v < n && reachable(es, st, v) implies #[trigger] out@[v] <= m by {
            assert(rk[v] is Some);
        }
        assert forall|v: int| 0 <= v < n && !reachable(es, st, v) implies #[trigger] out@[v] == m + 1 by {
            if rk[v] is Some {
                assert(reachable(es, st, v));
            }
        }
        if m != 0 {
            let v = choose|v: int| 0 <= v < n && (#[trigger] rk[v]) == Some(m);
            assert(reachable(es, st, v));
            assert(out@[v] == m);
        }
        assert(ranks_ok(es, st, n as int, out@, m));
    }
    (out, m)
}

proof fn lemma_count_zero(r: Seq<Option<usize>>, j: int)
    requires
        0 <= j <= r.len(),
        forall|v: int| 0 <= v < r.len() ==> r[v] is None,
    ensures
        count_set(r.take(j)) == 0,
    decreases j,
{
    if j > 0 {
        lemma_count_zero(r, j - 1);
        assert(r.take(j).drop_last() == r.take(j - 1));
    }
}

/// Whether the transitions `p` (indices into `edges`), taken one after
/// another, lead from `a` to `b`.
pub open spec fn walk(edges: Seq<(int, int)>, a: int, p: Seq<int>, b: int) -> bool
    decreases p.len(),
{
    if p.len() == 0 {
        a == b
    } else {
        0 <= p.last() < edges.len() && edges[p.last()].1 == b && walk(edges, a, p.drop_last(), edges[p.last()].0)
    }
}

proof fn lemma_reach_has_walk(edges: Seq<(int, int)>, x: int, k: nat, v: int)
    requires
        reach(edges, Some(x), k).contains(v),
    ensures
        exists|p: Seq<int>| p.len() <= k && #[trigger] walk(edges, x, p, v),
    decreases k,
{
    if k == 0 {
        assert(walk(edges, x, Seq::<int>::empty(), v));
    } else {
        let prev = reach(edges, Some(x), (k - 1) as nat);
        if prev.contains(v) {
            lemma_reach_has_walk(edges, x, (k - 1) as nat, v);
        } else {
            let e = choose|e: int| 0 <= e < edges.len() && prev.contains(edges[e].0) && edges[e].1 == v;
            lemma_reach_has_walk(edges, x, (k - 1) as nat, edges[e].0);
            let p = choose|p: Seq<int>| p.len() <= k - 1 && #[trigger] walk(edges, x, p, edges[e].0);
            let q = p.push(e);
            assert(q.drop_last() == p);
            assert(walk(edges, x, q, v));
        }
    }
}

proof fn lemma_walk_reaches(edges: Seq<(int, int)>, x: int, p: Seq<int>, v: int)
    requires
        walk(edges, x, p, v),
    ensures
        reach(edges, Some(x), p.len()).contains(v),
    decreases p.len(),
{
    if p.len() > 0 {
        let e = p.last();
        lemma_walk_reaches(edges, x, p.drop_last(), edges[e].0);
        let prev = reach(edges, Some(x), (p.len() - 1) as nat);
        assert(prev.contains(edges[e].0));
        assert(step(edges, prev).contains(v));
    }
}

/// Ranks are shortest path lengths: a state reachable from the start has a
/// walk of exactly its rank's length from the start, and none shorter; a
/// state not reachable has no walk from the start, and its rank is one more
/// than the largest rank of a reachable state (or 1).
pub proof fn lemma_rank_is_shortest_path(edges: Seq<(int, int)>, x: int, n: int, r: Seq<usize>, m: usize, v: int)
    requires
        ranks_ok(edges, Some(x), n, r, m),
        0 <= v < n,
    ensures
        reachable(edges, Some(x), v) ==> (exists|p: Seq<int>| p.len() == r[v] && #[trigger] walk(edges, x, p, v)),
        reachable(edges, Some(x), v) ==> forall|p: Seq<int>| #[trigger] walk(edges, x, p, v) ==> p.len() >= r[v],
        !reachable(edges, Some(x), v) ==> (forall|p: Seq<int>| !#[trigger] walk(edges, x, p, v)) && r[v] == m + 1,
{
    if reachable(edges, Some(x), v) {
        assert(dist_is(edges, Some(x), v, r[v] as nat));
        assert forall|p: Seq<int>| #[trigger] walk(edges, x, p, v) implies p.len() >= r[v] by {
            lemma_walk_reaches(edges, x, p, v);
            if p.len() < r[v] {
                lemma_reach_mono(edges, Some(x), p.len(), (r[v] - 1) as nat);
                assert(reach(edges, Some(x), (r[v] - 1) as nat).contains(v));
            }
        }
        lemma_reach_has_walk(edges, x, r[v] as nat, v);
        let p = choose|p: Seq<int>| p.len() <= r[v] && #[trigger] walk(edges, x, p, v);
        assert(p.len() == r[v]);
    } else {
        assert forall|p: Seq<int>| !#[trigger] walk(edges, x, p, v) by {
            if walk(edges, x, p, v) {
                lemma_walk_reaches(edges, x, p, v);
                assert(reach(edges, Some(x), p.len()).contains(v));
            }
        }
    }
}

} // verus!
