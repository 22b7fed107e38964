//! Least-cost walks in a weighted digraph given as adjacency rows.
//!
//! Nodes are the indices of the rows; row `u` lists the edges that leave
//! node `u`. The search is Dijkstra's algorithm with a cost budget: a walk
//! whose cost exceeds the budget does not count as a walk at all.

use vstd::prelude::*;
use vstd::set_lib::*;

verus! {

/// An edge of the digraph: where it leads and what it costs to take it.
#[derive(Clone, Copy, Debug)]
pub struct Edge {
    pub to: usize,
    pub weight: u128,
}

/// One step of a walk: the node it leaves and the position of the edge
/// taken in that node's row.
#[derive(Clone, Copy, Debug)]
pub struct Step {
    pub node: usize,
    pub arc: usize,
}

/// The digraph as a sequence of rows.
pub open spec fn rows(adj: &Vec<Vec<Edge>>) -> Seq<Seq<Edge>> {
    Seq::new(adj@.len(), |u: int| adj@[u]@)
}

/// Every edge leads to a node of the digraph.
pub open spec fn well_formed(g: Seq<Seq<Edge>>) -> bool {
    forall|u: int, k: int|
        0 <= u < g.len() && 0 <= k < g[u].len() ==> (#[trigger] g[u][k]).to < g.len()
}

pub open spec fn valid_step(g: Seq<Seq<Edge>>, s: Step) -> bool {
    s.node < g.len() && s.arc < g[s.node as int].len()
}

pub open spec fn edge_of(g: Seq<Seq<Edge>>, s: Step) -> Edge {
    g[s.node as int][s.arc as int]
}

/// `p` is a walk in `g` that starts at `from` and ends at `to`.
pub open spec fn is_walk(g: Seq<Seq<Edge>>, p: Seq<Step>, from: int, to: int) -> bool
    decreases p.len(),
{
    if p.len() == 0 {
        from == to && 0 <= from < g.len()
    } else {
        let s = p.last();
        valid_step(g, s) && edge_of(g, s).to == to && is_walk(g, p.drop_last(), from, s.node as int)
    }
}

/// The sum of the weights along `p`.
pub open spec fn cost(g: Seq<Seq<Edge>>, p: Seq<Step>) -> nat
    decreases p.len(),
{
    if p.len() == 0 {
        0
    } else {
        cost(g, p.drop_last()) + edge_of(g, p.last()).weight as nat
    }
}

/// `p` is a walk from `from` to `to` and no walk between the two is cheaper.
pub open spec fn is_cheapest_walk(g: Seq<Seq<Edge>>, p: Seq<Step>, from: int, to: int) -> bool {
    &&& is_walk(g, p, from, to)
    &&& forall|q: Seq<Step>| #[trigger] is_walk(g, q, from, to) ==> cost(g, p) <= cost(g, q)
}

/// The state of a search: tentative distances, which nodes are settled,
/// and for each node with a distance the walk that realises it.
pub struct SearchState {
    pub dist: Seq<Option<u64>>,
    pub done: Seq<bool>,
    pub paths: Seq<Seq<Step>>,
}

pub open spec fn initial(n: nat, src: int) -> SearchState {
    SearchState {
        dist: Seq::new(n, |i: int| if i == src { Some(0u64) } else { None }),
        done: Seq::new(n, |i: int| false),
        paths: Seq::new(n, |i: int| Seq::empty()),
    }
}

/// `u` is the unsettled node of least distance; among equals, the first.
pub open spec fn is_pick(dist: Seq<Option<u64>>, done: Seq<bool>, u: int) -> bool {
    &&& 0 <= u < dist.len()
    &&& !done[u]
    &&& dist[u] is Some
    &&& forall|j: int|
        0 <= j < dist.len() && !done[j] && (#[trigger] dist[j]) is Some ==> {
            ||| dist[u].unwrap() < dist[j].unwrap()
            ||| (dist[u].unwrap() == dist[j].unwrap() && u <= j)
        }
}

pub open spec fn has_pick(st: SearchState) -> bool {
    exists|u: int| is_pick(st.dist, st.done, u)
}

pub open spec fn pick(st: SearchState) -> int {
    choose|u: int| is_pick(st.dist, st.done, u)
}

/// Whether edge `e`, taken from a node at distance `du`, improves on what
/// is known of its target within the budget.
pub open spec fn improves(st: SearchState, du: u64, e: Edge, budget: u64) -> bool {
    &&& du <= budget
    &&& e.weight <= budget - du
    &&& (st.dist[e.to as int] matches Some(dv) ==> du + e.weight < dv)
}

/// The state after looking at edge `k` of node `u`.
pub open spec fn relax(g: Seq<Seq<Edge>>, st: SearchState, u: int, k: int, budget: u64)
    -> SearchState {
    let e = g[u][k];
    let du = st.dist[u].unwrap();
    if improves(st, du, e, budget) {
        SearchState {
            dist: st.dist.update(e.to as int, Some((du + e.weight) as u64)),
            done: st.done,
            paths: st.paths.update(
                e.to as int,
                st.paths[u].push(Step { node: u as usize, arc: k as usize }),
            ),
        }
    } else {
        st
    }
}

/// The state after settling `u` and looking at its first `k` edges.
pub open spec fn relax_upto(g: Seq<Seq<Edge>>, st: SearchState, u: int, k: nat, budget: u64)
    -> SearchState
    decreases k,
{
    if k == 0 {
        SearchState { dist: st.dist, done: st.done.update(u, true), paths: st.paths }
    } else {
        relax(g, relax_upto(g, st, u, (k - 1) as nat, budget), u, k - 1, budget)
    }
}

pub open spec fn settle(g: Seq<Seq<Edge>>, st: SearchState, u: int, budget: u64) -> SearchState {
    relax_upto(g, st, u, g[u].len(), budget)
}

/// The state after at most `fuel` nodes more have been settled.
pub open spec fn run(g: Seq<Seq<Edge>>, st: SearchState, budget: u64, fuel: nat) -> SearchState
    decreases fuel,
{
    if fuel == 0 || !has_pick(st) {
        st
    } else {
        run(g, settle(g, st, pick(st), budget), budget, (fuel - 1) as nat)
    }
}

/// The walk that the search returns from `src` to `dst`, if it finds one.
pub open spec fn search_result(g: Seq<Seq<Edge>>, src: int, dst: int, budget: u64) -> Option<
    Seq<Step>,
> {
    let st = run(g, initial(g.len(), src), budget, g.len());
    if st.dist[dst] is Some {
        Some(st.paths[dst])
    } else {
        None
    }
}

/// `d` is no more than the cost of any walk from `src` to `v` that stays
/// within the budget.
pub open spec fn is_lower_bound(g: Seq<Seq<Edge>>, src: int, v: int, budget: u64, d: u64) -> bool {
    forall|q: Seq<Step>| #[trigger] is_walk(g, q, src, v) && cost(g, q) <= budget ==> d <= cost(g, q)
}

/// Edge `k` of node `u` has been looked at: if it fits the budget, its
/// target has a distance that is no worse than going through `u`.
pub open spec fn arc_relaxed(g: Seq<Seq<Edge>>, st: SearchState, u: int, k: int, budget: u64)
    -> bool {
    let e = g[u][k];
    let du = st.dist[u].unwrap();
    (du <= budget && e.weight <= budget - du) ==> {
        &&& st.dist[e.to as int] is Some
        &&& st.dist[e.to as int].unwrap() <= du + e.weight
    }
}

/// What holds of a search state throughout. While node `cur` is being
/// settled, only its first `upto` edges have been looked at; between two
/// settlings `cur` is -1.
pub open spec fn inv(
    g: Seq<Seq<Edge>>,
    src: int,
    budget: u64,
    st: SearchState,
    cur: int,
    upto: int,
) -> bool {
    &&& well_formed(g)
    &&& 0 <= src < g.len()
    &&& st.dist.len() == g.len()
    &&& st.done.len() == g.len()
    &&& st.paths.len() == g.len()
    &&& st.dist[src] == Some(0u64)
    &&& forall|v: int|
        0 <= v < g.len() && (#[trigger] st.dist[v]) is Some ==> {
            &&& is_walk(g, st.paths[v], src, v)
            &&& cost(g, st.paths[v]) == st.dist[v].unwrap()
            &&& st.dist[v].unwrap() <= budget
        }
    &&& forall|v: int|
        0 <= v < g.len() && #[trigger] st.done[v] ==> {
            &&& st.dist[v] is Some
            &&& is_lower_bound(g, src, v, budget, st.dist[v].unwrap())
        }
    &&& forall|u: int, k: int|
        0 <= u < g.len() && st.done[u] && 0 <= k < g[u].len() && !(u == cur && k >= upto)
            ==> #[trigger] arc_relaxed(g, st, u, k, budget)
}

/// Some unsettled node has a distance of at most `c`.
pub open spec fn cut_below(st: SearchState, c: nat) -> bool {
    exists|y: int|
        0 <= y < st.dist.len() && !st.done[y] && (#[trigger] st.dist[y]) is Some
            && st.dist[y].unwrap() <= c
}

pub proof fn lemma_walk_end_in_range(g: Seq<Seq<Edge>>, p: Seq<Step>, from: int, to: int)
    requires
        well_formed(g),
        is_walk(g, p, from, to),
    ensures
        0 <= to < g.len(),
{
}

pub proof fn lemma_initial(g: Seq<Seq<Edge>>, src: int, budget: u64)
    requires
        well_formed(g),
        0 <= src < g.len(),
    ensures
        inv(g, src, budget, initial(g.len(), src), -1, 0),
{
    let st = initial(g.len(), src);
    assert forall|v: int| 0 <= v < g.len() && (#[trigger] st.dist[v]) is Some implies {
        &&& is_walk(g, st.paths[v], src, v)
        &&& cost(g, st.paths[v]) == st.dist[v].unwrap()
        &&& st.dist[v].unwrap() <= budget
    } by {
        assert(v == src);
        assert(st.paths[v] =~= Seq::<Step>::empty());
    }
}

/// A walk within the budget either ends at a node whose distance is no
/// more than the walk's cost, or crosses an unsettled node that is.
pub proof fn lemma_cut(
    g: Seq<Seq<Edge>>,
    src: int,
    budget: u64,
    st: SearchState,
    q: Seq<Step>,
    v: int,
)
    requires
        inv(g, src, budget, st, -1, 0),
        is_walk(g, q, src, v),
        cost(g, q) <= budget,
    ensures
        0 <= v < g.len(),
        (st.dist[v] is Some && st.dist[v].unwrap() <= cost(g, q)) || cut_below(st, cost(g, q)),
    decreases q.len(),
{
    lemma_walk_end_in_range(g, q, src, v);
    if q.len() == 0 {
    } else {
        let s = q.last();
        let x = s.node as int;
        let q1 = q.drop_last();
        lemma_cut(g, src, budget, st, q1, x);
        let c1 = cost(g, q1);
        if st.dist[x] is Some && st.dist[x].unwrap() <= c1 {
            if st.done[x] {
                assert(arc_relaxed(g, st, x, s.arc as int, budget));
            } else {
                assert(cut_below(st, cost(g, q)));
            }
        } else {
            let y = choose|y: int|
                0 <= y < st.dist.len() && !st.done[y] && (#[trigger] st.dist[y]) is Some
                    && st.dist[y].unwrap() <= c1;
            assert(st.dist[y].unwrap() <= cost(g, q));
            assert(cut_below(st, cost(g, q)));
        }
    }
}

pub proof fn lemma_pick_unique(dist: Seq<Option<u64>>, done: Seq<bool>, a: int, b: int)
    requires
        is_pick(dist, done, a),
        is_pick(dist, done, b),
    ensures
        a == b,
{
    assert(dist[a] is Some);
    assert(dist[b] is Some);
}

/// Marking the picked node settled keeps the invariant, with none of its
/// edges looked at yet.
pub proof fn lemma_mark(g: Seq<Seq<Edge>>, src: int, budget: u64, st: SearchState, u: int)
    requires
        inv(g, src, budget, st, -1, 0),
        is_pick(st.dist, st.done, u),
    ensures
        inv(g, src, budget, relax_upto(g, st, u, 0, budget), u, 0),
{
    let st2 = relax_upto(g, st, u, 0, budget);
    let d = st.dist[u].unwrap();
    assert forall|q: Seq<Step>| #[trigger] is_walk(g, q, src, u) && cost(g, q) <= budget implies d
        <= cost(g, q) by {
        lemma_cut(g, src, budget, st, q, u);
        if !(st.dist[u] is Some && st.dist[u].unwrap() <= cost(g, q)) {
            let y = choose|y: int|
                0 <= y < st.dist.len() && !st.done[y] && (#[trigger] st.dist[y]) is Some
                    && st.dist[y].unwrap() <= cost(g, q);
            assert(st.dist[y] is Some);
        }
    }
    assert(is_lower_bound(g, src, u, budget, d));
    assert forall|v: int| 0 <= v < g.len() && #[trigger] st2.done[v] implies {
        &&& st2.dist[v] is Some
        &&& is_lower_bound(g, src, v, budget, st2.dist[v].unwrap())
    } by {
        if v != u {
            assert(st.done[v]);
        }
    }
    assert forall|w: int, k: int|
        0 <= w < g.len() && st2.done[w] && 0 <= k < g[w].len() && !(w == u && k >= 0)
            implies #[trigger] arc_relaxed(g, st2, w, k, budget) by {
        assert(st.done[w]);
        assert(arc_relaxed(g, st, w, k, budget));
    }
}

/// The walk to `u` with edge `k` of `u` added is a walk to that edge's
/// target, and costs the edge's weight more.
pub proof fn lemma_extend_walk(g: Seq<Seq<Edge>>, p: Seq<Step>, src: int, u: int, k: int)
    requires
        is_walk(g, p, src, u),
        0 <= u < g.len(),
        0 <= k < g[u].len(),
        u <= usize::MAX,
        k <= usize::MAX,
    ensures
        is_walk(g, p.push(Step { node: u as usize, arc: k as usize }), src, g[u][k].to as int),
        cost(g, p.push(Step { node: u as usize, arc: k as usize })) == cost(g, p)
            + g[u][k].weight,
{
    let s = Step { node: u as usize, arc: k as usize };
    let p2 = p.push(s);
    assert(p2.last() == s);
    assert(p2.drop_last() =~= p);
}

/// Looking at one more edge of the node being settled keeps the
/// invariant; an edge that improves never leads to a settled node.
pub proof fn lemma_relax(
    g: Seq<Seq<Edge>>,
    src: int,
    budget: u64,
    st: SearchState,
    u: int,
    k: int,
)
    requires
        inv(g, src, budget, st, u, k),
        0 <= u < g.len(),
        st.done[u],
        0 <= k < g[u].len(),
        g.len() <= usize::MAX,
        g[u].len() <= usize::MAX,
    ensures
        inv(g, src, budget, relax(g, st, u, k, budget), u, k + 1),
        improves(st, st.dist[u].unwrap(), g[u][k], budget) ==> !st.done[g[u][k].to as int],
{
    let e = g[u][k];
    let v = e.to as int;
    let du = st.dist[u].unwrap();
    let st2 = relax(g, st, u, k, budget);
    assert(e.to < g.len());
    assert(st.dist[u] is Some);
    if improves(st, du, e, budget) {
        let s = Step { node: u as usize, arc: k as usize };
        let p2 = st.paths[u].push(s);
        lemma_extend_walk(g, st.paths[u], src, u, k);
        assert(is_walk(g, p2, src, v));
        assert(cost(g, p2) == du + e.weight);
        if st.done[v] {
            assert(is_lower_bound(g, src, v, budget, st.dist[v].unwrap()));
            assert(false);
        }
        assert(v != u);
        assert(v != src) by {
            if v == src {
                assert(st.dist[v] == Some(0u64));
            }
        }
        assert forall|x: int| 0 <= x < g.len() && (#[trigger] st2.dist[x]) is Some implies {
            &&& is_walk(g, st2.paths[x], src, x)
            &&& cost(g, st2.paths[x]) == st2.dist[x].unwrap()
            &&& st2.dist[x].unwrap() <= budget
        } by {
            if x != v {
                assert(st.dist[x] is Some);
            }
        }
        assert forall|x: int| 0 <= x < g.len() && #[trigger] st2.done[x] implies {
            &&& st2.dist[x] is Some
            &&& is_lower_bound(g, src, x, budget, st2.dist[x].unwrap())
        } by {
            assert(st.done[x]);
            assert(x != v);
        }
        assert forall|w: int, j: int|
            0 <= w < g.len() && st2.done[w] && 0 <= j < g[w].len() && !(w == u && j >= k + 1)
                implies #[trigger] arc_relaxed(g, st2, w, j, budget) by {
            assert(w != v);
            assert(st2.dist[w] == st.dist[w]);
            assert(g[w][j].to < g.len());
            if w == u && j == k {
            } else {
                assert(arc_relaxed(g, st, w, j, budget));
            }
        }
    } else {
        assert forall|w: int, j: int|
            0 <= w < g.len() && st2.done[w] && 0 <= j < g[w].len() && !(w == u && j >= k + 1)
                implies #[trigger] arc_relaxed(g, st2, w, j, budget) by {
            if w == u && j == k {
            } else {
                assert(arc_relaxed(g, st, w, j, budget));
            }
        }
    }
}

/// Once no unsettled node has a distance, every distance is final: the
/// walk kept for a node is a cheapest one, and a node without a distance
/// cannot be reached within the budget.
pub proof fn lemma_final(g: Seq<Seq<Edge>>, src: int, budget: u64, st: SearchState, v: int)
    requires
        inv(g, src, budget, st, -1, 0),
        !has_pick(st),
        0 <= v < g.len(),
    ensures
        st.dist[v] is Some ==> is_cheapest_walk(g, st.paths[v], src, v) && cost(g, st.paths[v])
            <= budget,
        st.dist[v] is None ==> forall|q: Seq<Step>| #[trigger]
            is_walk(g, q, src, v) ==> cost(g, q) > budget,
{
    lemma_no_pick_no_frontier(st);
    assert forall|q: Seq<Step>| #[trigger] is_walk(g, q, src, v) && cost(g, q) <= budget implies (
    st.dist[v] is Some && st.dist[v].unwrap() <= cost(g, q)) by {
        lemma_cut(g, src, budget, st, q, v);
        if cut_below(st, cost(g, q)) {
            let y = choose|y: int|
                0 <= y < st.dist.len() && !st.done[y] && (#[trigger] st.dist[y]) is Some
                    && st.dist[y].unwrap() <= cost(g, q);
            assert(false);
        }
    }
    if st.dist[v] is Some {
        assert forall|q: Seq<Step>| #[trigger] is_walk(g, q, src, v) implies cost(g, st.paths[v])
            <= cost(g, q) by {
            if cost(g, q) <= budget {
            }
        }
    }
}

/// Where some unsettled node has a distance, there is a node to pick.
pub proof fn lemma_no_pick_no_frontier(st: SearchState)
    requires
        !has_pick(st),
        st.dist.len() == st.done.len(),
    ensures
        forall|y: int| 0 <= y < st.dist.len() && !st.done[y] ==> (#[trigger] st.dist[y]) is None,
{
    assert forall|y: int| 0 <= y < st.dist.len() && !st.done[y] implies (#[trigger] st.dist[y])
        is None by {
        if st.dist[y] is Some {
            let u = lemma_least(st.dist, st.done, st.dist.len() as int, y);
            assert(is_pick(st.dist, st.done, u));
        }
    }
}

/// `u` is the first least unsettled node among the first `n`.
pub open spec fn is_pick_among(dist: Seq<Option<u64>>, done: Seq<bool>, n: int, u: int) -> bool {
    &&& 0 <= u < n
    &&& !done[u]
    &&& dist[u] is Some
    &&& forall|j: int|
        0 <= j < n && !done[j] && (#[trigger] dist[j]) is Some ==> {
            ||| dist[u].unwrap() < dist[j].unwrap()
            ||| (dist[u].unwrap() == dist[j].unwrap() && u <= j)
        }
}

pub proof fn lemma_least(dist: Seq<Option<u64>>, done: Seq<bool>, n: int, y: int) -> (u: int)
    requires
        0 <= y < n <= dist.len(),
        dist.len() == done.len(),
        !done[y],
        dist[y] is Some,
    ensures
        is_pick_among(dist, done, n, u),
    decreases n,
{
    if exists|j: int| 0 <= j < n - 1 && !done[j] && (#[trigger] dist[j]) is Some {
        let j0 = choose|j: int| 0 <= j < n - 1 && !done[j] && (#[trigger] dist[j]) is Some;
        let u0 = lemma_least(dist, done, n - 1, j0);
        if !done[n - 1] && dist[n - 1] is Some && dist[n - 1].unwrap() < dist[u0].unwrap() {
            n - 1
        } else {
            u0
        }
    } else {
        assert(y == n - 1);
        y
    }
}

/// Settling the picked node and looking at its first `k` edges keeps the
/// invariant, and settles no other node.
pub proof fn lemma_relax_upto(
    g: Seq<Seq<Edge>>,
    src: int,
    budget: u64,
    st: SearchState,
    u: int,
    k: nat,
)
    requires
        inv(g, src, budget, st, -1, 0),
        is_pick(st.dist, st.done, u),
        k <= g[u].len(),
        g.len() <= usize::MAX,
        g[u].len() <= usize::MAX,
    ensures
        inv(g, src, budget, relax_upto(g, st, u, k, budget), u, k as int),
        relax_upto(g, st, u, k, budget).done == st.done.update(u, true),
    decreases k,
{
    if k == 0 {
        lemma_mark(g, src, budget, st, u);
    } else {
        lemma_relax_upto(g, src, budget, st, u, (k - 1) as nat);
        lemma_relax(g, src, budget, relax_upto(g, st, u, (k - 1) as nat, budget), u, k - 1);
    }
}

/// Run with enough fuel, the search ends in a state that keeps the
/// invariant and leaves no node to pick.
pub proof fn lemma_run(
    g: Seq<Seq<Edge>>,
    src: int,
    budget: u64,
    st: SearchState,
    fuel: nat,
    pending: Set<int>,
)
    requires
        inv(g, src, budget, st, -1, 0),
        pending.finite(),
        forall|v: int| pending.contains(v) <==> (0 <= v < g.len() && !st.done[v]),
        fuel >= pending.len(),
        g.len() <= usize::MAX,
        forall|u: int| 0 <= u < g.len() ==> (#[trigger] g[u]).len() <= usize::MAX,
    ensures
        inv(g, src, budget, run(g, st, budget, fuel), -1, 0),
        !has_pick(run(g, st, budget, fuel)),
    decreases fuel,
{
    if has_pick(st) {
        let u = pick(st);
        assert(pending.contains(u));
        assert(pending.len() > 0) by {
            if pending.len() == 0 {
                pending.lemma_len0_is_empty();
            }
        }
        lemma_relax_upto(g, src, budget, st, u, g[u].len());
        let st2 = settle(g, st, u, budget);
        lemma_run(g, src, budget, st2, (fuel - 1) as nat, pending.remove(u));
    }
}

/// What the search returns is a cheapest walk from `src` to `dst`, within
/// the budget; where it returns none, every walk between the two costs
/// more than the budget.
pub proof fn lemma_search_result(g: Seq<Seq<Edge>>, src: int, dst: int, budget: u64)
    requires
        well_formed(g),
        0 <= src < g.len(),
        0 <= dst < g.len(),
        g.len() <= usize::MAX,
        forall|u: int| 0 <= u < g.len() ==> (#[trigger] g[u]).len() <= usize::MAX,
    ensures
        search_result(g, src, dst, budget) matches Some(p) ==> is_cheapest_walk(g, p, src, dst)
            && cost(g, p) <= budget,
        search_result(g, src, dst, budget) is None ==> forall|q: Seq<Step>| #[trigger]
            is_walk(g, q, src, dst) ==> cost(g, q) > budget,
{
    lemma_initial(g, src, budget);
    lemma_int_range(0, g.len() as int);
    lemma_run(g, src, budget, initial(g.len(), src), g.len(), set_int_range(0, g.len() as int));
    lemma_final(g, src, budget, run(g, initial(g.len(), src), budget, g.len()), dst);
}

/// How the search remembers the walks: for a node with a distance, the
/// last step of its walk, which leaves a settled node.
pub open spec fn pred_ok(g: Seq<Seq<Edge>>, st: SearchState, pred: Seq<Option<Step>>) -> bool {
    &&& pred.len() == g.len()
    &&& forall|v: int|
        0 <= v < g.len() && (#[trigger] st.dist[v]) is Some ==> match pred[v] {
            Some(s) => valid_step(g, s) && st.done[s.node as int] && st.paths[v]
                == st.paths[s.node as int].push(s),
            None => st.paths[v].len() == 0,
        }
}

/// The first unsettled node of least distance, if any node is unsettled
/// and has a distance.
pub fn find_min_distance(dist: &Vec<Option<u64>>, done: &Vec<bool>) -> (r: Option<usize>)
    requires
        dist.len() == done.len(),
    ensures
        match r {
            Some(u) => is_pick(dist@, done@, u as int),
            None => forall|u: int| !is_pick(dist@, done@, u),
        },
{
    let n = dist.len();
    let mut best: Option<usize> = None;
    let mut i: usize = 0;
    while i < n
        invariant
            n == dist.len(),
            n == done.len(),
            i <= n,
            match best {
                Some(u) => is_pick_among(dist@, done@, i as int, u as int),
                None => forall|j: int| 0 <= j < i && !done@[j] ==> (#[trigger] dist@[j]) is None,
            },
        decreases n - i,
    {
        if !done[i] {
            match dist[i] {
                Some(d) => {
                    match best {
                        Some(u) => {
                            let du = dist[u].unwrap();
                            if d < du {
                                best = Some(i);
                            }
                        },
                        None => {
                            best = Some(i);
                        },
                    }
                },
                None => {},
            }
        }
        i = i + 1;
    }
    proof {
        if best is None {
            assert forall|u: int| !is_pick(dist@, done@, u) by {
                if is_pick(dist@, done@, u) {
                    assert(dist@[u] is Some);
                }
            }
        }
    }
    best
}

/// A cheapest walk from `src` to `dst` among those that cost no more than
/// `budget`, or `None` where every walk between the two costs more.
pub fn shortest_path(adj: &Vec<Vec<Edge>>, src: usize, dst: usize, budget: u64) -> (r: Option<
    Vec<Step>,
>)
    requires
        well_formed(rows(adj)),
        src < adj.len(),
        dst < adj.len(),
    ensures
        r matches Some(p) ==> search_result(rows(adj), src as int, dst as int, budget) == Some(
            p@,
        ),
        r is None ==> search_result(rows(adj), src as int, dst as int, budget) is None,
        r matches Some(p) ==> is_cheapest_walk(rows(adj), p@, src as int, dst as int) && cost(
            rows(adj),
            p@,
        ) <= budget,
        r is None ==> forall|q: Seq<Step>| #[trigger]
            is_walk(rows(adj), q, src as int, dst as int) ==> cost(rows(adj), q) > budget,
{
    let n = adj.len();
    let ghost g = rows(adj);
    let mut dist: Vec<Option<u64>> = Vec::new();
    let mut done: Vec<bool> = Vec::new();
    let mut pred: Vec<Option<Step>> = Vec::new();
    let mut i: usize = 0;
    while i < n
        invariant
            i <= n,
            src < n,
            dist.len() == i,
            done.len() == i,
            pred.len() == i,
            forall|j: int| 0 <= j < i ==> dist@[j] == (if j == src { Some(0u64) } else { None }),
            forall|j: int| 0 <= j < i ==> done@[j] == false,
            forall|j: int| 0 <= j < i ==> pred@[j] is None,
        decreases n - i,
    {
        dist.push(if i == src { Some(0u64) } else { None });
        done.push(false);
        pred.push(None);
        i = i + 1;
    }
    let ghost mut st = initial(n as nat, src as int);
    let ghost mut pending: Set<int> = set_int_range(0, n as int);
    proof {
        lemma_initial(g, src as int, budget);
        lemma_int_range(0, n as int);
        assert(dist@ =~= st.dist);
        assert(done@ =~= st.done);
    }
    loop
        invariant
            n == adj.len(),
            g == rows(adj),
            src < n,
            dist@ == st.dist,
            done@ == st.done,
            inv(g, src as int, budget, st, -1, 0),
            pred_ok(g, st, pred@),
            pending.finite(),
            forall|v: int| pending.contains(v) <==> (0 <= v < n && !st.done[v]),
            run(g, st, budget, pending.len()) == run(g, initial(n as nat, src as int), budget, n as nat),
        ensures
            n == adj.len(),
            g == rows(adj),
            dist@ == st.dist,
            inv(g, src as int, budget, st, -1, 0),
            pred_ok(g, st, pred@),
            !has_pick(st),
            st == run(g, initial(n as nat, src as int), budget, n as nat),
        decreases pending.len(),
    {
        let picked = find_min_distance(&dist, &done);
        let u = match picked {
            Some(u) => u,
            None => {
                break ;
            },
        };
        proof {
            assert(is_pick(st.dist, st.done, u as int));
            lemma_pick_unique(st.dist, st.done, u as int, pick(st));
            assert(pending.contains(u as int));
            lemma_mark(g, src as int, budget, st, u as int);
        }
        let ghost st0 = st;
        let ghost fuel = pending.len();
        done.set(u, true);
        proof {
            st = relax_upto(g, st0, u as int, 0, budget);
            pending = pending.remove(u as int);
            assert(done@ =~= st.done);
        }
        let row = &adj[u];
        let m = row.len();
        let du = dist[u].unwrap();
        let mut k: usize = 0;
        while k < m
            invariant
                n == adj.len(),
                g == rows(adj),
                src < n,
                u < n,
                row@ == g[u as int],
                m == row.len(),
                k <= m,
                dist@ == st.dist,
                done@ == st.done,
                st.done[u as int],
                st.dist[u as int] == Some(du),
                st == relax_upto(g, st0, u as int, k as nat, budget),
                inv(g, src as int, budget, st, u as int, k as int),
                pred_ok(g, st, pred@),
                forall|v: int| 0 <= v < n ==> (st.done[v] <==> (v == u || st0.done[v])),
            decreases m - k,
        {
            let e = row[k];
            proof {
                assert(g[u as int][k as int] == e);
                assert(e.to < n);
                lemma_relax(g, src as int, budget, st, u as int, k as int);
            }
            let ghost st1 = st;
            if du <= budget && e.weight <= (budget - du) as u128 {
                let cand: u64 = du + (e.weight as u64);
                let better = match dist[e.to] {
                    Some(dv) => cand < dv,
                    None => true,
                };
                if better {
                    dist.set(e.to, Some(cand));
                    pred.set(e.to, Some(Step { node: u, arc: k }));
                }
            }
            proof {
                st = relax(g, st1, u as int, k as int, budget);
                assert(dist@ =~= st.dist);
                assert(pred_ok(g, st, pred@)) by {
                    assert forall|v: int|
                        0 <= v < g.len() && (#[trigger] st.dist[v]) is Some implies match pred@[v] {
                        Some(s) => valid_step(g, s) && st.done[s.node as int] && st.paths[v]
                            == st.paths[s.node as int].push(s),
                        None => st.paths[v].len() == 0,
                    } by {
                        if improves(st1, du, e, budget) {
                            if v != e.to {
                                assert(st1.dist[v] is Some);
                            }
                        } else {
                            assert(st1.dist[v] is Some);
                        }
                    }
                }
            }
            k = k + 1;
        }
        proof {
            assert(st == settle(g, st0, u as int, budget));
            assert(has_pick(st0));
            assert(fuel > 0);
            assert(pending.len() == fuel - 1);
            assert(run(g, st0, budget, fuel) == run(g, st, budget, (fuel - 1) as nat));
        }
    }
    match dist[dst] {
        None => {
            proof {
                lemma_final(g, src as int, budget, st, dst as int);
            }
            None
        },
        Some(_) => {
            let mut rev: Vec<Step> = Vec::new();
            let mut c: usize = dst;
            loop
                invariant
                    n == adj.len(),
                    g == rows(adj),
                    c < n,
                    dist@ == st.dist,
                    st.dist[c as int] is Some,
                    inv(g, src as int, budget, st, -1, 0),
                    pred_ok(g, st, pred@),
                    st.paths[dst as int] == st.paths[c as int] + rev@.reverse(),
                ensures
                    st.paths[dst as int] == rev@.reverse(),
                decreases st.paths[c as int].len(),
            {
                match pred[c] {
                    None => {
                        proof {
                            assert(st.paths[c as int] =~= Seq::<Step>::empty());
                            assert(st.paths[dst as int] =~= rev@.reverse());
                        }
                        break ;
                    },
                    Some(s) => {
                        let ghost old_rev = rev@;
                        rev.push(s);
                        proof {
                            assert(st.done[s.node as int]);
                            assert(rev@.reverse() =~= seq![s] + old_rev.reverse());
                            assert(st.paths[s.node as int].push(s) + old_rev.reverse()
                                =~= st.paths[s.node as int] + rev@.reverse());
                        }
                        c = s.node;
                    },
                }
            }
            let len = rev.len();
            let mut path: Vec<Step> = Vec::new();
            let mut j: usize = len;
            while j > 0
                invariant
                    len == rev.len(),
                    j <= len,
                    path.len() == len - j,
                    forall|t: int| 0 <= t < path.len() ==> path@[t] == rev@[len - 1 - t],
                decreases j,
            {
                j = j - 1;
                path.push(rev[j]);
            }
            proof {
                assert(path@ =~= rev@.reverse());
                lemma_final(g, src as int, budget, st, dst as int);
            }
            Some(path)
        },
    }
}

} // verus!
