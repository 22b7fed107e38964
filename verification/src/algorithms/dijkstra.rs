//! The shortest-path strategy: the route of least total fee.

use crate::graph::{
    has_node, is_node_at, lemma_node_at_unique, node_index, node_ref_views, find_node, Channel,
    ChannelView, NetworkGraph, Node, NodeView,
};
use crate::search::{
    cost, is_cheapest_walk, is_walk, rows, search_result, shortest_path, valid_step, well_formed,
    Edge, Step,
};
use crate::strategy::{
    calculate_fee, check_input, fee, input_error, outcome, Query, RouteError, RouteHop,
    RouteHopView, RouteInput, RouteOutput, Strategy, MIN_FINAL_DELAY,
};
use vstd::prelude::*;

verus! {

/// What taking a channel costs on top of its fee.
pub trait EdgeCost {
    spec fn extra(&self, channel: ChannelView) -> u64;

    fn extra_cost(&self, channel: &Channel) -> (r: u64)
        ensures
            r == self.extra(channel@),
    ;
}

/// The cost policy of the shortest-path strategy: the fee and nothing else.
pub struct FeeOnly;

impl EdgeCost for FeeOnly {
    open spec fn extra(&self, channel: ChannelView) -> u64 {
        0
    }

    fn extra_cost(&self, channel: &Channel) -> (r: u64) {
        0
    }
}

/// The node that channel `k` of node `u` leads to.
pub open spec fn far_end(nodes: Seq<NodeView>, u: int, k: int) -> Seq<char> {
    nodes[u].channels[k].other_end(nodes[u].id)
}

/// Every channel of every node leads to a node of the graph.
pub open spec fn closed(nodes: Seq<NodeView>) -> bool {
    forall|u: int, k: int|
        0 <= u < nodes.len() && 0 <= k < nodes[u].channels.len() ==> has_node(
            nodes,
            #[trigger] far_end(nodes, u, k),
        )
}

/// Channel `k` of node `u` as an edge between places in `nodes`, weighted
/// with its fee for `amount` and what the policy adds.
pub open spec fn edge_at<C: EdgeCost>(nodes: Seq<NodeView>, amount: u64, policy: C, u: int, k: int)
    -> Edge {
    Edge {
        to: node_index(nodes, far_end(nodes, u, k)) as usize,
        weight: (fee(amount, nodes[u].channels[k]) + policy.extra(nodes[u].channels[k])) as u128,
    }
}

/// The graph as a weighted digraph over the places in `nodes`.
pub open spec fn adjacency_of<C: EdgeCost>(nodes: Seq<NodeView>, amount: u64, policy: C) -> Seq<
    Seq<Edge>,
> {
    Seq::new(
        nodes.len(),
        |u: int| Seq::new(nodes[u].channels.len(), |k: int| edge_at(nodes, amount, policy, u, k)),
    )
}

pub proof fn lemma_fee_bound(amount: u64, channel: ChannelView)
    ensures
        fee(amount, channel) + 0xffff_ffff_ffff_ffff < 0x1_0000_0000_0000_0000_0000_0000_0000_0000,
{
    assert(amount * channel.fee_per_millionth <= 0xffff_ffff_ffff_ffff * 0xffff_ffff_ffff_ffff)
        by (nonlinear_arith)
        requires
            amount <= 0xffff_ffff_ffff_ffff,
            channel.fee_per_millionth <= 0xffff_ffff_ffff_ffff,
    ;
}

/// The weighted digraph of `nodes`, or `EndpointNotFound` where a channel
/// leads to a node that is not among them.
pub fn build_adjacency<C: EdgeCost>(nodes: &Vec<&Node>, amount: u64, policy: &C) -> (r: Result<
    Vec<Vec<Edge>>,
    RouteError,
>)
    ensures
        match r {
            Ok(adj) => closed(node_ref_views(nodes@)) && rows(&adj) == adjacency_of(
                node_ref_views(nodes@),
                amount,
                *policy,
            ) && well_formed(rows(&adj)),
            Err(e) => e == RouteError::EndpointNotFound && !closed(node_ref_views(nodes@)),
        },
{
    let ghost views = node_ref_views(nodes@);
    let n = nodes.len();
    let mut adj: Vec<Vec<Edge>> = Vec::new();
    let mut u: usize = 0;
    while u < n
        invariant
            n == nodes.len(),
            views == node_ref_views(nodes@),
            u <= n,
            adj.len() == u,
            forall|a: int, k: int|
                0 <= a < u && 0 <= k < views[a].channels.len() ==> has_node(
                    views,
                    #[trigger] far_end(views, a, k),
                ),
            forall|a: int|
                0 <= a < u ==> (#[trigger] adj@[a])@ == Seq::new(
                    views[a].channels.len(),
                    |k: int| edge_at(views, amount, *policy, a, k),
                ),
        decreases n - u,
    {
        let node = nodes[u];
        let m = node.channels.len();
        let mut row: Vec<Edge> = Vec::new();
        let mut k: usize = 0;
        proof {
            assert(views[u as int] == node@);
            assert(node@.channels.len() == m);
        }
        while k < m
            invariant
                n == nodes.len(),
                views == node_ref_views(nodes@),
                u < n,
                node == nodes@[u as int],
                m == node.channels.len(),
                m == views[u as int].channels.len(),
                k <= m,
                row.len() == k,
                forall|j: int|
                    0 <= j < k ==> has_node(views, #[trigger] far_end(views, u as int, j)),
                forall|j: int|
                    0 <= j < k ==> (#[trigger] row@[j]) == edge_at(
                        views,
                        amount,
                        *policy,
                        u as int,
                        j,
                    ),
            decreases m - k,
        {
            let channel = &node.channels[k];
            proof {
                assert(views[u as int].channels[k as int] == channel@);
                assert(views[u as int].id == node.id@);
                lemma_fee_bound(amount, channel@);
            }
            let target = if channel.node1 == node.id {
                &channel.node2
            } else {
                &channel.node1
            };
            assert(target@ == far_end(views, u as int, k as int));
            let to = match find_node(nodes, target) {
                Some(i) => i,
                None => {
                    return Err(RouteError::EndpointNotFound);
                },
            };
            let weight: u128 = calculate_fee(amount, channel) + (policy.extra_cost(
                channel,
            ) as u128);
            row.push(Edge { to, weight });
            k = k + 1;
        }
        proof {
            assert(row@ =~= Seq::new(
                views[u as int].channels.len(),
                |j: int| edge_at(views, amount, *policy, u as int, j),
            ));
        }
        adj.push(row);
        u = u + 1;
    }
    proof {
        let g = rows(&adj);
        let want = adjacency_of(views, amount, *policy);
        assert(g.len() == want.len());
        assert forall|a: int| 0 <= a < g.len() implies g[a] == want[a] by {
            assert(g[a] == adj@[a]@);
        }
        assert(g =~= want);
        assert forall|a: int, k: int| 0 <= a < g.len() && 0 <= k < g[a].len() implies (
        #[trigger] g[a][k]).to < g.len() by {
            assert(has_node(views, far_end(views, a, k)));
            let i = node_index(views, far_end(views, a, k));
            assert(is_node_at(views, far_end(views, a, k), i));
            assert(g[a][k] == edge_at(views, amount, *policy, a, k));
        }
    }
    Ok(adj)
}

/// Every step of `p` names a node of the graph and one of its channels.
pub open spec fn steps_in(nodes: Seq<NodeView>, p: Seq<Step>) -> bool {
    forall|i: int|
        0 <= i < p.len() ==> (#[trigger] p[i]).node < nodes.len() && p[i].arc
            < nodes[p[i].node as int].channels.len()
}

/// The channel that step `s` takes.
pub open spec fn step_channel(nodes: Seq<NodeView>, s: Step) -> ChannelView {
    nodes[s.node as int].channels[s.arc as int]
}

/// The fees of the steps of `p` from step `i` on, the last step left out.
pub open spec fn tail_fees(nodes: Seq<NodeView>, amount: u64, p: Seq<Step>, i: int) -> nat
    decreases p.len() - i,
{
    if i < 0 || i >= p.len() - 1 {
        0
    } else {
        fee(amount, step_channel(nodes, p[i])) + tail_fees(nodes, amount, p, i + 1)
    }
}

/// The delays of the steps of `p` from step `i` on, the last step left out.
pub open spec fn tail_delays(nodes: Seq<NodeView>, p: Seq<Step>, i: int) -> nat
    decreases p.len() - i,
{
    if i < 0 || i >= p.len() - 1 {
        0
    } else {
        step_channel(nodes, p[i]).delay as nat + tail_delays(nodes, p, i + 1)
    }
}

/// The amount and the delay of the first hop fit a hop; those of the
/// later hops are no larger.
pub open spec fn fits(nodes: Seq<NodeView>, amount: u64, p: Seq<Step>) -> bool {
    &&& amount + tail_fees(nodes, amount, p, 0) <= u64::MAX
    &&& MIN_FINAL_DELAY + tail_delays(nodes, p, 0) <= u32::MAX
}

/// The hop for step `i` of `p`: where the step leads, the channel it
/// takes, and the delay and amount from there to the end of `p`.
pub open spec fn hop_at(nodes: Seq<NodeView>, amount: u64, p: Seq<Step>, i: int) -> RouteHopView {
    RouteHopView {
        id: far_end(nodes, p[i].node as int, p[i].arc as int),
        channel: step_channel(nodes, p[i]).id,
        delay: (MIN_FINAL_DELAY + tail_delays(nodes, p, i)) as u32,
        amount_msat: (amount + tail_fees(nodes, amount, p, i)) as u64,
    }
}

/// The hops of the route along `p`.
pub open spec fn hops_of(nodes: Seq<NodeView>, amount: u64, p: Seq<Step>) -> Seq<RouteHopView> {
    Seq::new(p.len(), |i: int| hop_at(nodes, amount, p, i))
}

/// The sums from a later step on are no larger than from an earlier one.
pub proof fn lemma_tails_shrink(nodes: Seq<NodeView>, amount: u64, p: Seq<Step>, i: int, j: int)
    requires
        0 <= i <= j,
    ensures
        tail_fees(nodes, amount, p, j) <= tail_fees(nodes, amount, p, i),
        tail_delays(nodes, p, j) <= tail_delays(nodes, p, i),
    decreases j - i,
{
    if i < j {
        lemma_tails_shrink(nodes, amount, p, i + 1, j);
    }
}

/// Along a route the amounts never grow, and the last hop forwards
/// exactly the amount asked for.
pub proof fn lemma_amounts_fall(nodes: Seq<NodeView>, amount: u64, p: Seq<Step>)
    requires
        fits(nodes, amount, p),
        p.len() > 0,
    ensures
        hops_of(nodes, amount, p).last().amount_msat == amount,
        hops_of(nodes, amount, p)[0].amount_msat >= amount,
        forall|i: int, j: int|
            0 <= i <= j < p.len() ==> (#[trigger] hops_of(nodes, amount, p)[i]).amount_msat >= (
            #[trigger] hops_of(nodes, amount, p)[j]).amount_msat,
{
    let hops = hops_of(nodes, amount, p);
    assert(tail_fees(nodes, amount, p, p.len() - 1) == 0);
    lemma_tails_shrink(nodes, amount, p, 0, p.len() - 1);
    assert forall|i: int, j: int| 0 <= i <= j < p.len() implies (#[trigger] hops[i]).amount_msat
        >= (#[trigger] hops[j]).amount_msat by {
        lemma_tails_shrink(nodes, amount, p, 0, i);
        lemma_tails_shrink(nodes, amount, p, 0, j);
        lemma_tails_shrink(nodes, amount, p, i, j);
    }
}

/// Along a route the delays never grow, and the last hop asks for the
/// least final delay.
pub proof fn lemma_delays_fall(nodes: Seq<NodeView>, amount: u64, p: Seq<Step>)
    requires
        fits(nodes, amount, p),
        p.len() > 0,
    ensures
        hops_of(nodes, amount, p).last().delay == MIN_FINAL_DELAY,
        forall|i: int, j: int|
            0 <= i <= j < p.len() ==> (#[trigger] hops_of(nodes, amount, p)[i]).delay >= (
            #[trigger] hops_of(nodes, amount, p)[j]).delay,
{
    let hops = hops_of(nodes, amount, p);
    assert(tail_delays(nodes, p, p.len() - 1) == 0);
    assert forall|i: int, j: int| 0 <= i <= j < p.len() implies (#[trigger] hops[i]).delay >= (
    #[trigger] hops[j]).delay by {
        lemma_tails_shrink(nodes, amount, p, 0, i);
        lemma_tails_shrink(nodes, amount, p, 0, j);
        lemma_tails_shrink(nodes, amount, p, i, j);
    }
}

/// The hops of the route along `path`, or `Unrepresentable` where the
/// first hop's amount or delay does not fit.
pub fn materialize(nodes: &Vec<&Node>, amount: u64, path: &Vec<Step>) -> (r: Result<
    RouteOutput,
    RouteError,
>)
    requires
        steps_in(node_ref_views(nodes@), path@),
    ensures
        fits(node_ref_views(nodes@), amount, path@) ==> r is Ok && r.unwrap()@ == hops_of(
            node_ref_views(nodes@),
            amount,
            path@,
        ),
        !fits(node_ref_views(nodes@), amount, path@) ==> r == Err::<RouteOutput, RouteError>(
            RouteError::Unrepresentable,
        ),
{
    let ghost views = node_ref_views(nodes@);
    let ghost p = path@;
    let len = path.len();
    let mut rev: Vec<RouteHop> = Vec::new();
    let mut total: u64 = amount;
    let mut delay: u32 = MIN_FINAL_DELAY;
    let mut i: usize = len;
    while i > 0
        invariant
            views == node_ref_views(nodes@),
            p == path@,
            len == path.len(),
            steps_in(views, p),
            i <= len,
            rev.len() == len - i,
            total == amount + tail_fees(views, amount, p, i as int),
            delay == MIN_FINAL_DELAY + tail_delays(views, p, i as int),
            forall|t: int|
                0 <= t < rev.len() ==> (#[trigger] rev@[t])@ == hop_at(
                    views,
                    amount,
                    p,
                    len - 1 - t,
                ),
        decreases i,
    {
        let idx = i - 1;
        let step = path[idx];
        proof {
            assert(p[idx as int] == step);
            assert(step.node < views.len());
        }
        let node = nodes[step.node];
        let channel = &node.channels[step.arc];
        proof {
            assert(views[step.node as int] == node@);
            assert(step_channel(views, step) == channel@);
        }
        let id = if channel.node1 == node.id {
            channel.node2.clone()
        } else {
            channel.node1.clone()
        };
        if idx + 1 < len {
            let f = calculate_fee(amount, channel);
            if f > (u64::MAX - total) as u128 || channel.delay > (u32::MAX - delay) as u64 {
                proof {
                    lemma_tails_shrink(views, amount, p, 0, idx as int);
                }
                return Err(RouteError::Unrepresentable);
            }
            total = total + (f as u64);
            delay = delay + (channel.delay as u32);
        }
        rev.push(RouteHop::new(id, channel.id.clone(), delay, total));
        i = idx;
    }
    let mut hops: Vec<RouteHop> = Vec::new();
    let mut j: usize = len;
    while j > 0
        invariant
            len == rev.len(),
            j <= len,
            hops.len() == len - j,
            forall|t: int| 0 <= t < hops.len() ==> (#[trigger] hops@[t])@ == rev@[len - 1 - t]@,
        decreases j,
    {
        j = j - 1;
        hops.push(rev[j].clone());
    }
    let out = RouteOutput { path: hops };
    proof {
        assert(out@ =~= hops_of(views, amount, p));
    }
    Ok(out)
}

/// The steps of a walk in the graph's digraph name nodes and channels of
/// the graph.
pub proof fn lemma_walk_steps_in<C: EdgeCost>(
    nodes: Seq<NodeView>,
    amount: u64,
    policy: C,
    p: Seq<Step>,
    from: int,
    to: int,
)
    requires
        is_walk(adjacency_of(nodes, amount, policy), p, from, to),
    ensures
        steps_in(nodes, p),
    decreases p.len(),
{
    let g = adjacency_of(nodes, amount, policy);
    if p.len() > 0 {
        let s = p.last();
        lemma_walk_steps_in(nodes, amount, policy, p.drop_last(), from, s.node as int);
        assert forall|i: int| 0 <= i < p.len() implies (#[trigger] p[i]).node < nodes.len()
            && p[i].arc < nodes[p[i].node as int].channels.len() by {
            if i < p.len() - 1 {
                assert(p.drop_last()[i] == p[i]);
            } else {
                assert(valid_step(g, s));
            }
        }
    }
}

/// The largest total cost that leaves the first hop's amount within a hop.
pub open spec fn budget_for(amount: u64) -> u64 {
    (u64::MAX - amount) as u64
}

/// `hops` is the route along a cheapest walk from the source to the
/// destination.
pub open spec fn is_best_route<C: EdgeCost>(q: Query, policy: C, hops: Seq<RouteHopView>) -> bool {
    exists|p: Seq<Step>|
        {
            &&& #[trigger] is_cheapest_walk(
                adjacency_of(q.nodes, q.amount_msat, policy),
                p,
                node_index(q.nodes, q.src),
                node_index(q.nodes, q.dst),
            )
            &&& fits(q.nodes, q.amount_msat, p)
            &&& hops == hops_of(q.nodes, q.amount_msat, p)
        }
}

/// Some walk leads from the source to the destination at a cost that
/// the amount leaves room for.
pub open spec fn reachable<C: EdgeCost>(q: Query, policy: C) -> bool {
    exists|p: Seq<Step>|
        {
            &&& #[trigger] is_walk(
                adjacency_of(q.nodes, q.amount_msat, policy),
                p,
                node_index(q.nodes, q.src),
                node_index(q.nodes, q.dst),
            )
            &&& q.amount_msat + cost(adjacency_of(q.nodes, q.amount_msat, policy), p) <= u64::MAX
        }
}

/// The request can be searched: it is sound, both its ends are nodes of
/// the graph, and every channel leads to a node of the graph.
pub open spec fn searchable(q: Query) -> bool {
    &&& input_error(q) is None
    &&& has_node(q.nodes, q.src)
    &&& has_node(q.nodes, q.dst)
    &&& closed(q.nodes)
}

/// What a search with cost policy `policy` answers to `q`.
pub open spec fn search_answer<C: EdgeCost>(q: Query, policy: C) -> Result<
    Seq<RouteHopView>,
    RouteError,
> {
    if input_error(q) is Some {
        Err(input_error(q).unwrap())
    } else if !has_node(q.nodes, q.src) {
        Err(RouteError::SourceNotFound)
    } else if !has_node(q.nodes, q.dst) {
        Err(RouteError::DestinationNotFound)
    } else if !closed(q.nodes) {
        Err(RouteError::EndpointNotFound)
    } else {
        match search_result(
            adjacency_of(q.nodes, q.amount_msat, policy),
            node_index(q.nodes, q.src),
            node_index(q.nodes, q.dst),
            budget_for(q.amount_msat),
        ) {
            None => Err(RouteError::Unreachable),
            Some(p) => if fits(q.nodes, q.amount_msat, p) {
                Ok(hops_of(q.nodes, q.amount_msat, p))
            } else {
                Err(RouteError::Unrepresentable)
            },
        }
    }
}

/// The digraph of a graph whose channels all lead to nodes of the graph
/// is well formed.
pub proof fn lemma_adjacency_well_formed<C: EdgeCost>(nodes: Seq<NodeView>, amount: u64, policy: C)
    requires
        closed(nodes),
        nodes.len() <= usize::MAX,
    ensures
        well_formed(adjacency_of(nodes, amount, policy)),
{
    let g = adjacency_of(nodes, amount, policy);
    assert forall|a: int, k: int| 0 <= a < g.len() && 0 <= k < g[a].len() implies (#[trigger] g[a][k]).to
        < g.len() by {
        assert(has_node(nodes, far_end(nodes, a, k)));
        assert(is_node_at(nodes, far_end(nodes, a, k), node_index(nodes, far_end(nodes, a, k))));
        assert(g[a][k] == edge_at(nodes, amount, policy, a, k));
    }
}

/// The route that a search answers with runs along a cheapest walk from
/// the source to the destination: no walk between the two has a smaller
/// total cost. Where the search answers `Unreachable`, no walk leads from
/// the source to the destination at a cost that the amount leaves room
/// for.
pub proof fn lemma_search_answer_is_cheapest<C: EdgeCost>(q: Query, policy: C)
    requires
        q.holdable(),
    ensures
        search_answer(q, policy) matches Ok(hops) ==> is_best_route(q, policy, hops) && hops.len()
            > 0,
        search_answer(q, policy) == Err::<Seq<RouteHopView>, RouteError>(RouteError::Unreachable)
            ==> searchable(q) && !reachable(q, policy),
        searchable(q) && !reachable(q, policy) ==> search_answer(q, policy) == Err::<
            Seq<RouteHopView>,
            RouteError,
        >(RouteError::Unreachable),
{
    if searchable(q) {
        let s = node_index(q.nodes, q.src);
        let d = node_index(q.nodes, q.dst);
        let g = adjacency_of(q.nodes, q.amount_msat, policy);
        let budget = budget_for(q.amount_msat);
        assert(is_node_at(q.nodes, q.src, s));
        assert(is_node_at(q.nodes, q.dst, d));
        lemma_adjacency_well_formed(q.nodes, q.amount_msat, policy);
        assert forall|u: int| 0 <= u < g.len() implies (#[trigger] g[u]).len() <= usize::MAX by {
            assert(q.nodes[u].channels.len() <= usize::MAX);
        }
        crate::search::lemma_search_result(g, s, d, budget);
        match search_result(g, s, d, budget) {
            Some(p) => {
                assert(is_walk(g, p, s, d));
                assert(reachable(q, policy));
                if p.len() == 0 {
                    assert(q.nodes[s].id == q.nodes[d].id);
                }
            },
            None => {
                if reachable(q, policy) {
                    let p = choose|p: Seq<Step>|
                        {
                            &&& #[trigger] is_walk(g, p, s, d)
                            &&& q.amount_msat + cost(g, p) <= u64::MAX
                        };
                    assert(cost(g, p) > budget);
                }
            },
        }
    }
}

/// In the route that a search answers with, the amounts never grow from
/// hop to hop, the first hop forwards at least the amount asked for, and
/// the last hop forwards exactly that amount.
pub proof fn lemma_route_amounts_fall<C: EdgeCost>(q: Query, policy: C)
    requires
        q.holdable(),
    ensures
        search_answer(q, policy) matches Ok(hops) ==> {
            &&& hops.len() > 0
            &&& hops[0].amount_msat >= q.amount_msat
            &&& hops.last().amount_msat == q.amount_msat
            &&& forall|i: int, j: int|
                0 <= i <= j < hops.len() ==> (#[trigger] hops[i]).amount_msat >= (
                #[trigger] hops[j]).amount_msat
        },
{
    lemma_search_answer_is_cheapest(q, policy);
    if search_answer(q, policy) is Ok {
        let p = search_result(
            adjacency_of(q.nodes, q.amount_msat, policy),
            node_index(q.nodes, q.src),
            node_index(q.nodes, q.dst),
            budget_for(q.amount_msat),
        ).unwrap();
        lemma_amounts_fall(q.nodes, q.amount_msat, p);
    }
}

/// In the route that a search answers with, the delays never grow from
/// hop to hop, and the last hop asks for the least final delay.
pub proof fn lemma_route_delays_fall<C: EdgeCost>(q: Query, policy: C)
    requires
        q.holdable(),
    ensures
        search_answer(q, policy) matches Ok(hops) ==> {
            &&& hops.len() > 0
            &&& hops.last().delay == MIN_FINAL_DELAY
            &&& forall|i: int, j: int|
                0 <= i <= j < hops.len() ==> (#[trigger] hops[i]).delay >= (#[trigger] hops[j]).delay
        },
{
    lemma_search_answer_is_cheapest(q, policy);
    if search_answer(q, policy) is Ok {
        let p = search_result(
            adjacency_of(q.nodes, q.amount_msat, policy),
            node_index(q.nodes, q.src),
            node_index(q.nodes, q.dst),
            budget_for(q.amount_msat),
        ).unwrap();
        lemma_delays_fall(q.nodes, q.amount_msat, p);
    }
}

/// The route of least total cost under `policy`. A request that can be
/// searched is answered with a route along a cheapest walk, with
/// `Unreachable` where no walk leads to the destination, or with
/// `Unrepresentable` where the walk found has totals too large for a hop.
pub fn route_by_search<G: NetworkGraph, C: EdgeCost>(input: &RouteInput<G>, policy: &C) -> (r:
    Result<RouteOutput, RouteError>)
    ensures
        outcome(r) == search_answer(input@, *policy),
        r matches Ok(out) ==> is_best_route(input@, *policy, out@) && out@.len() > 0,
        !searchable(input@) ==> r is Err && r != Err::<RouteOutput, RouteError>(
            RouteError::Unreachable,
        ),
        searchable(input@) ==> (r == Err::<RouteOutput, RouteError>(RouteError::Unreachable)
            <==> !reachable(input@, *policy)),
{
    match check_input(input) {
        Err(e) => {
            return Err(e);
        },
        Ok(_) => {},
    }
    let nodes = input.graph.get_nodes();
    let ghost views = node_ref_views(nodes@);
    let src = match find_node(&nodes, &input.src_pubkey) {
        Some(i) => i,
        None => {
            return Err(RouteError::SourceNotFound);
        },
    };
    let dst = match find_node(&nodes, &input.dest_pubkey) {
        Some(i) => i,
        None => {
            return Err(RouteError::DestinationNotFound);
        },
    };
    let adj = match build_adjacency(&nodes, input.amount_msat, policy) {
        Ok(adj) => adj,
        Err(e) => {
            return Err(e);
        },
    };
    let ghost g = adjacency_of(views, input.amount_msat, *policy);
    let budget = u64::MAX - input.amount_msat;
    match shortest_path(&adj, src, dst, budget) {
        None => {
            proof {
                assert(!reachable(input@, *policy)) by {
                    if reachable(input@, *policy) {
                        let p = choose|p: Seq<Step>|
                            {
                                &&& #[trigger] is_walk(g, p, src as int, dst as int)
                                &&& input.amount_msat + cost(g, p) <= u64::MAX
                            };
                        assert(cost(g, p) > budget);
                    }
                }
            }
            Err(RouteError::Unreachable)
        },
        Some(path) => {
            proof {
                lemma_walk_steps_in(
                    views,
                    input.amount_msat,
                    *policy,
                    path@,
                    src as int,
                    dst as int,
                );
                assert(is_walk(g, path@, src as int, dst as int));
                assert(reachable(input@, *policy));
                assert(path@.len() > 0) by {
                    if path@.len() == 0 {
                        assert(src == dst);
                        lemma_node_at_unique(views, input.src_pubkey@, src as int, dst as int);
                        assert(views[src as int].id == input.src_pubkey@);
                        assert(views[dst as int].id == input.dest_pubkey@);
                    }
                }
            }
            let r = materialize(&nodes, input.amount_msat, &path);
            proof {
                if r is Ok {
                    assert(is_cheapest_walk(g, path@, src as int, dst as int));
                }
            }
            r
        },
    }
}

/// The routing strategy that finds the route of least total fee with
/// Dijkstra's algorithm.
pub struct Dijkstra;

impl Dijkstra {
    pub fn new() -> Self {
        Dijkstra
    }
}

impl Default for Dijkstra {
    fn default() -> Self {
        Dijkstra::new()
    }
}

impl Strategy for Dijkstra {
    /// The strategy applies to every request.
    open spec fn applicable(&self, q: Query) -> Result<bool, RouteError> {
        Ok(true)
    }

    open spec fn answer(&self, q: Query) -> Result<Seq<RouteHopView>, RouteError> {
        search_answer(q, FeeOnly)
    }

    fn can_apply<G: NetworkGraph>(&self, input: &RouteInput<G>) -> (r: Result<bool, RouteError>) {
        Ok(true)
    }

    /// The route of least total fee. No route from the source to the
    /// destination has a smaller sum of fees than the one returned.
    fn route<G: NetworkGraph>(&self, input: &RouteInput<G>) -> (r: Result<RouteOutput, RouteError>)
        ensures
            r matches Ok(out) ==> is_best_route(input@, FeeOnly, out@) && out@.len() > 0,
            !searchable(input@) ==> r is Err && r != Err::<RouteOutput, RouteError>(
                RouteError::Unreachable,
            ),
            searchable(input@) ==> (r == Err::<RouteOutput, RouteError>(RouteError::Unreachable)
                <==> !reachable(input@, FeeOnly)),
    {
        route_by_search(input, &FeeOnly)
    }
}

} // verus!
