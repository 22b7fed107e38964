//! Graphs that are filled node by node and channel by channel.

pub mod cln;
pub mod p2p;

use crate::graph::{
    channel_ref_views, channel_views, has_channel, has_node, is_channel_at, is_node_at,
    lemma_channel_at_unique, lemma_node_at_unique, node_index, channel_index, node_ref_views,
    node_views, Channel, ChannelView, Node, NodeView,
};
use crate::algorithms::dijkstra::{closed, far_end};
use vstd::prelude::*;

verus! {

/// No two nodes have the same name.
pub open spec fn distinct_nodes(nodes: Seq<NodeView>) -> bool {
    forall|i: int, j: int|
        0 <= i < j < nodes.len() ==> (#[trigger] nodes[i]).id != (#[trigger] nodes[j]).id
}

/// No two channels have the same name.
pub open spec fn distinct_channels(channels: Seq<ChannelView>) -> bool {
    forall|i: int, j: int|
        0 <= i < j < channels.len() ==> (#[trigger] channels[i]).id != (#[trigger] channels[j]).id
}

/// `nodes` with `node` written: in the place of the node of the same
/// name, or at the end where there is none.
pub open spec fn with_node(nodes: Seq<NodeView>, node: NodeView) -> Seq<NodeView> {
    if has_node(nodes, node.id) {
        nodes.update(node_index(nodes, node.id), node)
    } else {
        nodes.push(node)
    }
}

/// `channels` with `channel` written: in the place of the channel of the
/// same name, or at the end where there is none.
pub open spec fn with_channel(channels: Seq<ChannelView>, channel: ChannelView) -> Seq<
    ChannelView,
> {
    if has_channel(channels, channel.id) {
        channels.update(channel_index(channels, channel.id), channel)
    } else {
        channels.push(channel)
    }
}

/// A node that is known by its name alone.
pub open spec fn bare_node(id: Seq<char>) -> NodeView {
    NodeView { id, alias: None, channels: Seq::empty() }
}

/// `nodes` with a node called `id`: as they are where they hold one,
/// else with a bare node added at the end.
pub open spec fn with_known(nodes: Seq<NodeView>, id: Seq<char>) -> Seq<NodeView> {
    if has_node(nodes, id) {
        nodes
    } else {
        nodes.push(bare_node(id))
    }
}

/// `nodes` with `channel` added to the channels of the node called
/// `id`, which is created where it is missing.
pub open spec fn attached(nodes: Seq<NodeView>, id: Seq<char>, channel: ChannelView) -> Seq<
    NodeView,
> {
    let known = with_known(nodes, id);
    let i = node_index(known, id);
    known.update(i, NodeView { channels: known[i].channels.push(channel), ..known[i] })
}

/// The first place in `nodes` that holds a node called `id`.
pub fn position_of_node(nodes: &Vec<Node>, id: &String) -> (r: Option<usize>)
    ensures
        match r {
            Some(i) => is_node_at(node_views(nodes@), id@, i as int) && i == node_index(
                node_views(nodes@),
                id@,
            ),
            None => !has_node(node_views(nodes@), id@),
        },
{
    let ghost views = node_views(nodes@);
    let mut i: usize = 0;
    while i < nodes.len()
        invariant
            i <= nodes.len(),
            views == node_views(nodes@),
            forall|j: int| 0 <= j < i ==> (#[trigger] views[j]).id != id@,
        decreases nodes.len() - i,
    {
        if nodes[i].id == *id {
            proof {
                assert(is_node_at(views, id@, i as int));
                lemma_node_at_unique(views, id@, i as int, node_index(views, id@));
            }
            return Some(i);
        }
        i = i + 1;
    }
    proof {
        assert forall|k: int| !is_node_at(views, id@, k) by {
            if is_node_at(views, id@, k) {
                assert(views[k].id != id@);
            }
        }
    }
    None
}

/// The first place in `channels` that holds a channel called `id`.
pub fn position_of_channel(channels: &Vec<Channel>, id: &String) -> (r: Option<usize>)
    ensures
        match r {
            Some(i) => is_channel_at(channel_views(channels@), id@, i as int) && i
                == channel_index(channel_views(channels@), id@),
            None => !has_channel(channel_views(channels@), id@),
        },
{
    let ghost views = channel_views(channels@);
    let mut i: usize = 0;
    while i < channels.len()
        invariant
            i <= channels.len(),
            views == channel_views(channels@),
            forall|j: int| 0 <= j < i ==> (#[trigger] views[j]).id != id@,
        decreases channels.len() - i,
    {
        if channels[i].id == *id {
            proof {
                assert(is_channel_at(views, id@, i as int));
                lemma_channel_at_unique(views, id@, i as int, channel_index(views, id@));
            }
            return Some(i);
        }
        i = i + 1;
    }
    proof {
        assert forall|k: int| !is_channel_at(views, id@, k) by {
            if is_channel_at(views, id@, k) {
                assert(views[k].id != id@);
            }
        }
    }
    None
}

/// Writes `node` into `nodes`: over the node of the same name, or at the
/// end where there is none.
pub fn put_node(nodes: &mut Vec<Node>, node: Node)
    ensures
        node_views(final(nodes)@) == with_node(node_views(old(nodes)@), node@),
        distinct_nodes(node_views(old(nodes)@)) ==> distinct_nodes(node_views(final(nodes)@)),
{
    let ghost before = node_views(nodes@);
    match position_of_node(nodes, &node.id) {
        Some(i) => {
            nodes.set(i, node);
            proof {
                assert(node_views(nodes@) =~= before.update(i as int, node@));
            }
        },
        None => {
            nodes.push(node);
            proof {
                assert(node_views(nodes@) =~= before.push(node@));
                if distinct_nodes(before) {
                    assert forall|a: int, b: int| 0 <= a < b < before.len() + 1 implies (
                    #[trigger] before.push(node@)[a]).id != (#[trigger] before.push(node@)[b]).id by {
                        if b == before.len() {
                            if before[a].id == node@.id {
                                lemma_has_node(before, node@.id, a);
                            }
                        }
                    }
                }
            }
        },
    }
}

/// Where some node is called `id`, a first one is.
pub proof fn lemma_has_node(nodes: Seq<NodeView>, id: Seq<char>, a: int)
    requires
        0 <= a < nodes.len(),
        nodes[a].id == id,
    ensures
        has_node(nodes, id),
        node_index(nodes, id) <= a,
    decreases a,
{
    if exists|j: int| 0 <= j < a && (#[trigger] nodes[j]).id == id {
        let j = choose|j: int| 0 <= j < a && (#[trigger] nodes[j]).id == id;
        lemma_has_node(nodes, id, j);
    } else {
        assert(is_node_at(nodes, id, a));
        lemma_node_at_unique(nodes, id, a, node_index(nodes, id));
    }
}

/// Where some channel is called `id`, a first one is.
pub proof fn lemma_has_channel(channels: Seq<ChannelView>, id: Seq<char>, a: int)
    requires
        0 <= a < channels.len(),
        channels[a].id == id,
    ensures
        has_channel(channels, id),
        channel_index(channels, id) <= a,
    decreases a,
{
    if exists|j: int| 0 <= j < a && (#[trigger] channels[j]).id == id {
        let j = choose|j: int| 0 <= j < a && (#[trigger] channels[j]).id == id;
        lemma_has_channel(channels, id, j);
    } else {
        assert(is_channel_at(channels, id, a));
        lemma_channel_at_unique(channels, id, a, channel_index(channels, id));
    }
}

/// Writes `channel` into `channels`: over the channel of the same name,
/// or at the end where there is none.
pub fn put_channel(channels: &mut Vec<Channel>, channel: Channel)
    ensures
        channel_views(final(channels)@) == with_channel(channel_views(old(channels)@), channel@),
        distinct_channels(channel_views(old(channels)@)) ==> distinct_channels(
            channel_views(final(channels)@),
        ),
{
    let ghost before = channel_views(channels@);
    match position_of_channel(channels, &channel.id) {
        Some(i) => {
            channels.set(i, channel);
            proof {
                assert(channel_views(channels@) =~= before.update(i as int, channel@));
            }
        },
        None => {
            channels.push(channel);
            proof {
                assert(channel_views(channels@) =~= before.push(channel@));
                if distinct_channels(before) {
                    assert forall|a: int, b: int| 0 <= a < b < before.len() + 1 implies (
                    #[trigger] before.push(channel@)[a]).id != (#[trigger] before.push(
                        channel@,
                    )[b]).id by {
                        if b == before.len() {
                            if before[a].id == channel@.id {
                                lemma_has_channel(before, channel@.id, a);
                            }
                        }
                    }
                }
            }
        },
    }
}

/// Makes sure that `nodes` holds a node called `id`.
pub fn make_known(nodes: &mut Vec<Node>, id: &String)
    ensures
        node_views(final(nodes)@) == with_known(node_views(old(nodes)@), id@),
        distinct_nodes(node_views(old(nodes)@)) ==> distinct_nodes(node_views(final(nodes)@)),
{
    let ghost before = node_views(nodes@);
    match position_of_node(nodes, id) {
        Some(_) => {},
        None => {
            let node = Node::new(id.as_str());
            nodes.push(node);
            proof {
                assert(node_views(nodes@) =~= before.push(bare_node(id@)));
                if distinct_nodes(before) {
                    assert forall|a: int, b: int| 0 <= a < b < before.len() + 1 implies (
                    #[trigger] before.push(bare_node(id@))[a]).id != (#[trigger] before.push(
                        bare_node(id@),
                    )[b]).id by {
                        if b == before.len() {
                            if before[a].id == id@ {
                                lemma_has_node(before, id@, a);
                            }
                        }
                    }
                }
            }
        },
    }
}

/// Adds `channel` to the channels of the node called `id`, which is
/// created where it is missing.
pub fn attach(nodes: &mut Vec<Node>, id: &String, channel: &Channel)
    ensures
        node_views(final(nodes)@) == attached(node_views(old(nodes)@), id@, channel@),
        distinct_nodes(node_views(old(nodes)@)) ==> distinct_nodes(node_views(final(nodes)@)),
{
    let ghost before = node_views(nodes@);
    make_known(nodes, id);
    let ghost known = node_views(nodes@);
    proof {
        if !has_node(before, id@) {
            lemma_has_node(known, id@, before.len() as int);
        }
    }
    match position_of_node(nodes, id) {
        Some(i) => {
            let mut node = nodes[i].clone();
            node.add_channel(channel);
            nodes.set(i, node);
            proof {
                assert(node_views(nodes@) =~= known.update(
                    i as int,
                    NodeView {
                        channels: known[i as int].channels.push(channel@),
                        ..known[i as int]
                    },
                ));
            }
        },
        None => {},
    }
}

/// References to all of `nodes`, in their order.
pub fn node_refs(nodes: &Vec<Node>) -> (r: Vec<&Node>)
    ensures
        node_ref_views(r@) == node_views(nodes@),
{
    let mut out: Vec<&Node> = Vec::new();
    let mut i: usize = 0;
    while i < nodes.len()
        invariant
            i <= nodes.len(),
            out.len() == i,
            forall|j: int| 0 <= j < i ==> (#[trigger] out@[j])@ == nodes@[j]@,
        decreases nodes.len() - i,
    {
        out.push(&nodes[i]);
        i = i + 1;
    }
    proof {
        assert(node_ref_views(out@) =~= node_views(nodes@));
    }
    out
}

/// References to all of `channels`, in their order.
pub fn channel_refs(channels: &Vec<Channel>) -> (r: Vec<&Channel>)
    ensures
        channel_ref_views(r@) == channel_views(channels@),
{
    let mut out: Vec<&Channel> = Vec::new();
    let mut i: usize = 0;
    while i < channels.len()
        invariant
            i <= channels.len(),
            out.len() == i,
            forall|j: int| 0 <= j < i ==> (#[trigger] out@[j])@ == channels@[j]@,
        decreases channels.len() - i,
    {
        out.push(&channels[i]);
        i = i + 1;
    }
    proof {
        assert(channel_ref_views(out@) =~= channel_views(channels@));
    }
    out
}

/// `after` holds the nodes of `before` under their names, in their
/// places, and maybe more behind them.
pub open spec fn extends(before: Seq<NodeView>, after: Seq<NodeView>) -> bool {
    &&& before.len() <= after.len()
    &&& forall|j: int| 0 <= j < before.len() ==> (#[trigger] after[j]).id == before[j].id
}

/// A node that is known stays known when nodes are added behind.
pub proof fn lemma_extends_keeps_known(before: Seq<NodeView>, after: Seq<NodeView>, id: Seq<char>)
    requires
        extends(before, after),
        has_node(before, id),
    ensures
        has_node(after, id),
{
    let i = node_index(before, id);
    assert(is_node_at(before, id, i));
    assert(after[i].id == id);
    lemma_has_node(after, id, i);
}

/// After `channel` has been added at the node called `id`, every node
/// that was known is known, and so is the node called `id`.
pub proof fn lemma_attached_extends(nodes: Seq<NodeView>, id: Seq<char>, channel: ChannelView)
    ensures
        extends(nodes, attached(nodes, id, channel)),
        extends(nodes, with_known(nodes, id)),
        extends(with_known(nodes, id), attached(nodes, id, channel)),
        has_node(with_known(nodes, id), id),
        has_node(attached(nodes, id, channel), id),
        attached(nodes, id, channel).len() == with_known(nodes, id).len(),
{
    let known = with_known(nodes, id);
    if !has_node(nodes, id) {
        lemma_has_node(known, id, nodes.len() as int);
    }
    let i = node_index(known, id);
    assert(is_node_at(known, id, i));
    let after = attached(nodes, id, channel);
    assert(after[i].id == id);
    lemma_has_node(after, id, i);
}

/// Every channel of `nodes` leads to a node that `world` holds.
pub open spec fn closed_in(nodes: Seq<NodeView>, world: Seq<NodeView>) -> bool {
    forall|u: int, k: int|
        0 <= u < nodes.len() && 0 <= k < nodes[u].channels.len() ==> has_node(
            world,
            #[trigger] far_end(nodes, u, k),
        )
}

/// A closed graph stays closed in a graph that extends it.
pub proof fn lemma_closed_in_larger(nodes: Seq<NodeView>, world: Seq<NodeView>)
    requires
        closed(nodes),
        extends(nodes, world),
    ensures
        closed_in(nodes, world),
{
    assert forall|u: int, k: int|
        0 <= u < nodes.len() && 0 <= k < nodes[u].channels.len() implies has_node(
        world,
        #[trigger] far_end(nodes, u, k),
    ) by {
        lemma_extends_keeps_known(nodes, world, far_end(nodes, u, k));
    }
}

/// Making a node known keeps the channels within `world`.
pub proof fn lemma_known_closed_in(nodes: Seq<NodeView>, id: Seq<char>, world: Seq<NodeView>)
    requires
        closed_in(nodes, world),
    ensures
        closed_in(with_known(nodes, id), world),
{
    let known = with_known(nodes, id);
    assert forall|u: int, k: int|
        0 <= u < known.len() && 0 <= k < known[u].channels.len() implies has_node(
        world,
        #[trigger] far_end(known, u, k),
    ) by {
        assert(u < nodes.len()) by {
            if u >= nodes.len() {
                assert(known[u] == bare_node(id));
            }
        }
        assert(far_end(known, u, k) == far_end(nodes, u, k));
    }
}

/// Adding a channel at a node keeps the channels within `world`, if
/// `world` holds the node that the channel leads to from there.
pub proof fn lemma_attached_closed_in(
    nodes: Seq<NodeView>,
    id: Seq<char>,
    channel: ChannelView,
    world: Seq<NodeView>,
)
    requires
        closed_in(nodes, world),
        has_node(world, channel.other_end(id)),
    ensures
        closed_in(attached(nodes, id, channel), world),
{
    let known = with_known(nodes, id);
    let after = attached(nodes, id, channel);
    lemma_attached_extends(nodes, id, channel);
    lemma_known_closed_in(nodes, id, world);
    let i = node_index(known, id);
    assert(is_node_at(known, id, i));
    assert forall|u: int, k: int|
        0 <= u < after.len() && 0 <= k < after[u].channels.len() implies has_node(
        world,
        #[trigger] far_end(after, u, k),
    ) by {
        if u == i && k == known[i].channels.len() {
            assert(far_end(after, u, k) == channel.other_end(id));
        } else {
            assert(far_end(after, u, k) == far_end(known, u, k));
        }
    }
}

/// What extends an extension extends the graph itself.
pub proof fn lemma_extends_twice(a: Seq<NodeView>, b: Seq<NodeView>, c: Seq<NodeView>)
    requires
        extends(a, b),
        extends(b, c),
    ensures
        extends(a, c),
{
    assert forall|j: int| 0 <= j < a.len() implies (#[trigger] c[j]).id == a[j].id by {
        assert(b[j].id == a[j].id);
    }
}

/// `nodes` with `channel` listed at both its ends, which are created
/// where they are missing. A channel between a node and itself is listed
/// twice at that node.
pub open spec fn listed(nodes: Seq<NodeView>, channel: ChannelView) -> Seq<NodeView> {
    attached(attached(nodes, channel.node1, channel), channel.node2, channel)
}

/// A node keeps its place when nodes are added behind.
pub proof fn lemma_extends_keeps_place(before: Seq<NodeView>, after: Seq<NodeView>, id: Seq<char>)
    requires
        extends(before, after),
        has_node(before, id),
    ensures
        has_node(after, id),
        node_index(after, id) == node_index(before, id),
{
    let i = node_index(before, id);
    assert(is_node_at(before, id, i));
    assert forall|j: int| 0 <= j < i implies (#[trigger] after[j]).id != id by {
        assert(before[j].id != id);
    }
    assert(is_node_at(after, id, i));
    lemma_node_at_unique(after, id, i, node_index(after, id));
}

/// After a channel has been listed, both its ends are nodes of the graph
/// and each of them has the channel among its channels.
pub proof fn lemma_listed_at_both_ends(nodes: Seq<NodeView>, channel: ChannelView)
    ensures
        has_node(listed(nodes, channel), channel.node1),
        has_node(listed(nodes, channel), channel.node2),
        listed(nodes, channel)[node_index(listed(nodes, channel), channel.node1)].channels.contains(
            channel,
        ),
        listed(nodes, channel)[node_index(listed(nodes, channel), channel.node2)].channels.contains(
            channel,
        ),
{
    let mid = attached(nodes, channel.node1, channel);
    let after = listed(nodes, channel);
    let known1 = with_known(nodes, channel.node1);
    let known2 = with_known(mid, channel.node2);
    lemma_attached_extends(nodes, channel.node1, channel);
    lemma_attached_extends(mid, channel.node2, channel);
    // the first end, as the first listing left it
    lemma_extends_keeps_place(known1, mid, channel.node1);
    let i1 = node_index(mid, channel.node1);
    assert(is_node_at(known1, channel.node1, i1));
    assert(mid[i1].channels == known1[i1].channels.push(channel));
    assert(mid[i1].channels[known1[i1].channels.len() as int] == channel);
    // the second end, as the second listing left it
    lemma_extends_keeps_place(known2, after, channel.node2);
    let i2 = node_index(after, channel.node2);
    assert(is_node_at(known2, channel.node2, i2));
    assert(after[i2].channels == known2[i2].channels.push(channel));
    assert(after[i2].channels[known2[i2].channels.len() as int] == channel);
    // the first end after the second listing
    lemma_extends_keeps_place(mid, known2, channel.node1);
    lemma_extends_keeps_place(known2, after, channel.node1);
    assert(node_index(after, channel.node1) == i1);
    if i1 == i2 {
    } else {
        assert(after[i1] == known2[i1]);
        assert(known2[i1] == mid[i1]);
        assert(after[i1].channels[known1[i1].channels.len() as int] == channel);
    }
}

/// Listing a channel at both its ends keeps a closed graph closed.
pub proof fn lemma_listed_closed(nodes: Seq<NodeView>, channel: ChannelView)
    requires
        closed(nodes),
    ensures
        closed(listed(nodes, channel)),
{
    let mid = attached(nodes, channel.node1, channel);
    let after = listed(nodes, channel);
    lemma_attached_extends(nodes, channel.node1, channel);
    lemma_attached_extends(mid, channel.node2, channel);
    lemma_extends_twice(nodes, mid, after);
    lemma_closed_in_larger(nodes, after);
    lemma_extends_keeps_known(mid, after, channel.node1);
    assert(channel.other_end(channel.node1) == channel.node2);
    lemma_attached_closed_in(nodes, channel.node1, channel, after);
    lemma_attached_closed_in(mid, channel.node2, channel, after);
}

/// The nodes of the graph in which `channels` have been listed one after
/// the other.
pub open spec fn nodes_of(channels: Seq<ChannelView>) -> Seq<NodeView>
    decreases channels.len(),
{
    if channels.len() == 0 {
        Seq::empty()
    } else {
        listed(nodes_of(channels.drop_last()), channels.last())
    }
}

/// The channels of the graph into which `channels` have been written one
/// after the other.
pub open spec fn channels_of(channels: Seq<ChannelView>) -> Seq<ChannelView>
    decreases channels.len(),
{
    if channels.len() == 0 {
        Seq::empty()
    } else {
        with_channel(channels_of(channels.drop_last()), channels.last())
    }
}

} // verus!
