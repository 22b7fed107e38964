//! The graph built from the gossip that a node has stored.

use crate::algorithms::dijkstra::closed;
use crate::graph::{
    channel_views, node_views, Channel, ChannelView, GossipChannelInfo, NetworkGraph, Node,
    NodeView,
};
use crate::methods::graph::{
    attach, channel_refs, channels_of, distinct_channels, distinct_nodes, lemma_listed_closed,
    listed, node_refs, nodes_of, position_of_channel, position_of_node, put_channel, put_node,
    with_channel, with_node,
};
use vstd::prelude::*;

verus! {

/// A graph filled from channel announcements, each channel listed once.
/// It carries the announcements.
pub struct P2PNetworkGraph {
    nodes: Vec<Node>,
    channels: Vec<Channel>,
}

impl P2PNetworkGraph {
    /// No two nodes and no two channels have the same name.
    pub open spec fn wf(&self) -> bool {
        distinct_nodes(self.nodes()) && distinct_channels(self.channels())
    }

    /// An empty graph.
    pub fn new() -> (r: Self)
        ensures
            r.nodes() == Seq::<NodeView>::empty(),
            r.channels() == Seq::<ChannelView>::empty(),
            r.wf(),
    {
        let r = P2PNetworkGraph { nodes: Vec::new(), channels: Vec::new() };
        proof {
            assert(r.nodes() =~= Seq::<NodeView>::empty());
            assert(r.channels() =~= Seq::<ChannelView>::empty());
        }
        r
    }

    /// Writes `node` into the graph, over the node of the same name if
    /// there is one.
    pub fn add_node(&mut self, node: Node)
        ensures
            final(self).nodes() == with_node(old(self).nodes(), node@),
            final(self).channels() == old(self).channels(),
            old(self).wf() ==> final(self).wf(),
    {
        put_node(&mut self.nodes, node);
    }

    /// Writes `channel` into the graph, over the channel of the same name
    /// if there is one, and adds it to the channels of both its ends,
    /// which become nodes of the graph where they are none yet.
    pub fn add_channel(&mut self, channel: Channel)
        ensures
            final(self).channels() == with_channel(old(self).channels(), channel@),
            final(self).nodes() == listed(old(self).nodes(), channel@),
            old(self).wf() ==> final(self).wf(),
            closed(old(self).nodes()) ==> closed(final(self).nodes()),
    {
        proof {
            if closed(node_views(self.nodes@)) {
                lemma_listed_closed(node_views(self.nodes@), channel@);
            }
        }
        attach(&mut self.nodes, &channel.node1, &channel);
        attach(&mut self.nodes, &channel.node2, &channel);
        put_channel(&mut self.channels, channel);
    }
}

impl Default for P2PNetworkGraph {
    /// An empty graph.
    fn default() -> (r: Self)
        ensures
            r.nodes() == Seq::<NodeView>::empty(),
            r.channels() == Seq::<ChannelView>::empty(),
            r.wf(),
    {
        P2PNetworkGraph::new()
    }
}

impl NetworkGraph for P2PNetworkGraph {
    closed spec fn nodes(&self) -> Seq<NodeView> {
        node_views(self.nodes@)
    }

    closed spec fn channels(&self) -> Seq<ChannelView> {
        channel_views(self.channels@)
    }

    open spec fn p2p_info(&self) -> bool {
        true
    }

    fn get_channels(&self) -> (r: Vec<&Channel>) {
        channel_refs(&self.channels)
    }

    fn get_nodes(&self) -> (r: Vec<&Node>) {
        node_refs(&self.nodes)
    }

    fn get_node(&self, id: &str) -> (r: Option<&Node>) {
        let key = id.to_owned();
        match position_of_node(&self.nodes, &key) {
            Some(i) => Some(&self.nodes[i]),
            None => None,
        }
    }

    fn get_channel(&self, id: &str) -> (r: Option<&Channel>) {
        let key = id.to_owned();
        match position_of_channel(&self.channels, &key) {
            Some(i) => Some(&self.channels[i]),
            None => None,
        }
    }

    fn has_p2p_info(&self) -> (r: bool) {
        true
    }
}

/// The channels that the records stand for; `None` where one of them
/// states no amount.
pub open spec fn gossip_channels(records: Seq<GossipChannelInfo>) -> Option<Seq<ChannelView>>
    decreases records.len(),
{
    if records.len() == 0 {
        Some(Seq::empty())
    } else {
        match (gossip_channels(records.drop_last()), records.last().channel()) {
            (Some(before), Some(channel)) => Some(before.push(channel)),
            _ => None,
        }
    }
}

/// The graph of the channels in a node's gossip store, added one after
/// the other; `None` where the store does not know the amount behind one
/// of them.
pub fn build_p2p_network_graph(records: &Vec<GossipChannelInfo>) -> (r: Option<P2PNetworkGraph>)
    ensures
        match gossip_channels(records@) {
            Some(channels) => r matches Some(graph) && graph.nodes() == nodes_of(channels)
                && graph.channels() == channels_of(channels) && graph.wf() && closed(
                graph.nodes(),
            ),
            None => r is None,
        },
{
    let mut graph = P2PNetworkGraph::new();
    let mut i: usize = 0;
    let ghost mut seen: Seq<ChannelView> = Seq::empty();
    proof {
        assert(records@.take(0) =~= Seq::<GossipChannelInfo>::empty());
        assert(graph.nodes() =~= nodes_of(seen));
        assert(graph.channels() =~= channels_of(seen));
    }
    while i < records.len()
        invariant
            i <= records.len(),
            graph.wf(),
            closed(graph.nodes()),
            gossip_channels(records@.take(i as int)) == Some(seen),
            graph.nodes() == nodes_of(seen),
            graph.channels() == channels_of(seen),
        decreases records.len() - i,
    {
        proof {
            assert(records@.take(i + 1).drop_last() =~= records@.take(i as int));
            assert(records@.take(i + 1).last() == records@[i as int]);
        }
        match Channel::from_gossip(&records[i]) {
            Some(channel) => {
                proof {
                    assert(seen.push(channel@).drop_last() =~= seen);
                    seen = seen.push(channel@);
                }
                graph.add_channel(channel);
            },
            None => {
                proof {
                    lemma_gossip_channels_prefix(records@, i + 1);
                }
                return None;
            },
        }
        i = i + 1;
    }
    proof {
        assert(records@.take(records.len() as int) =~= records@);
    }
    Some(graph)
}

/// Records that stand for channels do so from the first on.
pub proof fn lemma_gossip_channels_prefix(records: Seq<GossipChannelInfo>, n: int)
    requires
        0 <= n <= records.len(),
        gossip_channels(records.take(n)) is None,
    ensures
        gossip_channels(records) is None,
    decreases records.len() - n,
{
    if n < records.len() {
        assert(records.take(n + 1).drop_last() =~= records.take(n));
        lemma_gossip_channels_prefix(records, n + 1);
    } else {
        assert(records.take(n) =~= records);
    }
}

} // verus!
