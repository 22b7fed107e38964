//! The graph built from a node's list of channels.

use crate::algorithms::dijkstra::closed;
use crate::graph::{
    channel_views, node_views, Channel, ChannelView, NetworkGraph, Node, NodeView,
};
use crate::methods::graph::{
    attach, channel_refs, channels_of, distinct_channels, distinct_nodes, lemma_listed_closed,
    listed, node_refs, nodes_of, position_of_channel, position_of_node, put_channel, put_node,
    with_channel, with_node,
};
use vstd::prelude::*;

verus! {

/// A graph filled from the channels that a node lists. It carries no
/// announcements.
pub struct CLNNetworkGraph {
    nodes: Vec<Node>,
    channels: Vec<Channel>,
}

impl CLNNetworkGraph {
    /// No two nodes and no two channels have the same name.
    pub open spec fn wf(&self) -> bool {
        distinct_nodes(self.nodes()) && distinct_channels(self.channels())
    }

    /// An empty graph.
    pub fn new() -> (r: Self)
        ensures
            r.nodes() == Seq::<NodeView>::empty(),
            r.channels() == Seq::<ChannelView>::empty(),
            r.wf(),
    {
        let r = CLNNetworkGraph { nodes: Vec::new(), channels: Vec::new() };
        proof {
            assert(r.nodes() =~= Seq::<NodeView>::empty());
            assert(r.channels() =~= Seq::<ChannelView>::empty());
        }
        r
    }

    /// Writes `node` into the graph, over the node of the same name if
    /// there is one.
    pub fn add_node(&mut self, node: Node)
        ensures
            final(self).nodes() == with_node(old(self).nodes(), node@),
            final(self).channels() == old(self).channels(),
            old(self).wf() ==> final(self).wf(),
    {
        put_node(&mut self.nodes, node);
    }

    /// Writes `channel` into the graph, over the channel of the same name
    /// if there is one, and adds it to the channels of both its ends,
    /// which become nodes of the graph where they are none yet. A channel
    /// that is added once for each of its directions stands twice in the
    /// list of each end.
    pub fn add_channel(&mut self, channel: Channel)
        ensures
            final(self).channels() == with_channel(old(self).channels(), channel@),
            final(self).nodes() == listed(old(self).nodes(), channel@),
            old(self).wf() ==> final(self).wf(),
            closed(old(self).nodes()) ==> closed(final(self).nodes()),
    {
        proof {
            if closed(node_views(self.nodes@)) {
                lemma_listed_closed(node_views(self.nodes@), channel@);
            }
        }
        attach(&mut self.nodes, &channel.node1, &channel);
        attach(&mut self.nodes, &channel.node2, &channel);
        put_channel(&mut self.channels, channel);
    }
}

impl Default for CLNNetworkGraph {
    /// An empty graph.
    fn default() -> (r: Self)
        ensures
            r.nodes() == Seq::<NodeView>::empty(),
            r.channels() == Seq::<ChannelView>::empty(),
            r.wf(),
    {
        CLNNetworkGraph::new()
    }
}

impl NetworkGraph for CLNNetworkGraph {
    closed spec fn nodes(&self) -> Seq<NodeView> {
        node_views(self.nodes@)
    }

    closed spec fn channels(&self) -> Seq<ChannelView> {
        channel_views(self.channels@)
    }

    open spec fn p2p_info(&self) -> bool {
        false
    }

    fn get_channels(&self) -> (r: Vec<&Channel>) {
        channel_refs(&self.channels)
    }

    fn get_nodes(&self) -> (r: Vec<&Node>) {
        node_refs(&self.nodes)
    }

    fn get_node(&self, id: &str) -> (r: Option<&Node>) {
        let key = id.to_owned();
        match position_of_node(&self.nodes, &key) {
            Some(i) => Some(&self.nodes[i]),
            None => None,
        }
    }

    fn get_channel(&self, id: &str) -> (r: Option<&Channel>) {
        let key = id.to_owned();
        match position_of_channel(&self.channels, &key) {
            Some(i) => Some(&self.channels[i]),
            None => None,
        }
    }

    fn has_p2p_info(&self) -> (r: bool) {
        false
    }
}

/// The graph of the channels that a node lists, added one after the
/// other.
pub fn build_cln_network_graph(channels: &Vec<Channel>) -> (r: CLNNetworkGraph)
    ensures
        r.nodes() == nodes_of(channel_views(channels@)),
        r.channels() == channels_of(channel_views(channels@)),
        r.wf(),
        closed(r.nodes()),
{
    let ghost views = channel_views(channels@);
    let mut graph = CLNNetworkGraph::new();
    let mut i: usize = 0;
    proof {
        assert(graph.nodes() =~= nodes_of(views.take(0)));
        assert(graph.channels() =~= channels_of(views.take(0)));
    }
    while i < channels.len()
        invariant
            i <= channels.len(),
            views == channel_views(channels@),
            graph.wf(),
            closed(graph.nodes()),
            graph.nodes() == nodes_of(views.take(i as int)),
            graph.channels() == channels_of(views.take(i as int)),
        decreases channels.len() - i,
    {
        proof {
            assert(views.take(i + 1).drop_last() =~= views.take(i as int));
            assert(views.take(i + 1).last() == channels@[i as int]@);
        }
        graph.add_channel(channels[i].clone());
        i = i + 1;
    }
    proof {
        assert(views.take(channels.len() as int) =~= views);
    }
    graph
}

} // verus!
