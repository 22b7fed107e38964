//! The network graph: nodes, channels and the queries a routing strategy
//! may put to a graph.

use vstd::prelude::*;

verus! {

/// A channel between two nodes, with its capacity and its fee and delay
/// policy.
#[derive(Debug, PartialEq, Eq)]
pub struct Channel {
    pub id: String,
    pub node1: String,
    pub node2: String,
    pub capacity: u64,
    pub delay: u64,
    pub base_fee_millisatoshi: u64,
    pub fee_per_millionth: u64,
    /// The raw announcement of the channel, where the graph was built from
    /// gossip.
    pub channel_announcement: Option<Vec<u8>>,
}

/// What a channel holds, as plain values.
pub struct ChannelView {
    pub id: Seq<char>,
    pub node1: Seq<char>,
    pub node2: Seq<char>,
    pub capacity: u64,
    pub delay: u64,
    pub base_fee_millisatoshi: u64,
    pub fee_per_millionth: u64,
    pub channel_announcement: Option<Seq<u8>>,
}

impl View for Channel {
    type V = ChannelView;

    open spec fn view(&self) -> ChannelView {
        ChannelView {
            id: self.id@,
            node1: self.node1@,
            node2: self.node2@,
            capacity: self.capacity,
            delay: self.delay,
            base_fee_millisatoshi: self.base_fee_millisatoshi,
            fee_per_millionth: self.fee_per_millionth,
            channel_announcement: match self.channel_announcement {
                Some(bytes) => Some(bytes@),
                None => None,
            },
        }
    }
}

impl ChannelView {
    /// A channel joins two different nodes.
    pub open spec fn wf(self) -> bool {
        self.node1 != self.node2
    }

    /// The end of the channel that is not `from`. Seen from a node that is
    /// neither end, the channel leads to its first end.
    pub open spec fn other_end(self, from: Seq<char>) -> Seq<char> {
        if self.node1 == from {
            self.node2
        } else {
            self.node1
        }
    }
}

/// A copy of a byte vector.
pub fn copy_bytes(bytes: &Vec<u8>) -> (r: Vec<u8>)
    ensures
        r@ == bytes@,
{
    let mut out: Vec<u8> = Vec::new();
    let mut i: usize = 0;
    while i < bytes.len()
        invariant
            i <= bytes.len(),
            out@ == bytes@.take(i as int),
        decreases bytes.len() - i,
    {
        out.push(bytes[i]);
        proof {
            assert(bytes@.take(i as int).push(bytes@[i as int]) =~= bytes@.take(i + 1));
        }
        i = i + 1;
    }
    proof {
        assert(bytes@.take(bytes.len() as int) =~= bytes@);
    }
    out
}

impl Clone for Channel {
    fn clone(&self) -> (r: Self)
        ensures
            r@ == self@,
    {
        Channel {
            id: self.id.clone(),
            node1: self.node1.clone(),
            node2: self.node2.clone(),
            capacity: self.capacity,
            delay: self.delay,
            base_fee_millisatoshi: self.base_fee_millisatoshi,
            fee_per_millionth: self.fee_per_millionth,
            channel_announcement: match &self.channel_announcement {
                Some(bytes) => Some(copy_bytes(bytes)),
                None => None,
            },
        }
    }
}

impl Channel {
    /// A channel `id` between `node1` and `node2`, without an announcement.
    pub fn new(
        id: &str,
        node1: &str,
        node2: &str,
        capacity: u64,
        delay: u64,
        base_fee_millisatoshi: u64,
        fee_per_millionth: u64,
    ) -> (r: Self)
        ensures
            r@ == (ChannelView {
                id: id@,
                node1: node1@,
                node2: node2@,
                capacity,
                delay,
                base_fee_millisatoshi,
                fee_per_millionth,
                channel_announcement: None,
            }),
    {
        Channel {
            id: id.to_owned(),
            node1: node1.to_owned(),
            node2: node2.to_owned(),
            capacity,
            delay,
            base_fee_millisatoshi,
            fee_per_millionth,
            channel_announcement: None,
        }
    }

    /// Sets the capacity and leaves the rest as it was.
    pub fn set_capacity(&mut self, capacity: u64)
        ensures
            final(self)@ == (ChannelView { capacity, ..old(self)@ }),
    {
        self.capacity = capacity;
    }

    /// Whether the channel joins two different nodes.
    pub fn is_well_formed(&self) -> (r: bool)
        ensures
            r == self@.wf(),
    {
        !(self.node1 == self.node2)
    }
}

/// What a node's gossip store holds of a channel: the identifiers as
/// they stand in the channel's announcement, the amount behind the
/// channel if the store knows it, and the announcement on the wire.
#[derive(Debug, PartialEq, Eq)]
pub struct GossipChannelInfo {
    pub short_channel_id: Vec<u8>,
    pub node_id_1: Vec<u8>,
    pub node_id_2: Vec<u8>,
    pub satoshi: Option<u64>,
    pub announcement: Vec<u8>,
}

/// The hexadecimal digit for `d`, in lower case.
pub open spec fn hex_digit(d: int) -> char {
    "0123456789abcdef"@[d]
}

/// `bytes` in hexadecimal: two digits for each byte, the high half first.
pub open spec fn hex_of(bytes: Seq<u8>) -> Seq<char> {
    Seq::new(
        2 * bytes.len(),
        |i: int|
            hex_digit(
                if i % 2 == 0 {
                    bytes[i / 2] as int / 16
                } else {
                    bytes[i / 2] as int % 16
                },
            ),
    )
}

/// Calls `hex::encode`, which writes each byte as two lower-case
/// hexadecimal digits, the high half first.
#[verifier::external_body]
fn hex_encode(bytes: &Vec<u8>) -> (r: String)
    ensures
        r@ == hex_of(bytes@),
{
    hex::encode(bytes)
}

/// The channel that the gossip store's record stands for: identifiers in
/// hexadecimal, the amount as capacity, no fee and no delay, and the
/// announcement kept.
pub open spec fn gossip_channel(
    short_channel_id: Seq<u8>,
    node_id_1: Seq<u8>,
    node_id_2: Seq<u8>,
    satoshi: u64,
    announcement: Seq<u8>,
) -> ChannelView {
    ChannelView {
        id: hex_of(short_channel_id),
        node1: hex_of(node_id_1),
        node2: hex_of(node_id_2),
        capacity: satoshi,
        delay: 0,
        base_fee_millisatoshi: 0,
        fee_per_millionth: 0,
        channel_announcement: Some(announcement),
    }
}

impl GossipChannelInfo {
    /// The channel that the record stands for, where it states an amount.
    pub open spec fn channel(&self) -> Option<ChannelView> {
        match self.satoshi {
            Some(satoshi) => Some(
                gossip_channel(
                    self.short_channel_id@,
                    self.node_id_1@,
                    self.node_id_2@,
                    satoshi,
                    self.announcement@,
                ),
            ),
            None => None,
        }
    }
}

impl Channel {
    /// The channel for a record of the gossip store; `None` where the
    /// record states no amount.
    pub fn from_gossip(value: &GossipChannelInfo) -> (r: Option<Channel>)
        ensures
            match value.channel() {
                Some(view) => r matches Some(c) && c@ == view,
                None => r is None,
            },
    {
        let satoshi = match value.satoshi {
            Some(satoshi) => satoshi,
            None => {
                return None;
            },
        };
        let id = hex_encode(&value.short_channel_id);
        let node1 = hex_encode(&value.node_id_1);
        let node2 = hex_encode(&value.node_id_2);
        let mut channel = Channel::new(id.as_str(), node1.as_str(), node2.as_str(), satoshi, 0, 0, 0);
        channel.channel_announcement = Some(copy_bytes(&value.announcement));
        Some(channel)
    }
}

/// The views of a sequence of channels.
pub open spec fn channel_views(s: Seq<Channel>) -> Seq<ChannelView> {
    Seq::new(s.len(), |i: int| s[i]@)
}

/// A node of the graph with the channels that leave it.
#[derive(Debug, PartialEq, Eq)]
pub struct Node {
    pub id: String,
    pub alias: Option<String>,
    pub channels: Vec<Channel>,
}

/// What a node holds, as plain values.
pub struct NodeView {
    pub id: Seq<char>,
    pub alias: Option<Seq<char>>,
    pub channels: Seq<ChannelView>,
}

impl View for Node {
    type V = NodeView;

    open spec fn view(&self) -> NodeView {
        NodeView {
            id: self.id@,
            alias: match self.alias {
                Some(a) => Some(a@),
                None => None,
            },
            channels: channel_views(self.channels@),
        }
    }
}

/// A copy of a list of channels.
pub fn copy_channels(channels: &Vec<Channel>) -> (r: Vec<Channel>)
    ensures
        channel_views(r@) == channel_views(channels@),
{
    let mut out: Vec<Channel> = Vec::new();
    let mut i: usize = 0;
    while i < channels.len()
        invariant
            i <= channels.len(),
            out.len() == i,
            forall|j: int| 0 <= j < i ==> out@[j]@ == channels@[j]@,
        decreases channels.len() - i,
    {
        out.push(channels[i].clone());
        i = i + 1;
    }
    proof {
        assert(channel_views(out@) =~= channel_views(channels@));
    }
    out
}

impl Clone for Node {
    fn clone(&self) -> (r: Self)
        ensures
            r@ == self@,
    {
        Node {
            id: self.id.clone(),
            alias: match &self.alias {
                Some(a) => Some(a.clone()),
                None => None,
            },
            channels: copy_channels(&self.channels),
        }
    }
}

impl Node {
    /// A node without alias and without channels.
    pub fn new(id: &str) -> (r: Self)
        ensures
            r@ == (NodeView { id: id@, alias: None, channels: Seq::empty() }),
    {
        let r = Node { id: id.to_owned(), alias: None, channels: Vec::new() };
        proof {
            assert(channel_views(r.channels@) =~= Seq::<ChannelView>::empty());
        }
        r
    }

    /// Sets the alias and leaves the rest as it was.
    pub fn set_alias(&mut self, alias: &str)
        ensures
            final(self)@ == (NodeView { alias: Some(alias@), ..old(self)@ }),
    {
        self.alias = Some(alias.to_owned());
    }

    /// Adds a copy of `channel` after the node's channels.
    pub fn add_channel(&mut self, channel: &Channel)
        ensures
            final(self)@ == (NodeView {
                channels: old(self)@.channels.push(channel@),
                ..old(self)@
            }),
    {
        let ghost before = self.channels@;
        self.channels.push(channel.clone());
        proof {
            assert(channel_views(self.channels@) =~= channel_views(before).push(channel@));
        }
    }
}

/// The views of a sequence of nodes.
pub open spec fn node_views(s: Seq<Node>) -> Seq<NodeView> {
    Seq::new(s.len(), |i: int| s[i]@)
}

/// The views of what a sequence of references points to.
pub open spec fn node_ref_views(s: Seq<&Node>) -> Seq<NodeView> {
    Seq::new(s.len(), |i: int| s[i]@)
}

pub open spec fn channel_ref_views(s: Seq<&Channel>) -> Seq<ChannelView> {
    Seq::new(s.len(), |i: int| s[i]@)
}

/// `i` is the first place in `nodes` that holds a node called `id`.
pub open spec fn is_node_at(nodes: Seq<NodeView>, id: Seq<char>, i: int) -> bool {
    &&& 0 <= i < nodes.len()
    &&& nodes[i].id == id
    &&& forall|j: int| 0 <= j < i ==> (#[trigger] nodes[j]).id != id
}

pub open spec fn has_node(nodes: Seq<NodeView>, id: Seq<char>) -> bool {
    exists|i: int| is_node_at(nodes, id, i)
}

/// The first place in `nodes` that holds a node called `id`.
pub open spec fn node_index(nodes: Seq<NodeView>, id: Seq<char>) -> int {
    choose|i: int| is_node_at(nodes, id, i)
}

/// `i` is the first place in `channels` that holds a channel called `id`.
pub open spec fn is_channel_at(channels: Seq<ChannelView>, id: Seq<char>, i: int) -> bool {
    &&& 0 <= i < channels.len()
    &&& channels[i].id == id
    &&& forall|j: int| 0 <= j < i ==> (#[trigger] channels[j]).id != id
}

pub open spec fn has_channel(channels: Seq<ChannelView>, id: Seq<char>) -> bool {
    exists|i: int| is_channel_at(channels, id, i)
}

pub open spec fn channel_index(channels: Seq<ChannelView>, id: Seq<char>) -> int {
    choose|i: int| is_channel_at(channels, id, i)
}

pub proof fn lemma_node_at_unique(nodes: Seq<NodeView>, id: Seq<char>, i: int, j: int)
    requires
        is_node_at(nodes, id, i),
        is_node_at(nodes, id, j),
    ensures
        i == j,
{
    if i < j {
        assert(nodes[i].id != id);
    }
    if j < i {
        assert(nodes[j].id != id);
    }
}

pub proof fn lemma_channel_at_unique(channels: Seq<ChannelView>, id: Seq<char>, i: int, j: int)
    requires
        is_channel_at(channels, id, i),
        is_channel_at(channels, id, j),
    ensures
        i == j,
{
    if i < j {
        assert(channels[i].id != id);
    }
    if j < i {
        assert(channels[j].id != id);
    }
}

/// The first place in `nodes` that holds a node called `id`.
pub fn find_node(nodes: &Vec<&Node>, id: &String) -> (r: Option<usize>)
    ensures
        match r {
            Some(i) => is_node_at(node_ref_views(nodes@), id@, i as int),
            None => !has_node(node_ref_views(nodes@), id@),
        },
        r is Some ==> r.unwrap() == node_index(node_ref_views(nodes@), id@),
{
    let ghost views = node_ref_views(nodes@);
    let mut i: usize = 0;
    while i < nodes.len()
        invariant
            i <= nodes.len(),
            views == node_ref_views(nodes@),
            forall|j: int| 0 <= j < i ==> (#[trigger] views[j]).id != id@,
        decreases nodes.len() - i,
    {
        if nodes[i].id == *id {
            proof {
                assert(is_node_at(views, id@, i as int));
                lemma_node_at_unique(views, id@, i as int, node_index(views, id@));
            }
            return Some(i);
        }
        i = i + 1;
    }
    proof {
        assert forall|k: int| !is_node_at(views, id@, k) by {
            if is_node_at(views, id@, k) {
                assert(views[k].id != id@);
            }
        }
    }
    None
}

/// The queries a routing strategy may put to a graph. None of them fails:
/// what is missing is answered with `None`.
pub trait NetworkGraph {
    /// The nodes of the graph, in the order in which it lists them.
    spec fn nodes(&self) -> Seq<NodeView>;

    /// The channels of the graph, in the order in which it lists them.
    spec fn channels(&self) -> Seq<ChannelView>;

    /// Whether the graph carries the raw announcements of its channels.
    spec fn p2p_info(&self) -> bool;

    /// All channels of the graph.
    fn get_channels(&self) -> (r: Vec<&Channel>)
        ensures
            channel_ref_views(r@) == self.channels(),
    ;

    /// All nodes of the graph.
    fn get_nodes(&self) -> (r: Vec<&Node>)
        ensures
            node_ref_views(r@) == self.nodes(),
    ;

    /// The first node called `id`.
    fn get_node(&self, id: &str) -> (r: Option<&Node>)
        ensures
            r is Some <==> has_node(self.nodes(), id@),
            r matches Some(n) ==> n@ == self.nodes()[node_index(self.nodes(), id@)],
    ;

    /// The first channel called `id`.
    fn get_channel(&self, id: &str) -> (r: Option<&Channel>)
        ensures
            r is Some <==> has_channel(self.channels(), id@),
            r matches Some(c) ==> c@ == self.channels()[channel_index(self.channels(), id@)],
    ;

    /// Whether the graph carries the raw announcements of its channels.
    fn has_p2p_info(&self) -> (r: bool)
        ensures
            r == self.p2p_info(),
    ;
}

} // verus!
