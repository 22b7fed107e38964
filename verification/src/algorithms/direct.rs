//! The direct strategy: one hop over a channel that the source has with
//! the destination.

use crate::graph::{has_node, node_index, Channel, ChannelView, NetworkGraph};
use crate::strategy::{
    calculate_fee, check_input, fee, input_error, ErrorKind, Query, RouteError, RouteHop,
    RouteHopView, RouteInput, RouteOutput, Strategy, MIN_FINAL_DELAY,
};
use vstd::prelude::*;

verus! {

/// The channel leads from `src` to `dst`.
pub open spec fn links(channel: ChannelView, src: Seq<char>, dst: Seq<char>) -> bool {
    channel.other_end(src) == dst
}

/// The channel leads from `src` to `dst` and can carry `amount`.
pub open spec fn usable(channel: ChannelView, src: Seq<char>, dst: Seq<char>, amount: u64) -> bool {
    links(channel, src, dst) && channel.capacity >= amount
}

/// `k` is the first usable channel among `channels`.
pub open spec fn is_first_usable(
    channels: Seq<ChannelView>,
    src: Seq<char>,
    dst: Seq<char>,
    amount: u64,
    k: int,
) -> bool {
    &&& 0 <= k < channels.len()
    &&& usable(channels[k], src, dst, amount)
    &&& forall|j: int| 0 <= j < k ==> !usable(#[trigger] channels[j], src, dst, amount)
}

pub open spec fn has_link(channels: Seq<ChannelView>, src: Seq<char>, dst: Seq<char>) -> bool {
    exists|k: int| 0 <= k < channels.len() && links(#[trigger] channels[k], src, dst)
}

pub open spec fn has_usable(
    channels: Seq<ChannelView>,
    src: Seq<char>,
    dst: Seq<char>,
    amount: u64,
) -> bool {
    exists|k: int| is_first_usable(channels, src, dst, amount, k)
}

pub open spec fn first_usable(
    channels: Seq<ChannelView>,
    src: Seq<char>,
    dst: Seq<char>,
    amount: u64,
) -> int {
    choose|k: int| is_first_usable(channels, src, dst, amount, k)
}

/// The delay of a hop over `channel`: the channel's own, or the least
/// final delay where the channel states none.
pub open spec fn hop_delay(channel: ChannelView) -> u64 {
    if channel.delay == 0 {
        MIN_FINAL_DELAY as u64
    } else {
        channel.delay
    }
}

/// The amount and the delay of a hop over `channel` fit a hop.
pub open spec fn hop_fits(channel: ChannelView, amount: u64) -> bool {
    amount + fee(amount, channel) <= u64::MAX && hop_delay(channel) <= u32::MAX
}

/// The single hop to `dst` over `channel`.
pub open spec fn direct_hop(channel: ChannelView, dst: Seq<char>, amount: u64) -> RouteHopView {
    RouteHopView {
        id: dst,
        channel: channel.id,
        delay: hop_delay(channel) as u32,
        amount_msat: (amount + fee(amount, channel)) as u64,
    }
}

/// What the direct strategy answers to `q`.
pub open spec fn direct_answer(q: Query) -> Result<Seq<RouteHopView>, RouteError> {
    if input_error(q) is Some {
        Err(input_error(q).unwrap())
    } else if !has_node(q.nodes, q.src) {
        Err(RouteError::SourceNotFound)
    } else {
        let channels = q.nodes[node_index(q.nodes, q.src)].channels;
        if !has_link(channels, q.src, q.dst) {
            Err(RouteError::NoChannel)
        } else if !has_usable(channels, q.src, q.dst, q.amount_msat) {
            Err(RouteError::InsufficientCapacity)
        } else {
            let channel = channels[first_usable(channels, q.src, q.dst, q.amount_msat)];
            if hop_fits(channel, q.amount_msat) {
                Ok(seq![direct_hop(channel, q.dst, q.amount_msat)])
            } else {
                Err(RouteError::Unrepresentable)
            }
        }
    }
}

/// Whether the source has a channel with the destination.
pub open spec fn direct_applicable(q: Query) -> Result<bool, RouteError> {
    if !has_node(q.nodes, q.src) {
        Err(RouteError::SourceNotFound)
    } else {
        Ok(has_link(q.nodes[node_index(q.nodes, q.src)].channels, q.src, q.dst))
    }
}

pub proof fn lemma_first_usable_unique(
    channels: Seq<ChannelView>,
    src: Seq<char>,
    dst: Seq<char>,
    amount: u64,
    a: int,
    b: int,
)
    requires
        is_first_usable(channels, src, dst, amount, a),
        is_first_usable(channels, src, dst, amount, b),
    ensures
        a == b,
{
    if a < b {
        assert(!usable(channels[a], src, dst, amount));
    }
    if b < a {
        assert(!usable(channels[b], src, dst, amount));
    }
}

/// Where the source has a single channel, and that channel leads to the
/// destination: an amount within its capacity is routed in one hop, which
/// forwards the amount and the channel's fee; a larger amount finds no
/// route.
pub proof fn lemma_direct_over_single_channel(q: Query, channel: ChannelView)
    requires
        input_error(q) is None,
        has_node(q.nodes, q.src),
        q.nodes[node_index(q.nodes, q.src)].channels == seq![channel],
        links(channel, q.src, q.dst),
    ensures
        q.amount_msat <= channel.capacity && hop_fits(channel, q.amount_msat) ==> {
            &&& direct_answer(q) is Ok
            &&& direct_answer(q).unwrap().len() == 1
            &&& direct_answer(q).unwrap()[0].amount_msat == q.amount_msat
                + channel.base_fee_millisatoshi + (q.amount_msat * channel.fee_per_millionth)
                / 1_000_000
        },
        q.amount_msat > channel.capacity ==> {
            &&& direct_answer(q) matches Err(e)
            &&& e.kind_of() == ErrorKind::NoRoute
        },
{
    let channels = q.nodes[node_index(q.nodes, q.src)].channels;
    assert(channels[0] == channel);
    assert(has_link(channels, q.src, q.dst));
    if q.amount_msat <= channel.capacity {
        assert(is_first_usable(channels, q.src, q.dst, q.amount_msat, 0));
        lemma_first_usable_unique(
            channels,
            q.src,
            q.dst,
            q.amount_msat,
            0,
            first_usable(channels, q.src, q.dst, q.amount_msat),
        );
    } else {
        assert forall|k: int| !is_first_usable(channels, q.src, q.dst, q.amount_msat, k) by {
            if is_first_usable(channels, q.src, q.dst, q.amount_msat, k) {
                assert(k == 0);
            }
        }
    }
}

/// The routing strategy that pays over a channel which the source has
/// with the destination.
pub struct Direct;

impl Direct {
    pub fn new() -> Self {
        Direct
    }
}

impl Default for Direct {
    fn default() -> Self {
        Direct::new()
    }
}

/// Whether `channel`, seen from `src`, leads to `dst`.
pub fn leads_to(channel: &Channel, src: &String, dst: &String) -> (r: bool)
    ensures
        r == links(channel@, src@, dst@),
{
    if channel.node1 == *src {
        channel.node2 == *dst
    } else {
        channel.node1 == *dst
    }
}

impl Strategy for Direct {
    open spec fn applicable(&self, q: Query) -> Result<bool, RouteError> {
        direct_applicable(q)
    }

    open spec fn answer(&self, q: Query) -> Result<Seq<RouteHopView>, RouteError> {
        direct_answer(q)
    }

    /// Whether the source has a channel with the destination.
    fn can_apply<G: NetworkGraph>(&self, input: &RouteInput<G>) -> (r: Result<bool, RouteError>) {
        let node = match input.graph.get_node(input.src_pubkey.as_str()) {
            Some(node) => node,
            None => {
                return Err(RouteError::SourceNotFound);
            },
        };
        let ghost channels = node@.channels;
        let mut k: usize = 0;
        while k < node.channels.len()
            invariant
                k <= node.channels.len(),
                channels == node@.channels,
                has_node(input@.nodes, input@.src),
                channels == input@.nodes[node_index(input@.nodes, input@.src)].channels,
                forall|j: int|
                    0 <= j < k ==> !links(#[trigger] channels[j], input.src_pubkey@, input.dest_pubkey@),
            decreases node.channels.len() - k,
        {
            proof {
                assert(channels[k as int] == node.channels@[k as int]@);
            }
            if leads_to(&node.channels[k], &input.src_pubkey, &input.dest_pubkey) {
                return Ok(true);
            }
            k = k + 1;
        }
        Ok(false)
    }

    /// The single hop over the first channel that leads from the source
    /// to the destination and can carry the amount.
    fn route<G: NetworkGraph>(&self, input: &RouteInput<G>) -> (r: Result<RouteOutput, RouteError>)
        ensures
            r matches Ok(out) ==> out@.len() == 1 && out@[0].id == input.dest_pubkey@
                && out@[0].amount_msat >= input.amount_msat,
    {
        match check_input(input) {
            Err(e) => {
                return Err(e);
            },
            Ok(_) => {},
        }
        let node = match input.graph.get_node(input.src_pubkey.as_str()) {
            Some(node) => node,
            None => {
                return Err(RouteError::SourceNotFound);
            },
        };
        let ghost channels = node@.channels;
        let ghost src = input.src_pubkey@;
        let ghost dst = input.dest_pubkey@;
        let amount = input.amount_msat;
        let mut linked = false;
        let mut k: usize = 0;
        while k < node.channels.len()
            invariant
                k <= node.channels.len(),
                channels == node@.channels,
                input_error(input@) is None,
                has_node(input@.nodes, input@.src),
                channels == input@.nodes[node_index(input@.nodes, input@.src)].channels,
                src == input.src_pubkey@,
                dst == input.dest_pubkey@,
                amount == input.amount_msat,
                forall|j: int| 0 <= j < k ==> !usable(#[trigger] channels[j], src, dst, amount),
                linked <==> exists|j: int| 0 <= j < k && links(#[trigger] channels[j], src, dst),
            decreases node.channels.len() - k,
        {
            let channel = &node.channels[k];
            proof {
                assert(channels[k as int] == channel@);
            }
            if leads_to(channel, &input.src_pubkey, &input.dest_pubkey) {
                linked = true;
                if channel.capacity >= amount {
                    proof {
                        assert(is_first_usable(channels, src, dst, amount, k as int));
                        lemma_first_usable_unique(
                            channels,
                            src,
                            dst,
                            amount,
                            k as int,
                            first_usable(channels, src, dst, amount),
                        );
                        assert(has_link(channels, src, dst));
                    }
                    let f = calculate_fee(amount, channel);
                    let delay: u64 = if channel.delay == 0 {
                        MIN_FINAL_DELAY as u64
                    } else {
                        channel.delay
                    };
                    if f > (u64::MAX - amount) as u128 || delay > u32::MAX as u64 {
                        return Err(RouteError::Unrepresentable);
                    }
                    let hop = RouteHop::new(
                        input.dest_pubkey.clone(),
                        channel.id.clone(),
                        delay as u32,
                        amount + (f as u64),
                    );
                    let mut path: Vec<RouteHop> = Vec::new();
                    path.push(hop);
                    let out = RouteOutput { path };
                    proof {
                        assert(out@ =~= seq![direct_hop(channel@, dst, amount)]);
                    }
                    return Ok(out);
                }
            }
            k = k + 1;
        }
        proof {
            assert forall|j: int| !is_first_usable(channels, src, dst, amount, j) by {
                if is_first_usable(channels, src, dst, amount, j) {
                    assert(!usable(channels[j], src, dst, amount));
                }
            }
        }
        if linked {
            Err(RouteError::InsufficientCapacity)
        } else {
            Err(RouteError::NoChannel)
        }
    }
}

} // verus!
