//! What a routing strategy is asked and what it answers.

use crate::graph::{Channel, ChannelView, NetworkGraph, NodeView};
use vstd::prelude::*;
use vstd::string::*;

verus! {

/// The delay that the last hop of a route asks for.
pub const MIN_FINAL_DELAY: u32 = 9;

/// The four kinds of failure.
#[derive(Debug, PartialEq, Eq, Clone, Copy, Structural)]
pub enum ErrorKind {
    /// A node or channel that the request names is not in the graph.
    NotFound,
    /// The graph was searched and holds no usable route.
    NoRoute,
    /// The strategy cannot be applied to the request.
    PreconditionFailed,
    /// The request itself makes no sense.
    InvalidInput,
}

/// Why no route was returned.
#[derive(Debug, PartialEq, Eq, Clone, Copy, Structural)]
pub enum RouteError {
    /// The source is not a node of the graph.
    SourceNotFound,
    /// The destination is not a node of the graph.
    DestinationNotFound,
    /// A channel of the graph leads to a node that the graph does not hold.
    EndpointNotFound,
    /// The source has no channel with the destination.
    NoChannel,
    /// The source has channels with the destination, none of them large
    /// enough.
    InsufficientCapacity,
    /// No path leads from the source to the destination.
    Unreachable,
    /// A route was found, and its amounts or delays do not fit a hop.
    Unrepresentable,
    /// The strategy's precondition does not hold of the request.
    NotApplicable,
    /// Source and destination are the same node.
    SelfRoute,
    /// The amount is zero.
    ZeroAmount,
    /// The request names a strategy that does not exist.
    UnknownStrategy,
}

impl RouteError {
    pub open spec fn kind_of(self) -> ErrorKind {
        match self {
            RouteError::SourceNotFound => ErrorKind::NotFound,
            RouteError::DestinationNotFound => ErrorKind::NotFound,
            RouteError::EndpointNotFound => ErrorKind::NotFound,
            RouteError::NoChannel => ErrorKind::NoRoute,
            RouteError::InsufficientCapacity => ErrorKind::NoRoute,
            RouteError::Unreachable => ErrorKind::NoRoute,
            RouteError::Unrepresentable => ErrorKind::NoRoute,
            RouteError::NotApplicable => ErrorKind::PreconditionFailed,
            RouteError::SelfRoute => ErrorKind::InvalidInput,
            RouteError::ZeroAmount => ErrorKind::InvalidInput,
            RouteError::UnknownStrategy => ErrorKind::InvalidInput,
        }
    }

    /// The kind of failure that this error belongs to.
    pub fn kind(&self) -> (r: ErrorKind)
        ensures
            r == self.kind_of(),
    {
        match self {
            RouteError::SourceNotFound => ErrorKind::NotFound,
            RouteError::DestinationNotFound => ErrorKind::NotFound,
            RouteError::EndpointNotFound => ErrorKind::NotFound,
            RouteError::NoChannel => ErrorKind::NoRoute,
            RouteError::InsufficientCapacity => ErrorKind::NoRoute,
            RouteError::Unreachable => ErrorKind::NoRoute,
            RouteError::Unrepresentable => ErrorKind::NoRoute,
            RouteError::NotApplicable => ErrorKind::PreconditionFailed,
            RouteError::SelfRoute => ErrorKind::InvalidInput,
            RouteError::ZeroAmount => ErrorKind::InvalidInput,
            RouteError::UnknownStrategy => ErrorKind::InvalidInput,
        }
    }

    pub open spec fn message_of(self) -> Seq<char> {
        match self {
            RouteError::SourceNotFound => "source node not found in the graph"@,
            RouteError::DestinationNotFound => "destination node not found in the graph"@,
            RouteError::EndpointNotFound => "a channel leads to a node that is not in the graph"@,
            RouteError::NoChannel => "no channel with the destination found"@,
            RouteError::InsufficientCapacity => "no channel with enough capacity found"@,
            RouteError::Unreachable => "no path found"@,
            RouteError::Unrepresentable => "the route's totals do not fit a hop"@,
            RouteError::NotApplicable => "the strategy cannot be applied to this request"@,
            RouteError::SelfRoute => "source and destination are the same node"@,
            RouteError::ZeroAmount => "the amount is zero"@,
            RouteError::UnknownStrategy => "strategy not found"@,
        }
    }

    /// The error in words.
    pub fn message(&self) -> (r: String)
        ensures
            r@ == self.message_of(),
    {
        match self {
            RouteError::SourceNotFound => "source node not found in the graph".to_owned(),
            RouteError::DestinationNotFound => "destination node not found in the graph".to_owned(),
            RouteError::EndpointNotFound => "a channel leads to a node that is not in the graph".to_owned(),
            RouteError::NoChannel => "no channel with the destination found".to_owned(),
            RouteError::InsufficientCapacity => "no channel with enough capacity found".to_owned(),
            RouteError::Unreachable => "no path found".to_owned(),
            RouteError::Unrepresentable => "the route's totals do not fit a hop".to_owned(),
            RouteError::NotApplicable => "the strategy cannot be applied to this request".to_owned(),
            RouteError::SelfRoute => "source and destination are the same node".to_owned(),
            RouteError::ZeroAmount => "the amount is zero".to_owned(),
            RouteError::UnknownStrategy => "strategy not found".to_owned(),
        }
    }
}

/// The routing algorithms that a request can name.
#[derive(Debug, PartialEq, Eq, Clone, Copy, Structural)]
pub enum StrategyKind {
    Direct,
    ShortestPath,
    Probabilistic,
}

impl Default for StrategyKind {
    /// The strategy of a request that names none.
    fn default() -> (r: Self)
        ensures
            r == StrategyKind::Direct,
    {
        StrategyKind::Direct
    }
}

/// What `str::to_lowercase` makes of a string.
pub uninterp spec fn lowercase_of(s: Seq<char>) -> Seq<char>;

/// Calls `str::to_lowercase`. The contract names the result and says no
/// more of it: the same string always gives the same lowercase string.
#[verifier::external_body]
fn lowercase(s: &str) -> (r: String)
    ensures
        r@ == lowercase_of(s@),
{
    s.to_lowercase()
}

/// The strategy registered under `name`, which is taken as it is written.
pub open spec fn kind_named(name: Seq<char>) -> Option<StrategyKind> {
    if name == "direct"@ {
        Some(StrategyKind::Direct)
    } else if name == "shortest_path"@ {
        Some(StrategyKind::ShortestPath)
    } else if name == "probabilistic"@ {
        Some(StrategyKind::Probabilistic)
    } else {
        None
    }
}

/// The words for a strategy name that is not registered.
pub open spec fn not_found_message(name: Seq<char>) -> Seq<char> {
    "Strategy `"@ + name + "` not found"@
}

/// Says that no strategy is registered under `name`.
pub fn strategy_not_found(name: &str) -> (r: String)
    ensures
        r@ == not_found_message(name@),
{
    let mut message = "Strategy `".to_owned();
    message.append(name);
    message.append("` not found");
    message
}

impl StrategyKind {
    /// The strategy registered under `name`, which must be in lower case:
    /// `direct`, `shortest_path` or `probabilistic`.
    pub fn from_lowercase(name: &String) -> (r: Result<StrategyKind, RouteError>)
        ensures
            match kind_named(name@) {
                Some(kind) => r == Ok::<StrategyKind, RouteError>(kind),
                None => r == Err::<StrategyKind, RouteError>(RouteError::UnknownStrategy),
            },
    {
        if *name == "direct".to_owned() {
            Ok(StrategyKind::Direct)
        } else if *name == "shortest_path".to_owned() {
            Ok(StrategyKind::ShortestPath)
        } else if *name == "probabilistic".to_owned() {
            Ok(StrategyKind::Probabilistic)
        } else {
            Err(RouteError::UnknownStrategy)
        }
    }

    /// The strategy registered under `name`, whatever its case.
    pub fn from_name(name: &str) -> (r: Result<StrategyKind, RouteError>)
        ensures
            match kind_named(lowercase_of(name@)) {
                Some(kind) => r == Ok::<StrategyKind, RouteError>(kind),
                None => r == Err::<StrategyKind, RouteError>(RouteError::UnknownStrategy),
            },
    {
        let lower = lowercase(name);
        StrategyKind::from_lowercase(&lower)
    }

    /// The name under which the strategy is registered.
    pub fn name(&self) -> (r: String)
        ensures
            kind_named(r@) == Some(*self),
    {
        proof {
            reveal_strlit("direct");
            reveal_strlit("shortest_path");
            reveal_strlit("probabilistic");
        }
        match self {
            StrategyKind::Direct => "direct".to_owned(),
            StrategyKind::ShortestPath => {
                assert("shortest_path"@.len() != "direct"@.len());
                "shortest_path".to_owned()
            },
            StrategyKind::Probabilistic => {
                assert("probabilistic"@[0] != "direct"@[0]);
                assert("probabilistic"@[0] != "shortest_path"@[0]);
                "probabilistic".to_owned()
            },
        }
    }
}

impl std::str::FromStr for StrategyKind {
    type Err = RouteError;

    /// The strategy registered under `s`, whatever its case.
    fn from_str(s: &str) -> (r: Result<Self, RouteError>)
        ensures
            match kind_named(lowercase_of(s@)) {
                Some(kind) => r == Ok::<StrategyKind, RouteError>(kind),
                None => r == Err::<StrategyKind, RouteError>(RouteError::UnknownStrategy),
            },
    {
        StrategyKind::from_name(s)
    }
}

/// The network that a node works on.
#[derive(Debug, PartialEq, Eq, Clone, Copy, Structural)]
pub enum Network {
    Bitcoin,
    Testnet,
    Signet,
    Regtest,
}

/// One hop of a route: the node to forward to, the channel to use, and
/// the delay and amount that hold from this hop to the destination.
#[derive(Debug, PartialEq, Eq)]
pub struct RouteHop {
    pub id: String,
    pub channel: String,
    pub delay: u32,
    pub amount_msat: u64,
}

/// What a hop holds, as plain values.
pub struct RouteHopView {
    pub id: Seq<char>,
    pub channel: Seq<char>,
    pub delay: u32,
    pub amount_msat: u64,
}

impl View for RouteHop {
    type V = RouteHopView;

    open spec fn view(&self) -> RouteHopView {
        RouteHopView {
            id: self.id@,
            channel: self.channel@,
            delay: self.delay,
            amount_msat: self.amount_msat,
        }
    }
}

impl Clone for RouteHop {
    fn clone(&self) -> (r: Self)
        ensures
            r@ == self@,
    {
        RouteHop {
            id: self.id.clone(),
            channel: self.channel.clone(),
            delay: self.delay,
            amount_msat: self.amount_msat,
        }
    }
}

impl RouteHop {
    /// A hop with the given fields.
    pub fn new(id: String, channel: String, delay: u32, amount_msat: u64) -> (r: Self)
        ensures
            r@ == (RouteHopView { id: id@, channel: channel@, delay, amount_msat }),
    {
        RouteHop { id, channel, delay, amount_msat }
    }
}

pub open spec fn hop_views(s: Seq<RouteHop>) -> Seq<RouteHopView> {
    Seq::new(s.len(), |i: int| s[i]@)
}

/// A route: its hops from the first to the last.
#[derive(Debug, PartialEq, Eq)]
pub struct RouteOutput {
    pub path: Vec<RouteHop>,
}

impl View for RouteOutput {
    type V = Seq<RouteHopView>;

    open spec fn view(&self) -> Seq<RouteHopView> {
        hop_views(self.path@)
    }
}

/// What a strategy answered, as plain values.
pub open spec fn outcome(r: Result<RouteOutput, RouteError>) -> Result<
    Seq<RouteHopView>,
    RouteError,
> {
    match r {
        Ok(out) => Ok(out@),
        Err(e) => Err(e),
    }
}

/// A routing request with the graph it is to be answered on.
pub struct RouteInput<G: NetworkGraph> {
    pub src_pubkey: String,
    pub dest_pubkey: String,
    pub network: Network,
    pub amount_msat: u64,
    /// The largest cumulative time lock the payer accepts.
    pub cltv: u64,
    pub graph: G,
    /// The name of the strategy asked for; `None` asks for the default.
    pub strategy: Option<String>,
    /// Whether the scored strategy may work on a snapshot from rapid
    /// gossip sync where the graph carries no announcements.
    pub use_rapid_gossip_sync: bool,
}

/// A routing request as plain values.
pub struct Query {
    pub src: Seq<char>,
    pub dst: Seq<char>,
    pub network: Network,
    pub amount_msat: u64,
    pub cltv: u64,
    pub nodes: Seq<NodeView>,
    pub channels: Seq<ChannelView>,
    pub p2p_info: bool,
    pub strategy: Option<Seq<char>>,
    pub use_rapid_gossip_sync: bool,
}

impl<G: NetworkGraph> View for RouteInput<G> {
    type V = Query;

    open spec fn view(&self) -> Query {
        Query {
            src: self.src_pubkey@,
            dst: self.dest_pubkey@,
            network: self.network,
            amount_msat: self.amount_msat,
            cltv: self.cltv,
            nodes: self.graph.nodes(),
            channels: self.graph.channels(),
            p2p_info: self.graph.p2p_info(),
            strategy: match self.strategy {
                Some(s) => Some(s@),
                None => None,
            },
            use_rapid_gossip_sync: self.use_rapid_gossip_sync,
        }
    }
}

impl Query {
    /// The graph of the request is one that a machine can hold: the
    /// number of its nodes, and of the channels of each, fits `usize`.
    pub open spec fn holdable(self) -> bool {
        &&& self.nodes.len() <= usize::MAX
        &&& forall|u: int|
            0 <= u < self.nodes.len() ==> (#[trigger] self.nodes[u]).channels.len() <= usize::MAX
    }
}

/// What every strategy refuses before it looks at the graph.
pub open spec fn input_error(q: Query) -> Option<RouteError> {
    if q.src == q.dst {
        Some(RouteError::SelfRoute)
    } else if q.amount_msat == 0 {
        Some(RouteError::ZeroAmount)
    } else {
        None
    }
}

/// Refuses a request from a node to itself, then one for no amount.
pub fn check_input<G: NetworkGraph>(input: &RouteInput<G>) -> (r: Result<(), RouteError>)
    ensures
        match input_error(input@) {
            Some(e) => r == Err::<(), RouteError>(e),
            None => r is Ok,
        },
{
    if input.src_pubkey == input.dest_pubkey {
        Err(RouteError::SelfRoute)
    } else if input.amount_msat == 0 {
        Err(RouteError::ZeroAmount)
    } else {
        Ok(())
    }
}

/// The fee that `channel` takes for forwarding `amount`: its base fee and
/// its share of the amount, rounded down.
pub open spec fn fee(amount: u64, channel: ChannelView) -> nat {
    (channel.base_fee_millisatoshi + (amount * channel.fee_per_millionth) / 1_000_000) as nat
}

/// The fee that `channel` takes for forwarding `amount_msat`.
pub fn calculate_fee(amount_msat: u64, channel: &Channel) -> (r: u128)
    ensures
        r == fee(amount_msat, channel@),
{
    let product: u128 = {
        proof {
            assert(amount_msat * channel.fee_per_millionth <= 0xffff_ffff_ffff_ffff
                * 0xffff_ffff_ffff_ffff) by (nonlinear_arith)
                requires
                    amount_msat <= 0xffff_ffff_ffff_ffff,
                    channel.fee_per_millionth <= 0xffff_ffff_ffff_ffff,
            ;
        }
        (amount_msat as u128) * (channel.fee_per_millionth as u128)
    };
    (channel.base_fee_millisatoshi as u128) + product / 1_000_000
}

/// A routing algorithm.
pub trait Strategy {
    /// Whether the strategy can be applied to the request.
    spec fn applicable(&self, q: Query) -> Result<bool, RouteError>;

    /// What the strategy answers to the request.
    spec fn answer(&self, q: Query) -> Result<Seq<RouteHopView>, RouteError>;

    /// Whether the strategy can be applied to the request.
    fn can_apply<G: NetworkGraph>(&self, input: &RouteInput<G>) -> (r: Result<bool, RouteError>)
        ensures
            r == self.applicable(input@),
    ;

    /// The route for the request.
    fn route<G: NetworkGraph>(&self, input: &RouteInput<G>) -> (r: Result<RouteOutput, RouteError>)
        ensures
            outcome(r) == self.answer(input@),
    ;
}

} // verus!
