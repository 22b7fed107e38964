//! The scored strategy: the search for the cheapest route, with a
//! penalty for channels that are likely to fail added to each fee.

use crate::algorithms::dijkstra::{
    is_best_route, route_by_search, search_answer, EdgeCost,
};
use crate::graph::{Channel, ChannelView, NetworkGraph};
use crate::strategy::{
    check_input, input_error, outcome, Network, Query, RouteError, RouteHop, RouteHopView,
    RouteInput, RouteOutput, Strategy,
};
use vstd::prelude::*;

verus! {

/// The penalty that a scorer puts on every channel, unless told otherwise.
pub const DEFAULT_BASE_PENALTY_MSAT: u64 = 1024;

/// The penalty on one channel.
#[derive(Debug, PartialEq, Eq)]
pub struct ChannelPenalty {
    pub channel: String,
    pub penalty_msat: u64,
}

/// A scoring model: a penalty on every channel, and more on the channels
/// it lists. Who fills it decides what the penalties stand for.
#[derive(Debug, PartialEq, Eq)]
pub struct Scorer {
    pub base_penalty_msat: u64,
    pub penalties: Vec<ChannelPenalty>,
}

/// A scoring model as plain values.
pub struct ScorerView {
    pub base_penalty_msat: u64,
    pub penalties: Seq<(Seq<char>, u64)>,
}

impl View for Scorer {
    type V = ScorerView;

    open spec fn view(&self) -> ScorerView {
        ScorerView {
            base_penalty_msat: self.base_penalty_msat,
            penalties: Seq::new(
                self.penalties@.len(),
                |i: int| (self.penalties@[i].channel@, self.penalties@[i].penalty_msat),
            ),
        }
    }
}

/// `i` is the first entry of `penalties` for channel `id`.
pub open spec fn is_entry(penalties: Seq<(Seq<char>, u64)>, id: Seq<char>, i: int) -> bool {
    &&& 0 <= i < penalties.len()
    &&& penalties[i].0 == id
    &&& forall|j: int| 0 <= j < i ==> (#[trigger] penalties[j]).0 != id
}

/// The penalty listed for channel `id`: that of its first entry, or
/// nothing where it has none.
pub open spec fn listed_penalty(penalties: Seq<(Seq<char>, u64)>, id: Seq<char>) -> u64 {
    if exists|i: int| is_entry(penalties, id, i) {
        penalties[choose|i: int| is_entry(penalties, id, i)].1
    } else {
        0
    }
}

impl ScorerView {
    /// The penalty on channel `id`: the base penalty and what is listed
    /// for the channel, at most `u64::MAX`.
    pub open spec fn penalty(self, id: Seq<char>) -> u64 {
        let sum = self.base_penalty_msat + listed_penalty(self.penalties, id);
        if sum > u64::MAX {
            u64::MAX
        } else {
            sum as u64
        }
    }
}

impl Scorer {
    /// A scorer with the default penalty on every channel.
    pub fn new() -> (r: Self)
        ensures
            r@.base_penalty_msat == DEFAULT_BASE_PENALTY_MSAT,
            r@.penalties.len() == 0,
    {
        Scorer { base_penalty_msat: DEFAULT_BASE_PENALTY_MSAT, penalties: Vec::new() }
    }

    /// Lists `penalty_msat` for `channel`, after what is listed already:
    /// an earlier entry for the same channel stays the one that counts.
    pub fn add_penalty(&mut self, channel: &str, penalty_msat: u64)
        ensures
            final(self)@.base_penalty_msat == old(self)@.base_penalty_msat,
            final(self)@.penalties == old(self)@.penalties.push((channel@, penalty_msat)),
    {
        self.penalties.push(ChannelPenalty { channel: channel.to_owned(), penalty_msat });
        proof {
            assert(self@.penalties =~= old(self)@.penalties.push((channel@, penalty_msat)));
        }
    }

    /// The penalty listed for channel `id`.
    pub fn listed(&self, id: &String) -> (r: u64)
        ensures
            r == listed_penalty(self@.penalties, id@),
    {
        let ghost entries = self@.penalties;
        let mut i: usize = 0;
        while i < self.penalties.len()
            invariant
                i <= self.penalties.len(),
                entries == self@.penalties,
                forall|j: int| 0 <= j < i ==> (#[trigger] entries[j]).0 != id@,
            decreases self.penalties.len() - i,
        {
            if self.penalties[i].channel == *id {
                proof {
                    assert(is_entry(entries, id@, i as int));
                    let c = choose|c: int| is_entry(entries, id@, c);
                    if c < i {
                        assert(entries[c].0 != id@);
                    }
                    if i < c {
                        assert(entries[i as int].0 != id@);
                    }
                }
                return self.penalties[i].penalty_msat;
            }
            i = i + 1;
        }
        proof {
            if exists|c: int| is_entry(entries, id@, c) {
                let c = choose|c: int| is_entry(entries, id@, c);
                assert(entries[c].0 != id@);
            }
        }
        0
    }

    /// The penalty on channel `id`.
    pub fn penalty(&self, id: &String) -> (r: u64)
        ensures
            r == self@.penalty(id@),
    {
        let listed = self.listed(id);
        match self.base_penalty_msat.checked_add(listed) {
            Some(sum) => sum,
            None => u64::MAX,
        }
    }
}

impl EdgeCost for Scorer {
    open spec fn extra(&self, channel: ChannelView) -> u64 {
        self@.penalty(channel.id)
    }

    fn extra_cost(&self, channel: &Channel) -> (r: u64) {
        self.penalty(&channel.id)
    }
}

/// One hop of a path that a path finder outside this library returned:
/// the node the hop leads to, the channel it takes, the fee taken for the
/// next hop (for the last hop, the amount paid), and the hop's delay.
#[derive(Debug, PartialEq, Eq)]
pub struct PathHop {
    pub pubkey: String,
    pub short_channel_id: String,
    pub fee_msat: u64,
    pub cltv_expiry_delta: u32,
}

/// The fees of the hops of `path` from hop `i` on.
pub open spec fn fees_from(path: Seq<PathHop>, i: int) -> nat
    decreases path.len() - i,
{
    if i < 0 || i >= path.len() {
        0
    } else {
        path[i].fee_msat as nat + fees_from(path, i + 1)
    }
}

/// The delays of the hops of `path` from hop `i` on.
pub open spec fn deltas_from(path: Seq<PathHop>, i: int) -> nat
    decreases path.len() - i,
{
    if i < 0 || i >= path.len() {
        0
    } else {
        path[i].cltv_expiry_delta as nat + deltas_from(path, i + 1)
    }
}

/// The hop of a route for hop `i` of `path`: amount and delay are summed
/// up from the end of the path.
pub open spec fn converted_hop(path: Seq<PathHop>, i: int) -> RouteHopView {
    RouteHopView {
        id: path[i].pubkey@,
        channel: path[i].short_channel_id@,
        delay: deltas_from(path, i) as u32,
        amount_msat: fees_from(path, i) as u64,
    }
}

/// What `convert_route_to_output` makes of a path.
pub open spec fn converted(path: Seq<PathHop>) -> Result<Seq<RouteHopView>, RouteError> {
    if path.len() == 0 {
        Err(RouteError::Unreachable)
    } else if fees_from(path, 0) > u64::MAX || deltas_from(path, 0) > u32::MAX {
        Err(RouteError::Unrepresentable)
    } else {
        Ok(Seq::new(path.len(), |i: int| converted_hop(path, i)))
    }
}

pub proof fn lemma_sums_shrink(path: Seq<PathHop>, i: int, j: int)
    requires
        0 <= i <= j,
    ensures
        fees_from(path, j) <= fees_from(path, i),
        deltas_from(path, j) <= deltas_from(path, i),
    decreases j - i,
{
    if i < j {
        lemma_sums_shrink(path, i + 1, j);
    }
}

/// The route for a path found outside this library: each hop forwards
/// the fees of all hops from it on, and waits for their delays. A path
/// without hops is no route; one whose sums do not fit a hop is none
/// either.
pub fn convert_route_to_output(path: &Vec<PathHop>) -> (r: Result<RouteOutput, RouteError>)
    ensures
        outcome(r) == converted(path@),
{
    let len = path.len();
    if len == 0 {
        return Err(RouteError::Unreachable);
    }
    let ghost p = path@;
    let mut rev: Vec<RouteHop> = Vec::new();
    let mut amount: u64 = 0;
    let mut delay: u32 = 0;
    let mut i: usize = len;
    while i > 0
        invariant
            p == path@,
            len == path.len(),
            len > 0,
            i <= len,
            rev.len() == len - i,
            amount == fees_from(p, i as int),
            delay == deltas_from(p, i as int),
            forall|t: int|
                0 <= t < rev.len() ==> (#[trigger] rev@[t])@ == converted_hop(p, len - 1 - t),
        decreases i,
    {
        let idx = i - 1;
        let hop = &path[idx];
        if hop.fee_msat > u64::MAX - amount || hop.cltv_expiry_delta > u32::MAX - delay {
            proof {
                lemma_sums_shrink(p, 0, idx as int);
            }
            return Err(RouteError::Unrepresentable);
        }
        amount = amount + hop.fee_msat;
        delay = delay + hop.cltv_expiry_delta;
        rev.push(RouteHop::new(hop.pubkey.clone(), hop.short_channel_id.clone(), delay, amount));
        i = idx;
    }
    let mut hops: Vec<RouteHop> = Vec::new();
    let mut j: usize = len;
    while j > 0
        invariant
            len == rev.len(),
            j <= len,
            hops.len() == len - j,
            forall|t: int| 0 <= t < hops.len() ==> (#[trigger] hops@[t])@ == rev@[len - 1 - t]@,
        decreases j,
    {
        j = j - 1;
        hops.push(rev[j].clone());
    }
    let out = RouteOutput { path: hops };
    proof {
        assert(out@ =~= Seq::new(p.len(), |i: int| converted_hop(p, i)));
    }
    Ok(out)
}

/// The paths that a path finder returned, each as its sequence of hops.
pub open spec fn path_views(paths: Seq<Vec<PathHop>>) -> Seq<Seq<PathHop>> {
    Seq::new(paths.len(), |i: int| paths[i]@)
}

/// What `convert_paths_to_output` makes of the paths found: the route
/// for the first of them, and no route where there is none.
pub open spec fn converted_first(paths: Seq<Seq<PathHop>>) -> Result<Seq<RouteHopView>, RouteError> {
    if paths.len() == 0 {
        Err(RouteError::Unreachable)
    } else {
        converted(paths[0])
    }
}

/// The route for the first of the paths found outside this library.
/// Where no path was found there is no route.
pub fn convert_paths_to_output(paths: &Vec<Vec<PathHop>>) -> (r: Result<RouteOutput, RouteError>)
    ensures
        outcome(r) == converted_first(path_views(paths@)),
{
    if paths.len() == 0 {
        return Err(RouteError::Unreachable);
    }
    convert_route_to_output(&paths[0])
}

/// Where the snapshot of the network's graph for rapid gossip sync is
/// served; `None` for a network that has none.
pub fn rapid_gossip_sync_url(network: Network) -> (r: Option<&'static str>)
    ensures
        match network {
            Network::Bitcoin => r matches Some(url) && url@
                == "https://rapidsync.lightningdevkit.org/snapshot/0"@,
            Network::Testnet => r matches Some(url) && url@
                == "https://rapidsync.lightningdevkit.org/testnet/snapshot/0"@,
            _ => r is None,
        },
{
    match network {
        Network::Bitcoin => Some("https://rapidsync.lightningdevkit.org/snapshot/0"),
        Network::Testnet => Some("https://rapidsync.lightningdevkit.org/testnet/snapshot/0"),
        _ => None,
    }
}

/// The routing strategy that weighs each channel's fee against how
/// likely the channel is to fail.
pub struct LDKRoutingStrategy {
    pub network: Network,
    pub root_path: String,
    pub scorer: Scorer,
}

/// The strategy needs the channels' announcements, or leave to work on
/// a snapshot from rapid gossip sync.
pub open spec fn scored_applicable(q: Query) -> bool {
    q.p2p_info || q.use_rapid_gossip_sync
}

/// What the scored strategy with scoring model `scorer` answers to `q`.
pub open spec fn scored_answer(q: Query, scorer: Scorer) -> Result<Seq<RouteHopView>, RouteError> {
    if input_error(q) is Some {
        Err(input_error(q).unwrap())
    } else if !scored_applicable(q) {
        Err(RouteError::NotApplicable)
    } else {
        search_answer(q, scorer)
    }
}

impl LDKRoutingStrategy {
    /// The strategy with the default scoring model.
    pub fn new(network: Network, root_path: String) -> (r: Self)
        ensures
            r.network == network,
            r.root_path@ == root_path@,
            r.scorer@.base_penalty_msat == DEFAULT_BASE_PENALTY_MSAT,
            r.scorer@.penalties.len() == 0,
    {
        LDKRoutingStrategy { network, root_path, scorer: Scorer::new() }
    }

    /// The strategy with the scoring model `scorer`.
    pub fn with_scorer(network: Network, root_path: String, scorer: Scorer) -> (r: Self)
        ensures
            r.network == network,
            r.root_path@ == root_path@,
            r.scorer == scorer,
    {
        LDKRoutingStrategy { network, root_path, scorer }
    }
}

impl Default for LDKRoutingStrategy {
    fn default() -> (r: Self)
        ensures
            r.network == Network::Bitcoin,
            r.root_path@.len() == 0,
            r.scorer@.base_penalty_msat == DEFAULT_BASE_PENALTY_MSAT,
            r.scorer@.penalties.len() == 0,
    {
        LDKRoutingStrategy::new(Network::Bitcoin, String::new())
    }
}

impl Strategy for LDKRoutingStrategy {
    open spec fn applicable(&self, q: Query) -> Result<bool, RouteError> {
        Ok(scored_applicable(q))
    }

    open spec fn answer(&self, q: Query) -> Result<Seq<RouteHopView>, RouteError> {
        scored_answer(q, self.scorer)
    }

    /// Whether the graph carries the channels' announcements, or the
    /// request allows a snapshot from rapid gossip sync.
    fn can_apply<G: NetworkGraph>(&self, input: &RouteInput<G>) -> (r: Result<bool, RouteError>) {
        Ok(input.graph.has_p2p_info() || input.use_rapid_gossip_sync)
    }

    /// The route of least total of fees and penalties.
    fn route<G: NetworkGraph>(&self, input: &RouteInput<G>) -> (r: Result<RouteOutput, RouteError>)
        ensures
            r matches Ok(out) ==> is_best_route(input@, self.scorer, out@) && out@.len() > 0,
    {
        match check_input(input) {
            Err(e) => {
                return Err(e);
            },
            Ok(_) => {},
        }
        if !(input.graph.has_p2p_info() || input.use_rapid_gossip_sync) {
            return Err(RouteError::NotApplicable);
        }
        route_by_search(input, &self.scorer)
    }
}

} // verus!
