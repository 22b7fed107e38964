use barq::algorithms::dijkstra::Dijkstra;
use barq::algorithms::direct::Direct;
use barq::algorithms::probabilistic::{
    convert_paths_to_output, convert_route_to_output, rapid_gossip_sync_url,
    LDKRoutingStrategy, PathHop, Scorer,
};
use barq::algorithms::{get_algorithm, Algorithm};
use barq::graph::{Channel, NetworkGraph, Node};
use barq::methods::graph::cln::CLNNetworkGraph;
use barq::methods::graph::p2p::P2PNetworkGraph;
use barq::router::Router;
use barq::search::{shortest_path, Edge};
use barq::strategy::{
    calculate_fee, strategy_not_found, ErrorKind, Network, RouteError, RouteHop, RouteInput,
    Strategy, StrategyKind,
};
use std::str::FromStr;

fn diamond() -> P2PNetworkGraph {
    let mut graph = P2PNetworkGraph::new();
    graph.add_node(Node::new("A"));
    graph.add_node(Node::new("B"));
    graph.add_node(Node::new("C"));
    graph.add_node(Node::new("D"));
    graph.add_channel(Channel::new("channel1", "A", "B", 200, 6, 1, 10));
    graph.add_channel(Channel::new("channel2", "A", "C", 200, 6, 2, 10));
    graph.add_channel(Channel::new("channel3", "B", "D", 200, 6, 1, 10));
    graph.add_channel(Channel::new("channel4", "C", "D", 200, 6, 1, 10));
    graph
}

fn request<G: NetworkGraph>(
    graph: G,
    src: &str,
    dst: &str,
    amount_msat: u64,
    strategy: Option<&str>,
) -> RouteInput<G> {
    RouteInput {
        src_pubkey: src.to_string(),
        dest_pubkey: dst.to_string(),
        network: Network::Regtest,
        amount_msat,
        cltv: 9,
        graph,
        strategy: strategy.map(|s| s.to_string()),
        use_rapid_gossip_sync: false,
    }
}

#[test]
fn test_dijkstra_routing() {
    let input = request(diamond(), "A", "D", 100, Some("shortest_path"));
    let router = Router::new();
    let output = router.execute(&input).expect("Dijsktra Routing Failed");
    let mut route_path: Vec<RouteHop> = Vec::<RouteHop>::new();
    let hop1 = RouteHop::new("B".to_string(), "channel1".to_string(), 15, 101);
    let hop2 = RouteHop::new("D".to_string(), "channel3".to_string(), 9, 100);
    route_path.push(hop1);
    route_path.push(hop2);
    assert_eq!(output.path, route_path);
}

#[test]
fn dijkstra_strategy_called_directly_gives_the_same_route() {
    let input = request(diamond(), "A", "D", 100, None);
    let output = Dijkstra::new().route(&input).unwrap();
    assert_eq!(output.path.len(), 2);
    assert_eq!(output.path[0].id, "B");
    assert_eq!(output.path[0].amount_msat, 101);
    assert_eq!(output.path[1].id, "D");
    assert_eq!(output.path[1].amount_msat, 100);
    assert_eq!(Dijkstra::new().can_apply(&input), Ok(true));
}

#[test]
fn dijkstra_prefers_the_cheaper_of_two_paths() {
    let mut graph = P2PNetworkGraph::new();
    graph.add_channel(Channel::new("dear", "A", "B", 1000, 10, 500, 0));
    graph.add_channel(Channel::new("x", "A", "C", 1000, 20, 1, 0));
    graph.add_channel(Channel::new("y", "C", "B", 1000, 30, 2, 0));
    let input = request(graph, "A", "B", 1000, None);
    let output = Dijkstra::new().route(&input).unwrap();
    assert_eq!(
        output.path,
        vec![
            RouteHop::new("C".to_string(), "x".to_string(), 29, 1001),
            RouteHop::new("B".to_string(), "y".to_string(), 9, 1000),
        ]
    );
}

#[test]
fn route_amounts_and_delays_never_grow_and_end_at_the_request() {
    let mut graph = P2PNetworkGraph::new();
    graph.add_channel(Channel::new("c1", "A", "B", 5000, 40, 3, 1000));
    graph.add_channel(Channel::new("c2", "B", "C", 5000, 30, 5, 2000));
    graph.add_channel(Channel::new("c3", "C", "D", 5000, 20, 7, 3000));
    let input = request(graph, "A", "D", 2000, None);
    let output = Dijkstra::new().route(&input).unwrap();
    let hops = &output.path;
    assert_eq!(hops.len(), 3);
    // fees for 2000 msat: 3 + 2, 5 + 4, 7 + 6
    assert_eq!(hops[0].amount_msat, 2000 + 5 + 9);
    assert_eq!(hops[1].amount_msat, 2000 + 9);
    assert_eq!(hops[2].amount_msat, 2000);
    assert_eq!(hops[0].delay, 9 + 40 + 30);
    assert_eq!(hops[1].delay, 9 + 30);
    assert_eq!(hops[2].delay, 9);
    for i in 0..hops.len() - 1 {
        assert!(hops[i].amount_msat >= hops[i + 1].amount_msat);
        assert!(hops[i].delay >= hops[i + 1].delay);
    }
}

#[test]
fn unreachable_destination_is_no_route() {
    let mut graph = P2PNetworkGraph::new();
    graph.add_channel(Channel::new("c1", "A", "B", 100, 6, 1, 10));
    graph.add_channel(Channel::new("c2", "C", "D", 100, 6, 1, 10));
    let input = request(graph, "A", "D", 10, Some("shortest_path"));
    let err = Router::new().execute(&input).unwrap_err();
    assert_eq!(err, RouteError::Unreachable);
    assert_eq!(err.kind(), ErrorKind::NoRoute);
}

#[test]
fn single_node_graph_has_no_path() {
    let mut graph = P2PNetworkGraph::new();
    graph.add_node(Node::new("A"));
    graph.add_node(Node::new("B"));
    let input = request(graph, "A", "B", 10, None);
    assert_eq!(Dijkstra::new().route(&input).unwrap_err(), RouteError::Unreachable);
}

#[test]
fn self_route_is_invalid_input_for_every_strategy() {
    for name in ["direct", "shortest_path", "probabilistic"] {
        let input = request(diamond(), "A", "A", 100, Some(name));
        let err = Router::new().execute(&input).unwrap_err();
        assert_eq!(err, RouteError::SelfRoute);
        assert_eq!(err.kind(), ErrorKind::InvalidInput);
    }
    let input = request(diamond(), "A", "A", 100, None);
    assert_eq!(Direct::new().route(&input).unwrap_err(), RouteError::SelfRoute);
    assert_eq!(Dijkstra::new().route(&input).unwrap_err(), RouteError::SelfRoute);
}

#[test]
fn zero_amount_is_invalid_input() {
    let input = request(diamond(), "A", "D", 0, Some("shortest_path"));
    let err = Router::new().execute(&input).unwrap_err();
    assert_eq!(err, RouteError::ZeroAmount);
    assert_eq!(err.kind(), ErrorKind::InvalidInput);
}

#[test]
fn unknown_strategy_is_invalid_input() {
    let input = request(diamond(), "A", "D", 100, Some("fastest"));
    let err = Router::new().execute(&input).unwrap_err();
    assert_eq!(err, RouteError::UnknownStrategy);
    assert_eq!(err.kind(), ErrorKind::InvalidInput);
}

#[test]
fn missing_source_and_destination_are_not_found() {
    let input = request(diamond(), "Z", "D", 100, Some("shortest_path"));
    let err = Router::new().execute(&input).unwrap_err();
    assert_eq!(err, RouteError::SourceNotFound);
    assert_eq!(err.kind(), ErrorKind::NotFound);
    let input = request(diamond(), "A", "Z", 100, Some("shortest_path"));
    let err = Router::new().execute(&input).unwrap_err();
    assert_eq!(err, RouteError::DestinationNotFound);
    assert_eq!(err.kind(), ErrorKind::NotFound);
    let input = request(diamond(), "Z", "D", 100, Some("direct"));
    assert_eq!(Router::new().execute(&input).unwrap_err(), RouteError::SourceNotFound);
}

#[test]
fn channel_to_a_missing_node_is_not_found() {
    let mut a = Node::new("A");
    a.add_channel(&Channel::new("c1", "A", "B", 100, 6, 1, 10));
    let mut graph = P2PNetworkGraph::new();
    graph.add_node(a);
    graph.add_node(Node::new("C"));
    let input = request(graph, "A", "C", 10, None);
    let err = Dijkstra::new().route(&input).unwrap_err();
    assert_eq!(err, RouteError::EndpointNotFound);
    assert_eq!(err.kind(), ErrorKind::NotFound);
}

#[test]
fn route_totals_that_do_not_fit_a_hop_are_refused() {
    let mut graph = P2PNetworkGraph::new();
    graph.add_channel(Channel::new("c1", "A", "B", 100, u64::MAX, 1, 0));
    graph.add_channel(Channel::new("c2", "B", "C", 100, 6, 1, 0));
    let input = request(graph, "A", "C", 10, None);
    let err = Dijkstra::new().route(&input).unwrap_err();
    assert_eq!(err, RouteError::Unrepresentable);
    assert_eq!(err.kind(), ErrorKind::NoRoute);
}

#[test]
fn a_path_too_dear_for_the_amount_is_unreachable() {
    let mut graph = P2PNetworkGraph::new();
    graph.add_channel(Channel::new("c1", "A", "B", 100, 6, u64::MAX, 0));
    let input = request(graph, "A", "B", 10, None);
    assert_eq!(Dijkstra::new().route(&input).unwrap_err(), RouteError::Unreachable);
}

#[test]
fn same_request_twice_gives_the_same_route() {
    let input = request(diamond(), "A", "D", 100, Some("shortest_path"));
    let router = Router::new();
    let first = router.execute(&input);
    let second = router.execute(&input);
    assert_eq!(first, second);
    let input = request(diamond(), "A", "B", 100, Some("direct"));
    assert_eq!(router.execute(&input), router.execute(&input));
}

#[test]
fn direct_route_is_one_hop_with_the_fee_added() {
    let mut graph = CLNNetworkGraph::new();
    graph.add_channel(Channel::new("ab", "A", "B", 5_000_000, 34, 7, 2500));
    let input = request(graph, "A", "B", 4_000_000, Some("direct"));
    let output = Router::new().execute(&input).unwrap();
    // 4_000_000 + 7 + floor(4_000_000 * 2500 / 1_000_000)
    assert_eq!(
        output.path,
        vec![RouteHop::new("B".to_string(), "ab".to_string(), 34, 4_010_007)]
    );
}

#[test]
fn direct_route_over_a_channel_without_delay_uses_the_default() {
    let mut graph = CLNNetworkGraph::new();
    graph.add_channel(Channel::new("ab", "A", "B", 500, 0, 0, 0));
    let input = request(graph, "A", "B", 500, None);
    let output = Router::new().execute(&input).unwrap();
    assert_eq!(output.path, vec![RouteHop::new("B".to_string(), "ab".to_string(), 9, 500)]);
}

#[test]
fn direct_route_beyond_capacity_is_no_route() {
    let mut graph = CLNNetworkGraph::new();
    graph.add_channel(Channel::new("ab", "A", "B", 500, 6, 1, 10));
    let input = request(graph, "A", "B", 501, Some("direct"));
    let err = Router::new().execute(&input).unwrap_err();
    assert_eq!(err, RouteError::InsufficientCapacity);
    assert_eq!(err.kind(), ErrorKind::NoRoute);
}

#[test]
fn direct_route_without_channel_is_refused() {
    let mut graph = CLNNetworkGraph::new();
    graph.add_channel(Channel::new("ac", "A", "C", 500, 6, 1, 10));
    graph.add_node(Node::new("B"));
    let input = request(graph, "A", "B", 10, None);
    let err = Direct::new().route(&input).unwrap_err();
    assert_eq!(err, RouteError::NoChannel);
    assert_eq!(err.kind(), ErrorKind::NoRoute);
    assert_eq!(Direct::new().can_apply(&input), Ok(false));
    let err = Router::new().execute(&input).unwrap_err();
    assert_eq!(err, RouteError::NotApplicable);
    assert_eq!(err.kind(), ErrorKind::PreconditionFailed);
}

#[test]
fn direct_route_takes_the_first_channel_that_can_carry_the_amount() {
    let mut graph = CLNNetworkGraph::new();
    graph.add_channel(Channel::new("small", "A", "B", 50, 6, 1, 0));
    graph.add_channel(Channel::new("first", "A", "B", 500, 6, 9, 0));
    graph.add_channel(Channel::new("cheap", "A", "B", 500, 6, 1, 0));
    let input = request(graph, "A", "B", 100, None);
    let output = Direct::new().route(&input).unwrap();
    assert_eq!(output.path, vec![RouteHop::new("B".to_string(), "first".to_string(), 6, 109)]);
    assert_eq!(Direct::new().can_apply(&input), Ok(true));
}

#[test]
fn direct_route_whose_amount_overflows_is_refused() {
    let mut graph = CLNNetworkGraph::new();
    graph.add_channel(Channel::new("ab", "A", "B", u64::MAX, 6, 1, 0));
    let input = request(graph, "A", "B", u64::MAX, None);
    assert_eq!(Direct::new().route(&input).unwrap_err(), RouteError::Unrepresentable);
}

#[test]
fn scored_strategy_needs_announcements_or_a_snapshot() {
    let mut graph = CLNNetworkGraph::new();
    graph.add_channel(Channel::new("ab", "A", "B", 500, 6, 1, 10));
    let mut input = request(graph, "A", "B", 10, Some("probabilistic"));
    let strategy = LDKRoutingStrategy::new(Network::Regtest, "/tmp".to_string());
    assert_eq!(strategy.can_apply(&input), Ok(false));
    let err = strategy.route(&input).unwrap_err();
    assert_eq!(err, RouteError::NotApplicable);
    assert_eq!(err.kind(), ErrorKind::PreconditionFailed);
    assert_eq!(Router::new().execute(&input).unwrap_err(), RouteError::NotApplicable);
    input.use_rapid_gossip_sync = true;
    assert_eq!(strategy.can_apply(&input), Ok(true));
    let output = strategy.route(&input).unwrap();
    assert_eq!(output.path, vec![RouteHop::new("B".to_string(), "ab".to_string(), 9, 10)]);
}

#[test]
fn scored_strategy_avoids_a_penalised_channel() {
    let mut graph = P2PNetworkGraph::new();
    graph.add_channel(Channel::new("cheap", "A", "B", 1000, 10, 1, 0));
    graph.add_channel(Channel::new("x", "A", "C", 1000, 20, 2, 0));
    graph.add_channel(Channel::new("y", "C", "B", 1000, 30, 2, 0));
    let input = request(graph, "A", "B", 1000, Some("probabilistic"));
    // Without a listed penalty the single cheap channel wins.
    let output = Router::new().execute(&input).unwrap();
    assert_eq!(output.path, vec![RouteHop::new("B".to_string(), "cheap".to_string(), 9, 1000)]);
    // With a penalty on it the detour is taken; amounts hold fees only.
    let mut scorer = Scorer::new();
    scorer.base_penalty_msat = 0;
    scorer.add_penalty("cheap", 100);
    scorer.add_penalty("cheap", 0);
    assert_eq!(scorer.penalty(&"cheap".to_string()), 100);
    assert_eq!(scorer.penalty(&"x".to_string()), 0);
    let strategy = LDKRoutingStrategy::with_scorer(Network::Regtest, "/tmp".to_string(), scorer);
    let output = strategy.route(&input).unwrap();
    assert_eq!(
        output.path,
        vec![
            RouteHop::new("C".to_string(), "x".to_string(), 29, 1002),
            RouteHop::new("B".to_string(), "y".to_string(), 9, 1000),
        ]
    );
}

#[test]
fn scorer_penalty_saturates() {
    let mut scorer = Scorer::new();
    assert_eq!(scorer.penalty(&"any".to_string()), 1024);
    scorer.add_penalty("big", u64::MAX);
    assert_eq!(scorer.penalty(&"big".to_string()), u64::MAX);
    assert_eq!(scorer.listed(&"big".to_string()), u64::MAX);
    assert_eq!(scorer.listed(&"none".to_string()), 0);
}

#[test]
fn converted_path_sums_fees_and_delays_from_the_end() {
    let path = vec![
        PathHop { pubkey: "B".to_string(), short_channel_id: "1".to_string(), fee_msat: 3, cltv_expiry_delta: 40 },
        PathHop { pubkey: "C".to_string(), short_channel_id: "2".to_string(), fee_msat: 2, cltv_expiry_delta: 30 },
        PathHop { pubkey: "D".to_string(), short_channel_id: "3".to_string(), fee_msat: 1000, cltv_expiry_delta: 18 },
    ];
    let output = convert_route_to_output(&path).unwrap();
    assert_eq!(
        output.path,
        vec![
            RouteHop::new("B".to_string(), "1".to_string(), 88, 1005),
            RouteHop::new("C".to_string(), "2".to_string(), 48, 1002),
            RouteHop::new("D".to_string(), "3".to_string(), 18, 1000),
        ]
    );
    assert_eq!(convert_route_to_output(&Vec::new()).unwrap_err(), RouteError::Unreachable);
    let path = vec![
        PathHop { pubkey: "B".to_string(), short_channel_id: "1".to_string(), fee_msat: u64::MAX, cltv_expiry_delta: 1 },
        PathHop { pubkey: "C".to_string(), short_channel_id: "2".to_string(), fee_msat: 1, cltv_expiry_delta: 1 },
    ];
    assert_eq!(convert_route_to_output(&path).unwrap_err(), RouteError::Unrepresentable);
}

#[test]
fn snapshot_urls() {
    assert_eq!(rapid_gossip_sync_url(Network::Bitcoin), Some("https://rapidsync.lightningdevkit.org/snapshot/0"));
    assert_eq!(
        rapid_gossip_sync_url(Network::Testnet),
        Some("https://rapidsync.lightningdevkit.org/testnet/snapshot/0")
    );
    assert_eq!(rapid_gossip_sync_url(Network::Signet), None);
    assert_eq!(rapid_gossip_sync_url(Network::Regtest), None);
}

#[test]
fn strategy_names() {
    assert_eq!(StrategyKind::from_name("direct"), Ok(StrategyKind::Direct));
    assert_eq!(StrategyKind::from_name("Shortest_Path"), Ok(StrategyKind::ShortestPath));
    assert_eq!(StrategyKind::from_name("PROBABILISTIC"), Ok(StrategyKind::Probabilistic));
    assert_eq!(StrategyKind::from_name("dijkstra"), Err(RouteError::UnknownStrategy));
    assert_eq!(StrategyKind::from_lowercase(&"DIRECT".to_string()), Err(RouteError::UnknownStrategy));
    assert_eq!(StrategyKind::from_str("Direct"), Ok(StrategyKind::Direct));
    assert_eq!(StrategyKind::default(), StrategyKind::Direct);
    for kind in [StrategyKind::Direct, StrategyKind::ShortestPath, StrategyKind::Probabilistic] {
        assert_eq!(StrategyKind::from_lowercase(&kind.name()), Ok(kind));
    }
    assert_eq!(Router::resolve(&None), Ok(StrategyKind::Direct));
    assert_eq!(Router::resolve(&Some("Probabilistic".to_string())), Ok(StrategyKind::Probabilistic));
}

#[test]
fn registry_hands_out_the_algorithm_of_each_kind() {
    assert!(matches!(get_algorithm(&StrategyKind::Direct), Some(Algorithm::Direct(_))));
    assert!(matches!(get_algorithm(&StrategyKind::ShortestPath), Some(Algorithm::ShortestPath(_))));
    match get_algorithm(&StrategyKind::Probabilistic) {
        Some(Algorithm::Probabilistic(s)) => {
            assert_eq!(s.network, Network::Bitcoin);
            assert_eq!(s.scorer.base_penalty_msat, 1024);
            assert!(s.scorer.penalties.is_empty());
        }
        _ => panic!("no scored strategy"),
    }
    let input = request(diamond(), "A", "D", 100, None);
    let algorithm = get_algorithm(&StrategyKind::ShortestPath).unwrap();
    let output = Router::new().execute_with(&algorithm, &input).unwrap();
    assert_eq!(output.path.len(), 2);
}

#[test]
fn channel_added_once_is_routed_over_from_either_end() {
    let mut graph = CLNNetworkGraph::new();
    graph.add_channel(Channel::new("ch", "A", "B", 200, 6, 1, 10));
    let input = request(graph, "B", "A", 100, Some("direct"));
    let output = Router::new().execute(&input).unwrap();
    assert_eq!(output.path, vec![RouteHop::new("A".to_string(), "ch".to_string(), 6, 101)]);
    let mut graph = CLNNetworkGraph::new();
    graph.add_channel(Channel::new("ch", "A", "B", 200, 6, 1, 10));
    let input = request(graph, "B", "A", 100, Some("shortest_path"));
    let output = Router::new().execute(&input).unwrap();
    assert_eq!(output.path, vec![RouteHop::new("A".to_string(), "ch".to_string(), 9, 100)]);
}

#[test]
fn unknown_strategy_is_named_in_the_message() {
    assert_eq!(strategy_not_found("fastest"), "Strategy `fastest` not found");
    assert_eq!(strategy_not_found(""), "Strategy `` not found");
}

#[test]
fn paths_found_outside_become_the_route_of_the_first() {
    let first = vec![
        PathHop { pubkey: "B".to_string(), short_channel_id: "1".to_string(), fee_msat: 3, cltv_expiry_delta: 40 },
        PathHop { pubkey: "C".to_string(), short_channel_id: "2".to_string(), fee_msat: 1000, cltv_expiry_delta: 18 },
    ];
    let second = vec![
        PathHop { pubkey: "D".to_string(), short_channel_id: "9".to_string(), fee_msat: 7, cltv_expiry_delta: 1 },
    ];
    let output = convert_paths_to_output(&vec![first, second]).unwrap();
    assert_eq!(
        output.path,
        vec![
            RouteHop::new("B".to_string(), "1".to_string(), 58, 1003),
            RouteHop::new("C".to_string(), "2".to_string(), 18, 1000),
        ]
    );
    assert_eq!(convert_paths_to_output(&Vec::new()).unwrap_err(), RouteError::Unreachable);
    assert_eq!(convert_paths_to_output(&vec![Vec::new()]).unwrap_err(), RouteError::Unreachable);
}

#[test]
fn default_strategy_is_direct() {
    let input = request(diamond(), "A", "B", 100, None);
    let output = Router::new().execute(&input).unwrap();
    assert_eq!(output.path, vec![RouteHop::new("B".to_string(), "channel1".to_string(), 6, 101)]);
}

#[test]
fn fee_formula() {
    let channel = Channel::new("c", "A", "B", 0, 0, 1, 10);
    assert_eq!(calculate_fee(100, &channel), 1);
    assert_eq!(calculate_fee(1_000_000, &channel), 11);
    let channel = Channel::new("c", "A", "B", 0, 0, u64::MAX, u64::MAX);
    assert_eq!(
        calculate_fee(u64::MAX, &channel),
        u64::MAX as u128 + (u64::MAX as u128 * u64::MAX as u128) / 1_000_000
    );
}

#[test]
fn error_messages_and_kinds() {
    assert_eq!(RouteError::Unreachable.message(), "no path found");
    assert_eq!(RouteError::UnknownStrategy.message(), "strategy not found");
    assert_eq!(RouteError::NoChannel.message(), "no channel with the destination found");
    assert_eq!(RouteError::EndpointNotFound.kind(), ErrorKind::NotFound);
    assert_eq!(RouteError::NotApplicable.kind(), ErrorKind::PreconditionFailed);
    assert_eq!(RouteError::Unrepresentable.kind(), ErrorKind::NoRoute);
}

#[test]
fn search_on_a_plain_digraph() {
    let adj = vec![
        vec![Edge { to: 1, weight: 4 }, Edge { to: 2, weight: 1 }],
        vec![Edge { to: 3, weight: 1 }],
        vec![Edge { to: 1, weight: 2 }, Edge { to: 3, weight: 5 }],
        vec![],
    ];
    let path = shortest_path(&adj, 0, 3, 100).unwrap();
    let steps: Vec<(usize, usize)> = path.iter().map(|s| (s.node, s.arc)).collect();
    assert_eq!(steps, vec![(0, 1), (2, 0), (1, 0)]);
    assert!(shortest_path(&adj, 0, 3, 3).is_none());
    assert!(shortest_path(&adj, 3, 0, 100).is_none());
    assert_eq!(shortest_path(&adj, 2, 2, 0).unwrap().len(), 0);
}

#[test]
fn search_breaks_ties_by_the_order_of_nodes_and_edges() {
    let adj = vec![
        vec![Edge { to: 2, weight: 1 }, Edge { to: 1, weight: 1 }],
        vec![Edge { to: 3, weight: 1 }],
        vec![Edge { to: 3, weight: 1 }],
        vec![],
    ];
    let path = shortest_path(&adj, 0, 3, u64::MAX).unwrap();
    let steps: Vec<(usize, usize)> = path.iter().map(|s| (s.node, s.arc)).collect();
    assert_eq!(steps, vec![(0, 1), (1, 0)]);
}
