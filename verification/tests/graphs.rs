use barq::graph::{Channel, GossipChannelInfo, NetworkGraph, Node};
use barq::methods::graph::cln::{build_cln_network_graph, CLNNetworkGraph};
use barq::methods::graph::p2p::{build_p2p_network_graph, P2PNetworkGraph};

#[test]
fn node_and_channel_setters() {
    let mut node = Node::new("A");
    assert_eq!(node.id, "A");
    assert_eq!(node.alias, None);
    assert!(node.channels.is_empty());
    node.set_alias("alice");
    assert_eq!(node.alias, Some("alice".to_string()));
    let mut channel = Channel::new("c", "A", "B", 10, 6, 1, 2);
    assert_eq!(channel.capacity, 10);
    assert_eq!(channel.delay, 6);
    assert_eq!(channel.base_fee_millisatoshi, 1);
    assert_eq!(channel.fee_per_millionth, 2);
    assert_eq!(channel.channel_announcement, None);
    channel.set_capacity(20);
    assert_eq!(channel.capacity, 20);
    node.add_channel(&channel);
    assert_eq!(node.channels, vec![channel.clone()]);
    assert_eq!(node.clone(), node);
    assert!(channel.is_well_formed());
    assert!(!Channel::new("c", "A", "A", 10, 6, 1, 2).is_well_formed());
}

#[test]
fn cln_graph_lists_a_channel_at_both_ends() {
    let mut graph = CLNNetworkGraph::new();
    assert!(graph.get_nodes().is_empty());
    graph.add_channel(Channel::new("ab", "A", "B", 10, 6, 1, 2));
    let ids: Vec<&str> = graph.get_nodes().iter().map(|n| n.id.as_str()).collect();
    assert_eq!(ids, vec!["A", "B"]);
    assert_eq!(graph.get_node("A").unwrap().channels.len(), 1);
    assert_eq!(graph.get_node("A").unwrap().channels[0].id, "ab");
    assert_eq!(graph.get_node("B").unwrap().channels.len(), 1);
    assert_eq!(graph.get_node("B").unwrap().channels[0].id, "ab");
    assert!(graph.get_node("C").is_none());
    assert_eq!(graph.get_channel("ab").unwrap().capacity, 10);
    assert!(graph.get_channel("ba").is_none());
    assert_eq!(graph.get_channels().len(), 1);
    assert!(!graph.has_p2p_info());
}

#[test]
fn p2p_graph_lists_a_channel_at_both_ends() {
    let mut graph = P2PNetworkGraph::new();
    graph.add_channel(Channel::new("ab", "A", "B", 10, 6, 1, 2));
    assert_eq!(graph.get_node("A").unwrap().channels.len(), 1);
    assert_eq!(graph.get_node("B").unwrap().channels.len(), 1);
    assert!(graph.has_p2p_info());
}

#[test]
fn last_write_wins() {
    let mut graph = CLNNetworkGraph::new();
    graph.add_node(Node::new("A"));
    let mut renamed = Node::new("A");
    renamed.set_alias("alice");
    graph.add_node(renamed);
    assert_eq!(graph.get_nodes().len(), 1);
    assert_eq!(graph.get_node("A").unwrap().alias, Some("alice".to_string()));
    graph.add_channel(Channel::new("ab", "A", "B", 10, 6, 1, 2));
    graph.add_channel(Channel::new("ab", "A", "B", 99, 6, 1, 2));
    assert_eq!(graph.get_channels().len(), 1);
    assert_eq!(graph.get_channel("ab").unwrap().capacity, 99);
}

#[test]
fn cln_graph_from_a_list_of_channels() {
    let channels = vec![
        Channel::new("ab", "A", "B", 10, 6, 1, 2),
        Channel::new("ab", "B", "A", 10, 6, 1, 2),
        Channel::new("bc", "B", "C", 10, 6, 1, 2),
    ];
    let graph = build_cln_network_graph(&channels);
    let ids: Vec<&str> = graph.get_nodes().iter().map(|n| n.id.as_str()).collect();
    assert_eq!(ids, vec!["A", "B", "C"]);
    assert_eq!(graph.get_node("A").unwrap().channels.len(), 2);
    assert_eq!(graph.get_node("B").unwrap().channels.len(), 3);
    assert_eq!(graph.get_node("C").unwrap().channels.len(), 1);
    assert_eq!(graph.get_channels().len(), 2);
    assert_eq!(graph.get_channel("ab").unwrap().node1, "B");
}

fn record(scid: u8, a: u8, b: u8, satoshi: Option<u64>) -> GossipChannelInfo {
    GossipChannelInfo {
        short_channel_id: vec![0, 0, 0, 0, 0, 0, 0x1f, scid],
        node_id_1: vec![2, a],
        node_id_2: vec![3, b],
        satoshi,
        announcement: vec![1, 0, scid],
    }
}

#[test]
fn channel_from_gossip_writes_identifiers_in_hexadecimal() {
    let channel = Channel::from_gossip(&record(0xa0, 0xff, 0x0b, Some(5000))).unwrap();
    assert_eq!(channel.id, "0000000000001fa0");
    assert_eq!(channel.node1, "02ff");
    assert_eq!(channel.node2, "030b");
    assert_eq!(channel.capacity, 5000);
    assert_eq!(channel.delay, 0);
    assert_eq!(channel.base_fee_millisatoshi, 0);
    assert_eq!(channel.fee_per_millionth, 0);
    assert_eq!(channel.channel_announcement, Some(vec![1, 0, 0xa0]));
    assert!(Channel::from_gossip(&record(1, 1, 2, None)).is_none());
}

#[test]
fn p2p_graph_from_gossip_records() {
    let records = vec![record(1, 0xaa, 0xbb, Some(10)), record(2, 0xbb, 0xcc, Some(20))];
    let graph = build_p2p_network_graph(&records).unwrap();
    let ids: Vec<&str> = graph.get_nodes().iter().map(|n| n.id.as_str()).collect();
    assert_eq!(ids, vec!["02aa", "03bb", "02bb", "03cc"]);
    assert_eq!(graph.get_channels().len(), 2);
    assert!(graph.has_p2p_info());
    let records = vec![record(1, 0xaa, 0xbb, Some(10)), record(2, 0xbb, 0xcc, None)];
    assert!(build_p2p_network_graph(&records).is_none());
}
