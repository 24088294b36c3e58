use snarkos_network::address::PeerAddress;
use snarkos_network::environment::Environment;
use snarkos_network::maintenance::Action;
use snarkos_network::node::Node;
use snarkos_network::peer_info::PeerQuality;

fn address(i: u8) -> PeerAddress {
    PeerAddress::new_v4(10, 0, 0, i, 4131)
}

fn node_with(bootnodes: Vec<PeerAddress>, min: u16, max: u16, is_bootnode: bool) -> Node {
    let environment = Environment::new(Some(address(0)), bootnodes, min, max, is_bootnode, 2);
    Node::with_id(1, environment)
}

fn connect(node: &mut Node, i: u8, now: i64) {
    node.set_connected_at(address(i), address(i), now).unwrap();
}

#[test]
fn quality_thresholds() {
    let mut quality = PeerQuality::new();
    assert!(quality.is_inactive(0));
    assert!(quality.is_low_quality(0));
    quality.register_message(1_000);
    assert!(!quality.is_inactive(31_000));
    assert!(quality.is_inactive(31_001));
    assert!(!quality.is_inactive(500));
    assert!(!quality.is_low_quality(1_000));
    quality.rtt_ms = 1_500;
    assert!(!quality.is_low_quality(1_000));
    quality.rtt_ms = 1_501;
    assert!(quality.is_low_quality(1_000));
    quality.rtt_ms = 0;
    quality.failures = 2;
    assert!(!quality.is_low_quality(1_000));
    quality.failures = 3;
    assert!(quality.is_low_quality(1_000));
}

#[test]
fn counters_wrap_where_they_are_full() {
    let mut quality = PeerQuality::new();
    quality.failures = u32::MAX;
    quality.register_failure();
    assert_eq!(quality.failures, 0);
    quality.num_messages_received = u64::MAX;
    quality.register_message(1);
    assert_eq!(quality.num_messages_received, 0);
    quality.expecting_sync_blocks(1);
    assert!(quality.got_sync_block());
    assert!(!quality.got_sync_block());
    assert_eq!(quality.remaining_sync_blocks, u32::MAX);
    quality.cancel_syncing();
    assert_eq!(quality.remaining_sync_blocks, 0);
    assert_eq!(quality.failures, 1);
}

#[test]
fn low_quality_peers_are_listed_but_for_bootnodes() {
    let mut node = node_with(vec![address(3)], 1, 10, false);
    for i in 1..=4 {
        connect(&mut node, i, 1_000);
    }
    for _ in 0..3 {
        node.peer_book.register_failure(address(1));
        node.peer_book.register_failure(address(3));
    }
    node.peer_book.sending_ping_at(address(2), 1_000);
    node.peer_book.received_pong_at(address(2), 2_501);
    let mut low = node.low_quality_peers(2_600);
    low.sort_by_key(|a| a.ip() == address(2).ip());
    assert_eq!(low, vec![address(1), address(2)]);
    let mut silent = node.low_quality_peers(31_001);
    silent.sort_by_key(|a| match a.ip() {
        snarkos_network::address::IpAddress::V4(n) => n,
        snarkos_network::address::IpAddress::V6(_) => 0,
    });
    assert_eq!(silent, vec![address(1), address(2), address(4)]);
}

#[test]
fn maintenance_counts_follow_the_role() {
    let mut regular = node_with(vec![], 3, 4, false);
    assert_eq!(regular.maintenance_counts(), (0, 3));
    for i in 1..=6 {
        connect(&mut regular, i, 1);
    }
    regular.peer_book.set_connecting(address(9)).unwrap();
    assert_eq!(regular.maintenance_counts(), (2, 0));
    let mut few = node_with(vec![], 5, 9, false);
    connect(&mut few, 1, 1);
    few.peer_book.set_connecting(address(9)).unwrap();
    assert_eq!(few.maintenance_counts(), (0, 3));

    let mut boot = node_with(vec![], 2, 10, true);
    assert_eq!(boot.maintenance_counts(), (0, 6));
    for i in 1..=5 {
        connect(&mut boot, i, 1);
    }
    assert_eq!(boot.maintenance_counts(), (3, 6));
    let tight = node_with(vec![], 6, 10, true);
    assert_eq!(tight.maintenance_counts(), (0, 0));
}

#[test]
fn regular_node_sheds_the_most_recently_connected() {
    let mut node = node_with(vec![], 1, 10, false);
    connect(&mut node, 1, 300);
    connect(&mut node, 2, 100);
    connect(&mut node, 3, 400);
    connect(&mut node, 4, 200);
    assert_eq!(node.peers_to_shed(0), vec![]);
    assert_eq!(node.peers_to_shed(2), vec![address(3), address(1)]);
    assert_eq!(
        node.peers_to_shed(9),
        vec![address(3), address(1), address(4), address(2)]
    );
    let mut boot = node_with(vec![], 1, 10, true);
    connect(&mut boot, 1, 300);
    connect(&mut boot, 2, 100);
    let shed = boot.peers_to_shed(1);
    assert_eq!(shed.len(), 1);
    assert!(boot.peer_book.is_connected(shed[0]));
}

#[test]
fn bootnodes_are_dialed_but_for_the_node_itself() {
    let node = node_with(vec![address(7), address(0), address(8)], 1, 10, false);
    assert_eq!(node.connect_to_bootnodes(), vec![address(7), address(8)]);
}

#[test]
fn disconnected_peers_are_sampled_without_self_and_bootnodes() {
    let mut node = node_with(vec![address(7)], 1, 10, false);
    for i in [0u8, 7, 20, 21, 22, 23] {
        node.peer_book.add_peer(address(i));
    }
    connect(&mut node, 30, 1);
    let picked = node.connect_to_disconnected_peers(3);
    assert_eq!(picked.len(), 3);
    for (i, peer) in picked.iter().enumerate() {
        assert!([address(20), address(21), address(22), address(23)].contains(peer));
        assert!(!picked[..i].contains(peer));
    }
    let mut all = node.connect_to_disconnected_peers(100);
    all.sort_by_key(|a| match a.ip() {
        snarkos_network::address::IpAddress::V4(n) => n,
        snarkos_network::address::IpAddress::V6(_) => 0,
    });
    assert_eq!(all, vec![address(20), address(21), address(22), address(23)]);
    assert_eq!(node.connect_to_disconnected_peers(0), vec![]);
}

#[test]
fn get_peers_is_asked_only_below_the_minimum() {
    let mut node = node_with(vec![], 2, 10, false);
    connect(&mut node, 1, 1);
    assert_eq!(node.broadcast_getpeers_requests(), vec![address(1)]);
    node.peer_book.set_connecting(address(2)).unwrap();
    assert_eq!(node.broadcast_getpeers_requests(), vec![]);
    let mut boot = node_with(vec![], 0, 10, true);
    connect(&mut boot, 1, 1);
    assert_eq!(boot.broadcast_getpeers_requests(), vec![address(1)]);
}

#[test]
fn pings_go_to_every_connected_peer() {
    let mut node = node_with(vec![], 2, 10, false);
    connect(&mut node, 1, 1);
    connect(&mut node, 2, 1);
    node.peer_book.add_peer(address(3));
    let mut pinged = node.broadcast_pings_at(77);
    pinged.sort_by_key(|a| a.ip() == address(2).ip());
    assert_eq!(pinged, vec![address(1), address(2)]);
    for i in 1..=2 {
        let quality = node.peer_book.peer_quality(address(i)).unwrap();
        assert!(quality.expecting_pong);
        assert_eq!(quality.last_ping_sent, Some(77));
    }
}

#[test]
fn isolated_node_dials_bootnodes_and_disconnected_peers() {
    let mut node = node_with(vec![address(7), address(8)], 2, 10, false);
    node.peer_book.add_peer(address(20));
    node.peer_book.add_peer(address(7));
    let actions = node.update_peers_at(5, 1_000);
    assert_eq!(
        actions,
        vec![
            Action::Dial(address(7)),
            Action::Dial(address(8)),
            Action::Dial(address(20)),
        ]
    );
}

#[test]
fn maintenance_drops_bad_peers_and_pings_the_rest() {
    let mut node = node_with(vec![], 1, 10, false);
    connect(&mut node, 1, 1_000);
    connect(&mut node, 2, 1_000);
    for _ in 0..3 {
        node.peer_book.register_failure(address(2));
    }
    let actions = node.update_peers_at(42, 2_000);
    assert_eq!(actions, vec![Action::SendPing(address(1), 42)]);
    assert!(node.peer_book.is_connected(address(1)));
    assert!(node.peer_book.is_disconnected(address(2)));
    assert!(!node.channels.contains(address(2)));
    assert!(node.peer_book.peer_quality(address(1)).unwrap().expecting_pong);
    assert_eq!(node.peer_book.take_released_tasks().len(), 2);
}

#[test]
fn maintenance_sheds_down_to_the_maximum() {
    let mut node = node_with(vec![], 3, 2, false);
    connect(&mut node, 1, 1_000);
    connect(&mut node, 2, 3_000);
    connect(&mut node, 3, 2_000);
    let actions = node.update_peers_at(9, 3_500);
    assert!(node.peer_book.is_connected(address(1)));
    assert!(node.peer_book.is_disconnected(address(2)));
    assert!(node.peer_book.is_connected(address(3)));
    assert_eq!(actions.len(), 4);
    assert!(actions.contains(&Action::SendGetPeers(address(1))));
    assert!(actions.contains(&Action::SendGetPeers(address(3))));
    assert!(actions.contains(&Action::SendPing(address(1), 9)));
    assert!(actions.contains(&Action::SendPing(address(3), 9)));
    assert!(matches!(actions[0], Action::SendGetPeers(_)));
    assert!(matches!(actions[3], Action::SendPing(_, 9)));
}

#[test]
fn bootnode_maintenance_keeps_room_for_newcomers() {
    let mut boot = node_with(vec![], 1, 4, true);
    connect(&mut boot, 1, 1_000);
    connect(&mut boot, 2, 1_000);
    boot.peer_book.add_peer(address(20));
    let actions = boot.update_peers_at(0, 1_500);
    assert_eq!(boot.peer_book.number_of_connected_peers(), 1);
    let left = boot.connected_peers()[0];
    assert_eq!(actions.len(), 4);
    assert!(actions.contains(&Action::SendGetPeers(left)));
    assert!(actions.contains(&Action::SendPing(left, 0)));
    let dialed: Vec<&Action> = actions
        .iter()
        .filter(|a| matches!(a, Action::Dial(_)))
        .collect();
    assert_eq!(dialed.len(), 2);
}

#[test]
fn maintenance_by_the_clock_keeps_fresh_peers() {
    let mut node = node_with(vec![], 1, 10, false);
    node.set_connected(address(1), address(1)).unwrap();
    let actions = node.update_peers(3);
    assert_eq!(actions, vec![Action::SendPing(address(1), 3)]);
    assert!(node.peer_book.is_connected(address(1)));
}

#[test]
fn maintenance_runs_before_the_address_is_known() {
    let environment = Environment::new(None, vec![address(7), address(8)], 2, 10, false, 2);
    let mut node = Node::with_id(1, environment);
    node.peer_book.add_peer(address(20));
    assert_eq!(node.connect_to_bootnodes(), vec![address(7), address(8)]);
    assert_eq!(node.connect_to_disconnected_peers(5), vec![address(20)]);
    let actions = node.update_peers_at(5, 1_000);
    assert_eq!(
        actions,
        vec![
            Action::Dial(address(7)),
            Action::Dial(address(8)),
            Action::Dial(address(20)),
        ]
    );
}

#[test]
fn bootnode_sheds_connected_peers_only() {
    let mut boot = node_with(vec![], 1, 10, true);
    for i in 1..=6 {
        connect(&mut boot, i, 100 * i as i64);
    }
    boot.peer_book.add_peer(address(30));
    let shed = boot.peers_to_shed(4);
    assert_eq!(shed.len(), 4);
    for (i, peer) in shed.iter().enumerate() {
        assert!(boot.peer_book.is_connected(*peer));
        assert!(!shed[..i].contains(peer));
    }
    assert_eq!(boot.peers_to_shed(9).len(), 6);
    assert_eq!(boot.peers_to_shed(0), vec![]);
}

#[test]
fn low_quality_peer_is_dropped_by_maintenance() {
    let mut node = node_with(vec![], 1, 10, false);
    connect(&mut node, 1, 1_000);
    connect(&mut node, 2, 1_000);
    for _ in 0..3 {
        node.peer_book.register_failure(address(1));
    }
    node.update_peers_at(0, 1_500);
    assert!(!node.peer_book.is_connected(address(1)));
    assert!(!node.peer_book.is_connecting(address(1)));
    assert!(node.peer_book.is_disconnected(address(1)));
    assert!(node.peer_book.is_connected(address(2)));
}
