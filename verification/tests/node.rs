use snarkos_network::address::{IpAddress, PeerAddress};
use snarkos_network::environment::Environment;
use snarkos_network::errors::NetworkError;
use snarkos_network::handshake::{fits_message_size, listener_address, MAX_MESSAGE_SIZE};
use snarkos_network::message::{Direction, Message, Payload};
use snarkos_network::node::Node;
use snarkos_network::peer_info::{PeerTask, TaskAction};
use snarkos_network::version::Version;

const N: usize = 5;

fn address(i: usize) -> PeerAddress {
    PeerAddress::new_v4(10, 0, 0, (i + 1) as u8, 4131)
}

fn test_node(i: usize, min_peers: u16, max_peers: u16) -> Node {
    let environment = Environment::new(Some(address(i)), vec![], min_peers, max_peers, false, 2);
    Node::with_id(i as u64 + 1, environment)
}

fn test_nodes(n: usize) -> Vec<Node> {
    (0..n).map(|i| test_node(i, 1, 50)).collect()
}

fn connect(nodes: &mut Vec<Node>, i: usize, j: usize) {
    let a = address(i);
    let b = address(j);
    assert_eq!(nodes[i].initiate_connection(b), Ok(5));
    nodes[i].set_connected_at(b, b, 100).unwrap();
    nodes[j]
        .set_connected_at(PeerAddress::new(a.ip(), 50_000), a, 100)
        .unwrap();
}

#[test]
fn line() {
    let mut nodes = test_nodes(N);
    for i in 0..N - 1 {
        connect(&mut nodes, i, i + 1);
    }
    assert_eq!(nodes.first().unwrap().peer_book.number_of_connected_peers(), 1);
    assert_eq!(nodes.last().unwrap().peer_book.number_of_connected_peers(), 1);
    for i in 1..(nodes.len() - 1) {
        assert_eq!(nodes[i].peer_book.number_of_connected_peers(), 2);
    }
}

#[test]
fn topologies_of_ten_nodes() {
    let n = 10;
    let mut line = test_nodes(n);
    let mut ring = test_nodes(n);
    let mut mesh = test_nodes(n);
    let mut star = test_nodes(n);
    for i in 0..n {
        if i + 1 < n {
            connect(&mut line, i, i + 1);
        }
        connect(&mut ring, i, (i + 1) % n);
        for j in i + 1..n {
            connect(&mut mesh, i, j);
        }
        if i > 0 {
            connect(&mut star, 0, i);
        }
    }
    for i in 0..n {
        let ends = i == 0 || i == n - 1;
        assert_eq!(
            line[i].peer_book.number_of_connected_peers(),
            if ends { 1 } else { 2 }
        );
        assert_eq!(ring[i].peer_book.number_of_connected_peers(), 2);
        assert_eq!(mesh[i].peer_book.number_of_connected_peers(), 9);
        assert_eq!(
            star[i].peer_book.number_of_connected_peers(),
            if i == 0 { 9 } else { 1 }
        );
        assert_eq!(mesh[i].channels.len(), 9);
        for peer in mesh[i].peer_book.connected_peers() {
            assert_eq!(peer.tasks().len(), 2);
        }
    }
}

#[test]
fn ring() {
    let mut nodes = test_nodes(N);
    for i in 0..N {
        connect(&mut nodes, i, (i + 1) % N);
    }
    for node in &nodes {
        assert_eq!(node.peer_book.number_of_connected_peers(), 2);
    }
}

#[test]
fn mesh() {
    let mut nodes = test_nodes(N);
    for i in 0..N {
        for j in i + 1..N {
            connect(&mut nodes, i, j);
        }
    }
    for node in &nodes {
        assert_eq!(node.peer_book.number_of_connected_peers() as usize, N - 1);
    }
}

#[test]
fn star() {
    let mut nodes = test_nodes(N);
    for i in 1..N {
        connect(&mut nodes, 0, i);
    }
    let hub = nodes.first().unwrap();
    assert_eq!(hub.peer_book.number_of_connected_peers() as usize, N - 1);
    for leaf in &nodes[1..] {
        assert_eq!(leaf.peer_book.number_of_connected_peers(), 1);
    }
}

#[test]
fn new_node_knows_no_peer() {
    let environment = Environment::new(None, vec![address(7)], 1, 5, true, 30);
    let node = Node::new(environment).unwrap();
    assert_eq!(node.local_address(), None);
    assert_eq!(node.peer_book.number_of_connected_peers(), 0);
    assert_eq!(node.peer_book.number_of_connecting_peers(), 0);
    assert_eq!(node.peer_book.number_of_disconnected_peers(), 0);
    assert!(node.connected_peers().is_empty());
    assert!(node.network_topology.is_none());
    assert!(node.environment.is_bootnode());
    assert_eq!(node.environment.peer_sync_interval_secs(), 30);
    assert!(node.environment.has_bootnode(address(7)));
    assert!(!node.environment.has_bootnode(address(8)));
}

#[test]
fn can_connect_counts_connected_and_connecting() {
    let mut node = test_node(0, 1, 3);
    assert!(node.can_connect());
    node.set_connected_at(address(1), address(1), 1).unwrap();
    assert!(node.can_connect());
    node.initiate_connection(address(2)).unwrap();
    assert!(node.can_connect());
    node.initiate_connection(address(3)).unwrap();
    assert!(!node.can_connect());
    node.disconnect_from_peer_at(address(3), 2);
    assert!(node.can_connect());
    let none = test_node(0, 0, 0);
    assert!(!none.can_connect());
}

#[test]
fn initiate_connection_refuses_in_order() {
    let bootnode = address(9);
    let environment = Environment::new(Some(address(0)), vec![bootnode], 1, 2, false, 2);
    let mut node = Node::with_id(1, environment);

    assert_eq!(
        node.initiate_connection(address(0)),
        Err(NetworkError::SelfConnectAttempt)
    );
    assert_eq!(
        node.initiate_connection(PeerAddress::new_v4(127, 0, 0, 1, 4131)),
        Err(NetworkError::SelfConnectAttempt)
    );
    assert_eq!(
        node.initiate_connection(PeerAddress::new_v4(0, 0, 0, 0, 4131)),
        Err(NetworkError::SelfConnectAttempt)
    );
    assert_eq!(
        node.initiate_connection(PeerAddress::new(IpAddress::V6(1), 4131)),
        Err(NetworkError::SelfConnectAttempt)
    );
    assert_eq!(
        node.initiate_connection(PeerAddress::new_v4(127, 0, 0, 1, 4132)),
        Ok(5)
    );
    assert!(node
        .peer_book
        .is_connecting(PeerAddress::new_v4(127, 0, 0, 1, 4132)));
    node.disconnect_from_peer_at(PeerAddress::new_v4(127, 0, 0, 1, 4132), 0);

    assert_eq!(node.initiate_connection(bootnode), Ok(10));
    assert_eq!(
        node.initiate_connection(bootnode),
        Err(NetworkError::PeerAlreadyConnecting)
    );
    node.set_connected_at(bootnode, bootnode, 1).unwrap();
    assert_eq!(
        node.initiate_connection(bootnode),
        Err(NetworkError::PeerAlreadyConnected)
    );
    node.set_connected_at(address(1), address(1), 1).unwrap();
    assert_eq!(
        node.initiate_connection(address(0)),
        Err(NetworkError::TooManyConnections)
    );
    assert_eq!(
        node.initiate_connection(address(2)),
        Err(NetworkError::TooManyConnections)
    );
    assert!(!node.peer_book.is_connecting(address(2)));
}

#[test]
fn set_connected_registers_queue_and_two_tasks() {
    let mut node = test_node(0, 1, 5);
    let socket = PeerAddress::new_v4(10, 0, 0, 2, 50_000);
    let listener = address(1);
    node.peer_book.set_connecting(socket).unwrap();
    assert_eq!(node.set_connected_at(socket, listener, 10), Ok((0, 1)));
    assert!(node.peer_book.is_connected(listener));
    assert!(!node.peer_book.is_connecting(socket));
    assert!(node.channels.contains(listener));
    assert_eq!(node.channels.len(), 1);
    let info = node.peer_book.get_peer(listener, true).unwrap();
    assert_eq!(
        info.tasks(),
        vec![
            PeerTask { id: 0, abortable: true },
            PeerTask { id: 1, abortable: false }
        ]
    );
    assert_eq!(
        node.set_connected_at(socket, listener, 11),
        Err(NetworkError::PeerAlreadyConnected)
    );
    assert_eq!(node.set_connected(address(2), address(2)), Ok((2, 3)));
    assert_eq!(node.connected_peers().len(), 2);
}

#[test]
fn disconnect_from_peer_drops_queue_and_releases_tasks() {
    let mut node = test_node(0, 1, 5);
    node.set_connected_at(address(1), address(1), 10).unwrap();
    node.set_connected_at(address(2), address(2), 10).unwrap();
    node.initiate_connection(address(3)).unwrap();

    node.disconnect_from_peer_at(address(3), 20);
    assert!(!node.peer_book.is_connecting(address(3)));
    assert_eq!(node.channels.len(), 2);

    node.disconnect_from_peer_at(address(1), 20);
    assert!(node.peer_book.is_disconnected(address(1)));
    assert!(!node.channels.contains(address(1)));
    assert!(node.channels.contains(address(2)));
    assert_eq!(
        node.peer_book.take_released_tasks(),
        vec![TaskAction::AwaitShutdown(1), TaskAction::Abort(0)]
    );
    node.disconnect_from_peer(address(4));
    node.disconnect_from_peer(address(2));
    assert!(node.channels.to_vec().is_empty());
    assert_eq!(node.peer_book.number_of_connected_peers(), 0);
}

#[test]
fn failed_connection_demotes_only_after_invalid_handshake() {
    let mut node = test_node(0, 1, 5);
    for i in 1..=4 {
        node.peer_book.add_peer(address(i));
        node.initiate_connection(address(i)).unwrap();
    }
    node.connection_failed_at(address(1), NetworkError::InvalidHandshake, 5);
    node.connection_failed_at(address(2), NetworkError::HandshakeTimeout, 5);
    node.connection_failed_at(address(3), NetworkError::TooManyConnections, 5);
    node.connection_failed(address(4), NetworkError::SelfConnectAttempt);

    assert!(!node.peer_book.is_connecting(address(1)));
    assert!(!node.peer_book.get_peer(address(1), false).unwrap().is_routable());
    assert!(!node.peer_book.is_connecting(address(2)));
    assert!(node.peer_book.get_peer(address(2), false).unwrap().is_routable());
    assert!(!node.peer_book.is_connecting(address(3)));
    assert!(node.peer_book.get_peer(address(3), false).unwrap().is_routable());
    assert!(!node.peer_book.is_connecting(address(4)));
    assert!(node.peer_book.get_peer(address(4), false).unwrap().is_routable());
    assert_eq!(node.peer_book.number_of_connecting_peers(), 0);
    assert!(node.can_connect());
}

#[test]
fn failure_after_the_peer_connected_by_another_way_keeps_the_connection() {
    let mut node = test_node(0, 1, 5);
    node.initiate_connection(address(1)).unwrap();
    node.set_connected_at(PeerAddress::new_v4(10, 0, 0, 2, 50_000), address(1), 3)
        .unwrap();
    assert!(!node.peer_book.is_connecting(address(1)));
    assert_eq!(
        node.set_connected_at(address(1), address(1), 4),
        Err(NetworkError::PeerAlreadyConnected)
    );
    node.connection_failed_at(address(1), NetworkError::PeerAlreadyConnected, 5);
    assert!(node.peer_book.is_connected(address(1)));
    assert!(node.channels.contains(address(1)));

    node.initiate_connection(address(2)).unwrap();
    node.connection_failed_at(address(2), NetworkError::SelfConnectAttempt, 6);
    assert!(!node.peer_book.is_connecting(address(2)));
    assert!(!node.peer_book.is_disconnected(address(2)));
    node.initiate_connection(address(3)).unwrap();
    node.abandon_handshake(address(3));
    assert!(!node.peer_book.is_connecting(address(3)));
}

#[test]
fn refused_connection_leaves_the_node_as_it_was() {
    let mut node = test_node(0, 1, 1);
    node.peer_book.add_peer(address(2));
    node.set_connected_at(address(1), address(1), 1).unwrap();
    assert_eq!(
        node.initiate_connection(address(2)),
        Err(NetworkError::TooManyConnections)
    );
    assert!(!node.peer_book.is_connecting(address(2)));
    assert!(node.peer_book.is_disconnected(address(2)));
    assert!(node.peer_book.get_peer(address(2), false).unwrap().is_routable());
}

#[test]
fn send_peers_names_at_most_twenty_five_other_connected_peers() {
    let mut node = test_node(0, 1, 100);
    let asking = PeerAddress::new_v4(10, 1, 0, 1, 4131);
    node.set_connected_at(asking, asking, 1).unwrap();
    for i in 0..3u8 {
        let peer = PeerAddress::new_v4(10, 2, 0, i, 4131);
        node.set_connected_at(peer, peer, 1).unwrap();
    }
    let mut few = node.send_peers(asking);
    few.sort_by_key(|a| a.ip() == IpAddress::V4(0x0a02_0000));
    assert_eq!(few.len(), 3);
    assert!(!few.contains(&asking));

    for i in 3..40u8 {
        let peer = PeerAddress::new_v4(10, 2, 0, i, 4131);
        node.set_connected_at(peer, peer, 1).unwrap();
    }
    let many = node.send_peers(asking);
    assert_eq!(many.len(), 25);
    assert!(!many.contains(&asking));
    for (i, peer) in many.iter().enumerate() {
        assert!(node.peer_book.is_connected(*peer));
        assert!(!many[..i].contains(peer));
    }
}

#[test]
fn inbound_peers_become_disconnected_and_update_topology() {
    let mut node = test_node(0, 1, 5);
    node.track_topology();
    let source = address(1);
    node.set_connected_at(source, source, 1).unwrap();
    node.peer_book.set_connecting(address(2)).unwrap();
    node.process_inbound_peers(
        source,
        vec![address(0), address(1), address(2), address(3), address(3)],
    );
    assert!(!node.peer_book.is_disconnected(address(0)));
    assert!(!node.peer_book.is_disconnected(address(1)));
    assert!(!node.peer_book.is_disconnected(address(2)));
    assert!(node.peer_book.is_disconnected(address(3)));
    assert_eq!(node.peer_book.number_of_disconnected_peers(), 1);
    let topology = node.network_topology.as_ref().unwrap();
    assert_eq!(topology.len(), 4);
}

#[test]
fn messages_without_a_queue_are_dropped_and_counted() {
    let mut node = test_node(0, 1, 5);
    node.set_connected_at(address(1), address(1), 1).unwrap();
    let ping = Message::new(Direction::Outbound(address(1)), Payload::Ping(3));
    assert_eq!(node.send_request(&ping), Some(address(1)));
    assert_eq!(node.dropped_messages, 0);
    let lost = Message::new(Direction::Outbound(address(2)), Payload::Pong);
    assert_eq!(node.send_request(&lost), None);
    assert_eq!(node.dropped_messages, 1);
    let inward = Message::new(Direction::Internal, Payload::GetPeers);
    assert_eq!(node.send_request(&inward), None);
    let incoming = Message::new(Direction::Inbound(address(1)), Payload::GetPeers);
    assert_eq!(node.send_request(&incoming), None);
    node.message_dropped();
    assert_eq!(node.dropped_messages, 4);
    node.dropped_messages = u64::MAX;
    node.message_dropped();
    assert_eq!(node.dropped_messages, u64::MAX);
    node.disconnect_from_peer_at(address(1), 2);
    assert_eq!(node.send_request(&ping), None);
}

#[test]
fn listener_is_the_remote_ip_with_the_advertised_port() {
    let socket = PeerAddress::new_v4(10, 0, 0, 9, 51_000);
    let version = Version::new(1, 4131, 5);
    assert_eq!(
        listener_address(socket, &version),
        PeerAddress::new_v4(10, 0, 0, 9, 4131)
    );
    let v6 = PeerAddress::new(IpAddress::V6(0xfe80_0000_0000_0000_0000_0000_0000_0001), 1);
    assert_eq!(
        listener_address(v6, &version),
        PeerAddress::new(IpAddress::V6(0xfe80_0000_0000_0000_0000_0000_0000_0001), 4131)
    );
}

#[test]
fn message_size_limit_is_eight_mebibytes() {
    assert!(fits_message_size(0));
    assert!(fits_message_size(MAX_MESSAGE_SIZE));
    assert!(!fits_message_size(MAX_MESSAGE_SIZE + 1));
}

#[test]
fn loopback_and_unspecified_addresses() {
    assert!(IpAddress::V4(0x7f00_0001).is_loopback());
    assert!(IpAddress::V4(0x7fff_ffff).is_loopback());
    assert!(!IpAddress::V4(0x8000_0000).is_loopback());
    assert!(!IpAddress::V4(0x7eff_ffff).is_loopback());
    assert!(IpAddress::V6(1).is_loopback());
    assert!(!IpAddress::V6(2).is_loopback());
    assert!(IpAddress::V4(0).is_unspecified());
    assert!(IpAddress::V6(0).is_unspecified());
    assert!(!IpAddress::V4(1).is_unspecified());
    assert_eq!(
        PeerAddress::new_v4(127, 0, 0, 1, 4031).ip(),
        IpAddress::V4(0x7f00_0001)
    );
    assert!(IpAddress::V4(u32::MAX).lt(&IpAddress::V6(0)));
    assert!(!IpAddress::V6(0).lt(&IpAddress::V4(u32::MAX)));
    assert!(PeerAddress::new_v4(1, 1, 1, 1, 1).lt(&PeerAddress::new_v4(1, 1, 1, 1, 2)));
    assert!(!PeerAddress::new_v4(1, 1, 1, 1, 2).lt(&PeerAddress::new_v4(1, 1, 1, 1, 2)));
}

#[test]
fn local_address_is_set_once_it_is_known() {
    let mut node = Node::with_id(3, Environment::new(None, vec![], 1, 5, false, 2));
    assert_eq!(node.local_address(), None);
    node.environment.set_local_address(address(4));
    assert_eq!(node.local_address(), Some(address(4)));
    assert_eq!(node.environment.minimum_number_of_connected_peers(), 1);
    assert_eq!(node.environment.maximum_number_of_connected_peers(), 5);
    assert_eq!(node.id, 3);
}

#[test]
fn no_peer_is_connected_and_disconnected_at_once() {
    let mut node = test_node(0, 1, 50);
    let steps: Vec<(u8, usize)> = vec![
        (0, 1), (1, 1), (2, 1), (3, 1), (1, 2), (2, 2), (4, 1), (2, 1), (0, 2), (3, 2),
        (2, 2), (5, 1), (1, 1), (2, 1), (5, 2), (3, 1), (4, 2),
    ];
    for (step, i) in steps {
        let peer = address(i);
        match step {
            0 => node.peer_book.add_peer(peer),
            1 => {
                let _ = node.initiate_connection(peer);
            }
            2 => {
                let _ = node.set_connected_at(peer, peer, 7);
            }
            3 => node.disconnect_from_peer_at(peer, 8),
            4 => node.connection_failed_at(peer, NetworkError::InvalidHandshake, 9),
            _ => {
                node.disconnect_from_peer_at(peer, 10);
                node.peer_book.remove_peer_at(peer, 10);
            }
        }
        for j in 1..=2 {
            let a = address(j);
            let connected = node.peer_book.is_connected(a);
            let states = [
                node.peer_book.is_connecting(a),
                connected,
                node.peer_book.is_disconnected(a),
            ];
            assert!(states.iter().filter(|s| **s).count() <= 1);
            assert_eq!(connected, node.channels.contains(a));
            if connected {
                assert_eq!(node.peer_book.get_peer(a, true).unwrap().tasks().len(), 2);
            }
        }
    }
}

#[test]
fn peers_are_taken_in_before_the_address_is_known() {
    let mut node = Node::with_id(3, Environment::new(None, vec![], 1, 5, false, 2));
    node.process_inbound_peers(address(1), vec![address(0), address(2)]);
    assert!(node.peer_book.is_disconnected(address(0)));
    assert!(node.peer_book.is_disconnected(address(2)));
    assert_eq!(node.peer_book.number_of_disconnected_peers(), 2);
}
