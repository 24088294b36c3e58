use snarkos_network::address::{IpAddress, PeerAddress};
use snarkos_network::connection::Connection;
use snarkos_network::topology::NetworkTopology;
use std::collections::hash_map::DefaultHasher;
use std::hash::{Hash, Hasher};

#[test]
fn connections_partial_eq() {
    let a = PeerAddress::new_v4(12, 34, 56, 78, 9000);
    let b = PeerAddress::new_v4(98, 76, 54, 32, 1000);

    assert_eq!(Connection((a, b)), Connection((b, a)));
    assert_eq!(Connection((a, b)), Connection((a, b)));
}

#[test]
fn connections_update() {
    let a = PeerAddress::new_v4(11, 11, 11, 11, 1000);
    let b = PeerAddress::new_v4(22, 22, 22, 22, 2000);
    let c = PeerAddress::new_v4(33, 33, 33, 33, 3000);

    let mut topology = NetworkTopology::new();

    // Insert two connections.
    topology.update(a, vec![b, c]);
    assert!(topology.contains(&Connection((a, b))));
    assert!(topology.contains(&Connection((a, c))));

    // Insert (a, b) connection reversed, make sure it doesn't change the list.
    topology.update(b, vec![a]);
    assert!(topology.len() == 2);

    // Update c connections but don't include (c, a) == (a, c) and expect it to be removed.
    topology.update(c, vec![b]);
    assert!(!topology.contains(&Connection((a, c))));
    assert!(topology.contains(&Connection((c, b))));
}

#[test]
fn connections_hash() {
    let a = PeerAddress::new_v4(11, 11, 11, 11, 1000);
    let b = PeerAddress::new_v4(22, 22, 22, 22, 2000);

    let mut h1 = DefaultHasher::new();
    let mut h2 = DefaultHasher::new();

    let k1 = Connection((a, b));
    let k2 = Connection((b, a));

    k1.hash(&mut h1);
    k2.hash(&mut h2);

    // verify k1 == k2 => hash(k1) == hash(k2)
    assert_eq!(h1.finish(), h2.finish());
}

#[test]
fn connections_differ_when_an_end_differs() {
    let a = PeerAddress::new_v4(11, 11, 11, 11, 1000);
    let b = PeerAddress::new_v4(22, 22, 22, 22, 2000);
    let c = PeerAddress::new_v4(22, 22, 22, 22, 2001);
    assert_ne!(Connection((a, b)), Connection((a, c)));
    assert_ne!(Connection((a, b)), Connection((c, a)));
    assert_eq!(Connection((a, a)), Connection((a, a)));
}

#[test]
fn ordered_ends_put_the_smaller_address_first() {
    let a = PeerAddress::new_v4(11, 11, 11, 11, 1000);
    let b = PeerAddress::new_v4(11, 11, 11, 11, 999);
    let v6 = PeerAddress::new(IpAddress::V6(1), 1);
    assert_eq!(Connection((a, b)).ordered(), (b, a));
    assert_eq!(Connection((b, a)).ordered(), (b, a));
    assert_eq!(Connection((v6, a)).ordered(), (a, v6));
    assert_eq!(Connection((a, a)).ordered(), (a, a));
    assert!(Connection((a, b)).involves(a));
    assert!(!Connection((a, b)).involves(v6));
}

#[test]
fn update_leaves_links_of_other_peers_alone() {
    let a = PeerAddress::new_v4(1, 1, 1, 1, 1);
    let b = PeerAddress::new_v4(2, 2, 2, 2, 2);
    let c = PeerAddress::new_v4(3, 3, 3, 3, 3);
    let d = PeerAddress::new_v4(4, 4, 4, 4, 4);
    let mut topology = NetworkTopology::new();
    topology.update(a, vec![b]);
    topology.update(c, vec![d, b]);
    assert_eq!(topology.len(), 3);
    topology.update(a, vec![d]);
    assert_eq!(topology.len(), 3);
    assert!(!topology.contains(&Connection((a, b))));
    assert!(topology.contains(&Connection((d, a))));
    assert!(topology.contains(&Connection((c, d))));
    assert!(topology.contains(&Connection((b, c))));
    topology.update(c, vec![]);
    assert_eq!(topology.len(), 1);
    assert!(topology.contains(&Connection((a, d))));
}

#[test]
fn update_counts_a_repeated_peer_once_and_keeps_direction() {
    let a = PeerAddress::new_v4(1, 1, 1, 1, 1);
    let b = PeerAddress::new_v4(2, 2, 2, 2, 2);
    let mut topology = NetworkTopology::new();
    topology.update(b, vec![a, a]);
    assert_eq!(topology.len(), 1);
    topology.update(a, vec![b, b, b]);
    assert_eq!(topology.len(), 1);
    let links = topology.connections();
    assert_eq!(links[0].0, (b, a));
}
