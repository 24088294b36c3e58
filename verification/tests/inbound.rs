use snarkos_network::address::PeerAddress;
use snarkos_network::environment::Environment;
use snarkos_network::errors::NetworkError;
use snarkos_network::inbound::ConsensusStatus;
use snarkos_network::maintenance::Action;
use snarkos_network::message::{frame_header, frame_length, Direction, Message, Payload};
use snarkos_network::node::Node;

fn address(i: u8) -> PeerAddress {
    PeerAddress::new_v4(10, 0, 0, i, 4131)
}

fn node(is_bootnode: bool) -> Node {
    let environment = Environment::new(Some(address(0)), vec![], 1, 10, is_bootnode, 2);
    let mut node = Node::with_id(1, environment);
    node.set_connected_at(address(1), address(1), 0).unwrap();
    node
}

fn idle(height: u32) -> Option<ConsensusStatus> {
    Some(ConsensusStatus {
        is_syncing_blocks: false,
        should_sync_blocks: true,
        current_block_height: height,
    })
}

fn syncing() -> Option<ConsensusStatus> {
    Some(ConsensusStatus {
        is_syncing_blocks: true,
        should_sync_blocks: false,
        current_block_height: 0,
    })
}

fn inbound(from: u8, payload: Payload) -> Message {
    Message::new(Direction::Inbound(address(from)), payload)
}

fn internal(payload: Payload) -> Message {
    Message::new(Direction::Internal, payload)
}

#[test]
fn closed_queue_is_an_error() {
    let mut node = node(false);
    assert_eq!(
        node.process_incoming_message_at(None, None, 5),
        Err(NetworkError::ReceiverFailedToParse)
    );
    assert_eq!(
        node.process_incoming_message(None, idle(0)),
        Err(NetworkError::ReceiverFailedToParse)
    );
}

#[test]
fn bootnode_takes_in_get_peers_and_internal_messages_only() {
    let mut node = node(true);
    let ping = inbound(1, Payload::Ping(9));
    assert_eq!(node.process_incoming_message_at(Some(&ping), None, 5), Ok(vec![]));
    let quality = node.peer_book.peer_quality(address(1)).unwrap();
    assert_eq!(quality.block_height, 0);
    assert_eq!(quality.num_messages_received, 0);
    assert_eq!(quality.last_seen, Some(0));

    let block = inbound(1, Payload::Block(vec![1, 2, 3]));
    assert_eq!(node.process_incoming_message_at(Some(&block), None, 5), Ok(vec![]));

    let get_peers = inbound(1, Payload::GetPeers);
    assert_eq!(
        node.process_incoming_message_at(Some(&get_peers), None, 6),
        Ok(vec![Action::SendPeers(address(1))])
    );
    assert_eq!(
        node.peer_book.peer_quality(address(1)).unwrap().last_seen,
        Some(6)
    );

    let connecting = internal(Payload::ConnectingTo(address(2)));
    assert_eq!(
        node.process_incoming_message_at(Some(&connecting), None, 7),
        Ok(vec![])
    );
    assert!(node.peer_book.is_connecting(address(2)));
}

#[test]
fn inbound_message_updates_last_seen() {
    let mut node = node(false);
    let message = inbound(1, Payload::Unknown);
    assert_eq!(
        node.process_incoming_message_at(Some(&message), None, 123),
        Ok(vec![])
    );
    let quality = node.peer_book.peer_quality(address(1)).unwrap();
    assert_eq!(quality.last_seen, Some(123));
    assert_eq!(quality.num_messages_received, 1);
}

#[test]
fn internal_messages_drive_the_peer_book() {
    let mut node = node(false);
    let connecting = internal(Payload::ConnectingTo(address(2)));
    assert_eq!(
        node.process_incoming_message_at(Some(&connecting), None, 1),
        Ok(vec![])
    );
    assert!(node.peer_book.is_connecting(address(2)));

    let connected = internal(Payload::ConnectedTo(address(2), address(3)));
    assert_eq!(
        node.process_incoming_message_at(Some(&connected), None, 2),
        Ok(vec![])
    );
    assert!(!node.peer_book.is_connecting(address(2)));
    assert!(node.peer_book.is_connected(address(3)));

    let again = internal(Payload::ConnectingTo(address(3)));
    assert_eq!(
        node.process_incoming_message_at(Some(&again), None, 3),
        Err(NetworkError::PeerAlreadyConnected)
    );

    let disconnect = internal(Payload::Disconnect(address(1)));
    assert_eq!(
        node.process_incoming_message_at(Some(&disconnect), None, 4),
        Ok(vec![])
    );
    assert!(node.peer_book.is_disconnected(address(1)));
    assert!(!node.channels.contains(address(1)));
}

#[test]
fn connection_payloads_from_peers_change_nothing() {
    let mut node = node(false);
    for payload in [
        Payload::ConnectingTo(address(2)),
        Payload::ConnectedTo(address(2), address(2)),
        Payload::Disconnect(address(1)),
    ] {
        let message = inbound(1, payload);
        assert_eq!(
            node.process_incoming_message_at(Some(&message), None, 1),
            Ok(vec![])
        );
    }
    assert!(!node.peer_book.is_connecting(address(2)));
    assert!(!node.peer_book.is_connected(address(2)));
    assert!(node.peer_book.is_connected(address(1)));
}

#[test]
fn consensus_payloads_are_forwarded() {
    let mut node = node(false);
    let source = address(1);
    let cases = vec![
        (
            Payload::Transaction(vec![1]),
            vec![Action::ReceivedTransaction(source)],
        ),
        (Payload::Block(vec![2]), vec![Action::ReceivedBlock(source, true)]),
        (
            Payload::SyncBlock(vec![3]),
            vec![
                Action::ReceivedBlock(source, false),
                Action::GotSyncBlock(source),
            ],
        ),
        (
            Payload::GetBlocks(vec![[0u8; 32]]),
            vec![Action::ReceivedGetBlocks(source)],
        ),
        (Payload::GetMemoryPool, vec![Action::ReceivedGetMemoryPool(source)]),
        (Payload::MemoryPool(vec![vec![4]]), vec![Action::ReceivedMemoryPool]),
        (
            Payload::GetSync(vec![[1u8; 32]]),
            vec![Action::ReceivedGetSync(source)],
        ),
        (
            Payload::Sync(vec![[1u8; 32], [2u8; 32]]),
            vec![Action::ReceivedSync(source)],
        ),
    ];
    for (payload, expected) in cases {
        let message = inbound(1, payload);
        assert_eq!(
            node.process_incoming_message_at(Some(&message), idle(0), 1),
            Ok(expected)
        );
    }
    assert_eq!(
        node.peer_book.peer_quality(source).unwrap().remaining_sync_blocks,
        2
    );
}

#[test]
fn requests_are_held_back_while_syncing_blocks() {
    let mut node = node(false);
    let source = address(1);
    for payload in [
        Payload::GetBlocks(vec![]),
        Payload::GetMemoryPool,
        Payload::GetSync(vec![]),
    ] {
        let message = inbound(1, payload);
        assert_eq!(
            node.process_incoming_message_at(Some(&message), syncing(), 1),
            Ok(vec![])
        );
    }
    let block = inbound(1, Payload::Block(vec![]));
    assert_eq!(
        node.process_incoming_message_at(Some(&block), syncing(), 1),
        Ok(vec![Action::ReceivedBlock(source, true)])
    );
    let pool = inbound(1, Payload::MemoryPool(vec![]));
    assert_eq!(
        node.process_incoming_message_at(Some(&pool), syncing(), 1),
        Ok(vec![Action::ReceivedMemoryPool])
    );
}

#[test]
fn ping_is_answered_and_may_start_a_sync() {
    let mut node = node(false);
    let source = address(1);

    let ping = inbound(1, Payload::Ping(12));
    assert_eq!(
        node.process_incoming_message_at(Some(&ping), None, 1),
        Ok(vec![Action::SendPong(source)])
    );
    assert_eq!(node.peer_book.peer_quality(source).unwrap().block_height, 12);

    assert_eq!(
        node.process_incoming_message_at(Some(&ping), idle(10), 1),
        Ok(vec![
            Action::SendPong(source),
            Action::RegisterBlockSyncAttempt,
            Action::UpdateBlocks(source),
        ])
    );
    assert_eq!(
        node.process_incoming_message_at(Some(&ping), idle(11), 1),
        Ok(vec![Action::SendPong(source), Action::FinishedSyncingBlocks])
    );
    let unwilling = Some(ConsensusStatus {
        is_syncing_blocks: false,
        should_sync_blocks: false,
        current_block_height: 0,
    });
    assert_eq!(
        node.process_incoming_message_at(Some(&ping), unwilling, 1),
        Ok(vec![Action::SendPong(source), Action::FinishedSyncingBlocks])
    );
    node.peer_book.expecting_sync_blocks(source, 3);
    assert_eq!(
        node.process_incoming_message_at(Some(&ping), idle(0), 1),
        Ok(vec![Action::SendPong(source), Action::FinishedSyncingBlocks])
    );
    let top = inbound(1, Payload::Ping(u32::MAX));
    assert_eq!(
        node.process_incoming_message_at(Some(&top), idle(u32::MAX), 1),
        Ok(vec![Action::SendPong(source), Action::FinishedSyncingBlocks])
    );
}

#[test]
fn pong_records_round_trip() {
    let mut node = node(false);
    let source = address(1);
    node.peer_book.sending_ping_at(source, 1_000);
    let pong = inbound(1, Payload::Pong);
    assert_eq!(
        node.process_incoming_message_at(Some(&pong), None, 1_040),
        Ok(vec![])
    );
    let quality = node.peer_book.peer_quality(source).unwrap();
    assert_eq!(quality.rtt_ms, 40);
    assert!(!quality.expecting_pong);
    assert_eq!(
        node.process_incoming_message_at(Some(&pong), None, 1_050),
        Ok(vec![])
    );
    assert_eq!(node.peer_book.peer_quality(source).unwrap().failures, 1);
}

#[test]
fn peers_are_merged_into_the_disconnected_set() {
    let mut node = node(false);
    node.track_topology();
    let peers = inbound(1, Payload::Peers(vec![address(0), address(1), address(5)]));
    assert_eq!(
        node.process_incoming_message(Some(&peers), None),
        Ok(vec![])
    );
    assert!(node.peer_book.is_disconnected(address(5)));
    assert!(!node.peer_book.is_disconnected(address(0)));
    assert_eq!(node.peer_book.number_of_disconnected_peers(), 1);
    assert_eq!(node.network_topology.as_ref().unwrap().len(), 3);
}

#[test]
fn last_sync_block_finishes_the_sync() {
    let mut node = node(false);
    let source = address(1);
    node.peer_book.expecting_sync_blocks(source, 2);
    assert_eq!(node.got_sync_block(source), vec![]);
    assert_eq!(
        node.got_sync_block(source),
        vec![Action::FinishedSyncingBlocks]
    );
    assert_eq!(node.got_sync_block(source), vec![]);
    assert_eq!(node.got_sync_block(address(9)), vec![]);
}

#[test]
fn transactions_are_synced_with_the_last_seen_peer() {
    let mut node = node(false);
    node.set_connected_at(address(2), address(2), 50).unwrap();
    assert_eq!(node.update_transactions(None), None);
    assert_eq!(node.update_transactions(syncing()), None);
    assert_eq!(node.update_transactions(idle(0)), Some(Some(address(2))));
    node.disconnect_from_peer_at(address(1), 60);
    node.disconnect_from_peer_at(address(2), 60);
    assert_eq!(node.update_transactions(idle(0)), Some(None));
    let boot = self::node(true);
    assert_eq!(boot.update_transactions(idle(0)), None);
}

#[test]
fn frame_header_is_big_endian_length() {
    assert_eq!(frame_header(0x0102_0304), [1, 2, 3, 4]);
    assert_eq!(frame_header(16), [0, 0, 0, 16]);
    assert_eq!(frame_length(&[0, 0x80, 0, 0x10]), 8 * 1024 * 1024 + 16);
    assert_eq!(frame_length(&frame_header(u32::MAX)), u32::MAX);
}

#[test]
fn peers_are_merged_before_the_address_is_known() {
    let mut node = Node::with_id(1, Environment::new(None, vec![], 1, 10, false, 2));
    node.set_connected_at(address(1), address(1), 0).unwrap();
    let peers = inbound(1, Payload::Peers(vec![address(0), address(5)]));
    assert_eq!(
        node.process_incoming_message_at(Some(&peers), None, 1),
        Ok(vec![])
    );
    assert!(node.peer_book.is_disconnected(address(0)));
    assert!(node.peer_book.is_disconnected(address(5)));
    let ping = inbound(1, Payload::Ping(2));
    assert_eq!(
        node.process_incoming_message_at(Some(&ping), None, 2),
        Ok(vec![Action::SendPong(address(1))])
    );
}

#[test]
fn internal_connected_to_clears_both_addresses() {
    let mut node = node(false);
    node.peer_book.add_peer(address(3));
    let tell = |payload| internal(payload);
    let first = tell(Payload::ConnectingTo(address(2)));
    let second = tell(Payload::ConnectingTo(address(3)));
    let third = tell(Payload::ConnectedTo(address(2), address(3)));
    for message in [&first, &second, &third] {
        assert_eq!(
            node.process_incoming_message_at(Some(message), None, 1),
            Ok(vec![])
        );
    }
    assert!(node.peer_book.is_connected(address(3)));
    assert!(!node.peer_book.is_connecting(address(3)));
    assert!(!node.peer_book.is_disconnected(address(3)));
    assert!(!node.peer_book.is_connecting(address(2)));
}
