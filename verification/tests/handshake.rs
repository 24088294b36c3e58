use snarkos_network::errors::NetworkError;
use snarkos_network::handshake::{
    check_peer_version, conclude_handshake, handshake_next, handshake_psk,
    handshake_timeout_secs, initiator_start, read_peer_version, responder_start,
    segment_length, segment_prefix, HandshakeCounter, HandshakeOutcome, HandshakeState,
    HandshakeStep, HANDSHAKE_PATTERN, MAX_BLOCK_SYNC_COUNT, MAX_MESSAGE_SIZE, NOISE_BUF_LEN,
    NOISE_TAG_LEN, PROTOCOL_VERSION, SHARED_PEER_COUNT,
};
use snarkos_network::version::Version;

#[test]
fn protocol_constants() {
    assert_eq!(HANDSHAKE_PATTERN, "Noise_XXpsk3_25519_ChaChaPoly_SHA256");
    assert_eq!(&handshake_psk()[..], b"b765e427e836e0029a1e2a22ba60c52a");
    assert_eq!(MAX_MESSAGE_SIZE, 8 * 1024 * 1024);
    assert_eq!(NOISE_BUF_LEN, 65535);
    assert_eq!(NOISE_TAG_LEN, 16);
    assert_eq!(MAX_BLOCK_SYNC_COUNT, 250);
    assert_eq!(SHARED_PEER_COUNT, 25);
}

#[test]
fn handshake_deadline_is_longer_for_bootnodes() {
    assert_eq!(handshake_timeout_secs(true), 10);
    assert_eq!(handshake_timeout_secs(false), 5);
}

#[test]
fn peer_version_is_checked_for_self_first() {
    let own_id = 77;
    let good = Version::new(PROTOCOL_VERSION, 4131, 78);
    let own = Version::new(PROTOCOL_VERSION, 4131, own_id);
    let old = Version::new(PROTOCOL_VERSION + 1, 4131, 78);
    let own_and_old = Version::new(PROTOCOL_VERSION + 1, 4131, own_id);
    assert_eq!(check_peer_version(own_id, &good), Ok(()));
    assert_eq!(
        check_peer_version(own_id, &own),
        Err(NetworkError::SelfConnectAttempt)
    );
    assert_eq!(
        check_peer_version(own_id, &old),
        Err(NetworkError::InvalidHandshake)
    );
    assert_eq!(
        check_peer_version(own_id, &own_and_old),
        Err(NetworkError::SelfConnectAttempt)
    );
}

#[test]
fn segment_of_no_bytes_is_refused() {
    assert_eq!(segment_length(0), Err(NetworkError::InvalidHandshake));
    assert_eq!(segment_length(1), Ok(1));
    assert_eq!(segment_length(255), Ok(255));
    assert_eq!(segment_prefix(0), Err(NetworkError::InvalidHandshake));
    assert_eq!(segment_prefix(48), Ok(48));
    assert_eq!(segment_prefix(255), Ok(255));
    assert_eq!(segment_prefix(256), Err(NetworkError::InvalidHandshake));
}

#[test]
fn initiator_walks_through_the_handshake() {
    let own_id = 1;
    assert_eq!(
        initiator_start(),
        HandshakeStep::SendEmpty(HandshakeState::AwaitingEEsEs)
    );
    let theirs = Version::new(PROTOCOL_VERSION, 4132, 2);
    let payload = theirs.serialize().unwrap();
    assert_eq!(
        handshake_next(HandshakeState::AwaitingEEsEs, own_id, &payload),
        Ok((
            Some(HandshakeStep::SendVersion(HandshakeState::Transport)),
            Some(theirs)
        ))
    );
    assert_eq!(
        handshake_next(HandshakeState::AwaitingEEsEs, 2, &payload),
        Err(NetworkError::SelfConnectAttempt)
    );
    assert_eq!(
        handshake_next(HandshakeState::AwaitingEEsEs, own_id, &payload[..13]),
        Err(NetworkError::InvalidHandshake)
    );
    assert_eq!(
        handshake_next(HandshakeState::Transport, own_id, &payload),
        Err(NetworkError::InvalidHandshake)
    );
}

#[test]
fn responder_walks_through_the_handshake() {
    let own_id = 2;
    assert_eq!(responder_start(), HandshakeState::AwaitingE);
    assert_eq!(
        handshake_next(HandshakeState::AwaitingE, own_id, &[]),
        Ok((
            Some(HandshakeStep::SendVersion(HandshakeState::AwaitingSSePsk)),
            None
        ))
    );
    let theirs = Version::new(PROTOCOL_VERSION, 4131, 1);
    let payload = theirs.serialize().unwrap();
    assert_eq!(
        handshake_next(HandshakeState::AwaitingSSePsk, own_id, &payload),
        Ok((None, Some(theirs)))
    );
    let other = Version::new(PROTOCOL_VERSION + 5, 4131, 1).serialize().unwrap();
    assert_eq!(
        handshake_next(HandshakeState::AwaitingSSePsk, own_id, &other),
        Err(NetworkError::InvalidHandshake)
    );
    assert_eq!(
        read_peer_version(own_id, &payload),
        Ok(theirs)
    );
}

#[test]
fn handshake_outcomes_map_to_results_and_counters() {
    assert_eq!(
        conclude_handshake(HandshakeOutcome::Completed),
        (Ok(()), HandshakeCounter::Success)
    );
    assert_eq!(
        conclude_handshake(HandshakeOutcome::Failed(NetworkError::PeerIsDisconnected)),
        (
            Err(NetworkError::PeerIsDisconnected),
            HandshakeCounter::Failure
        )
    );
    assert_eq!(
        conclude_handshake(HandshakeOutcome::Failed(NetworkError::SelfConnectAttempt)),
        (
            Err(NetworkError::SelfConnectAttempt),
            HandshakeCounter::Failure
        )
    );
    assert_eq!(
        conclude_handshake(HandshakeOutcome::Aborted),
        (Err(NetworkError::InvalidHandshake), HandshakeCounter::Failure)
    );
    assert_eq!(
        conclude_handshake(HandshakeOutcome::TimedOut),
        (Err(NetworkError::HandshakeTimeout), HandshakeCounter::Timeout)
    );
}
