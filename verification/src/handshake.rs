//! The handshake that opens an encrypted connection: its constants, the
//! steps of both sides, the checks on the record of the other side, and what
//! the end of a handshake means for the connection attempt.

use crate::address::PeerAddress;
use crate::errors::NetworkError;
use crate::version::Version;
use vstd::prelude::*;

verus! {

/// The name of the handshake pattern.
pub const HANDSHAKE_PATTERN: &'static str = "Noise_XXpsk3_25519_ChaChaPoly_SHA256";

/// The place of the pre-shared key in the handshake pattern.
pub const HANDSHAKE_PSK_POSITION: u8 = 3;

/// The version of the protocol that this node speaks.
pub const PROTOCOL_VERSION: u32 = 2;

/// The time, in seconds, that a handshake with a bootnode may take.
pub const HANDSHAKE_BOOTNODE_TIMEOUT_SECS: u8 = 10;

/// The time, in seconds, that a handshake with another peer may take.
pub const HANDSHAKE_PEER_TIMEOUT_SECS: u8 = 5;

/// The size of the largest message, before encryption.
pub const MAX_MESSAGE_SIZE: usize = 8388608;

/// The size of the buffer that one handshake segment is read into.
pub const NOISE_BUF_LEN: usize = 65535;

/// The size of the tag that encryption adds to a message.
pub const NOISE_TAG_LEN: usize = 16;

/// The largest number of block hashes in one batch of a block sync.
pub const MAX_BLOCK_SYNC_COUNT: u32 = 250;

/// The largest number of peers that are named in answer to one `GetPeers`.
pub const SHARED_PEER_COUNT: usize = 25;

/// The number of bytes of the pre-shared key.
pub const HANDSHAKE_PSK_LEN: usize = 32;

/// The pre-shared key of the handshake: the thirty-two characters
/// `b765e427e836e0029a1e2a22ba60c52a`, each as one byte.
pub open spec fn spec_handshake_psk() -> Seq<u8> {
    seq![
        0x62u8, 0x37u8, 0x36u8, 0x35u8, 0x65u8, 0x34u8, 0x32u8, 0x37u8, 0x65u8, 0x38u8, 0x33u8,
        0x36u8, 0x65u8, 0x30u8, 0x30u8, 0x32u8, 0x39u8, 0x61u8, 0x31u8, 0x65u8, 0x32u8, 0x61u8,
        0x32u8, 0x32u8, 0x62u8, 0x61u8, 0x36u8, 0x30u8, 0x63u8, 0x35u8, 0x32u8, 0x61u8,
    ]
}

/// The pre-shared key of the handshake.
pub fn handshake_psk() -> (key: [u8; 32])
    ensures
        key@ == spec_handshake_psk(),
{
    let key: [u8; 32] = [
        0x62u8, 0x37u8, 0x36u8, 0x35u8, 0x65u8, 0x34u8, 0x32u8, 0x37u8, 0x65u8, 0x38u8, 0x33u8,
        0x36u8, 0x65u8, 0x30u8, 0x30u8, 0x32u8, 0x39u8, 0x61u8, 0x31u8, 0x65u8, 0x32u8, 0x61u8,
        0x32u8, 0x32u8, 0x62u8, 0x61u8, 0x36u8, 0x30u8, 0x63u8, 0x35u8, 0x32u8, 0x61u8,
    ];
    proof {
        assert(key@ =~= spec_handshake_psk());
    }
    key
}

/// How far a handshake has come. The one who begins it sends `e`, awaits
/// `e, ee, s, es` with the record of the other, and answers `s, se, psk` with
/// its own record; the other awaits `e`, answers, and awaits the third part.
#[derive(Clone, Copy, Debug, PartialEq, Eq, Structural)]
pub enum HandshakeState {
    /// The one who answers has sent nothing and awaits `e`.
    AwaitingE,
    /// The one who began has sent `e` and awaits `e, ee, s, es`.
    AwaitingEEsEs,
    /// The one who answers has sent `e, ee, s, es` and awaits `s, se, psk`.
    AwaitingSSePsk,
    /// The handshake is done: messages can be sent.
    Transport,
}

/// What one side of a handshake does next.
#[derive(Clone, Copy, Debug, PartialEq, Eq, Structural)]
pub enum HandshakeStep {
    /// Send a segment that carries no record, and go on in the state given.
    SendEmpty(HandshakeState),
    /// Send a segment that carries the record of this node, and go on in the
    /// state given.
    SendVersion(HandshakeState),
}

/// The time, in seconds, that a handshake may take with a peer that is a
/// bootnode, and with one that is not.
pub open spec fn spec_handshake_timeout_secs(with_bootnode: bool) -> u64 {
    if with_bootnode {
        HANDSHAKE_BOOTNODE_TIMEOUT_SECS as u64
    } else {
        HANDSHAKE_PEER_TIMEOUT_SECS as u64
    }
}

pub fn handshake_timeout_secs(with_bootnode: bool) -> (secs: u64)
    ensures
        secs == spec_handshake_timeout_secs(with_bootnode),
{
    if with_bootnode {
        HANDSHAKE_BOOTNODE_TIMEOUT_SECS as u64
    } else {
        HANDSHAKE_PEER_TIMEOUT_SECS as u64
    }
}

/// What is to be said of the record of the other side: a record with the
/// identifier of this node is this node itself, and a record of another
/// protocol version is not understood.
pub open spec fn spec_check_peer_version(own_id: u64, peer: Version) -> Result<(), NetworkError> {
    if peer.node_id == own_id {
        Err(NetworkError::SelfConnectAttempt)
    } else if peer.version != PROTOCOL_VERSION {
        Err(NetworkError::InvalidHandshake)
    } else {
        Ok(())
    }
}

pub fn check_peer_version(own_id: u64, peer: &Version) -> (r: Result<(), NetworkError>)
    ensures
        r == spec_check_peer_version(own_id, *peer),
{
    if peer.node_id == own_id {
        Err(NetworkError::SelfConnectAttempt)
    } else if peer.version != PROTOCOL_VERSION {
        Err(NetworkError::InvalidHandshake)
    } else {
        Ok(())
    }
}

/// The length of the handshake segment that the byte `prefix` announces. A
/// segment of no bytes is refused.
pub fn segment_length(prefix: u8) -> (r: Result<usize, NetworkError>)
    ensures
        prefix == 0 ==> r == Err::<usize, NetworkError>(NetworkError::InvalidHandshake),
        prefix != 0 ==> r == Ok::<usize, NetworkError>(prefix as usize),
{
    if prefix == 0 {
        Err(NetworkError::InvalidHandshake)
    } else {
        Ok(prefix as usize)
    }
}

/// The byte that announces a handshake segment of `len` bytes. A segment
/// that one byte cannot announce, or one of no bytes, is refused.
pub fn segment_prefix(len: usize) -> (r: Result<u8, NetworkError>)
    ensures
        0 < len <= 255 ==> r == Ok::<u8, NetworkError>(len as u8),
        !(0 < len <= 255) ==> r == Err::<u8, NetworkError>(NetworkError::InvalidHandshake),
{
    if len == 0 || len > 255 {
        Err(NetworkError::InvalidHandshake)
    } else {
        Ok(len as u8)
    }
}

/// The record that a handshake segment carried, if it is one that this node
/// with the identifier `own_id` accepts.
pub open spec fn spec_read_peer_version(own_id: u64, payload: Seq<u8>) -> Result<
    Version,
    NetworkError,
> {
    if payload.len() != crate::version::VERSION_LEN {
        Err(NetworkError::InvalidHandshake)
    } else {
        match spec_check_peer_version(own_id, Version::spec_deserialize(payload)) {
            Ok(_) => Ok(Version::spec_deserialize(payload)),
            Err(e) => Err(e),
        }
    }
}

/// Reads the record of the other side from the payload of a handshake
/// segment and checks it.
pub fn read_peer_version(own_id: u64, payload: &[u8]) -> (r: Result<Version, NetworkError>)
    ensures
        r == spec_read_peer_version(own_id, payload@),
{
    match Version::deserialize(payload) {
        Ok(version) => match check_peer_version(own_id, &version) {
            Ok(_) => Ok(version),
            Err(e) => Err(e),
        },
        Err(e) => Err(e),
    }
}

/// The address at which a peer listens that connected from `remote` and
/// whose record is `version`: the IP address it connected from, with the port
/// that it names.
pub fn listener_address(remote: PeerAddress, version: &Version) -> (listener: PeerAddress)
    ensures
        listener == (PeerAddress { ip: remote.ip, port: version.listening_port }),
{
    PeerAddress::new(remote.ip(), version.listening_port)
}

/// Whether a message of `len` bytes, before encryption, is one that may be
/// sent or received: it is not longer than `MAX_MESSAGE_SIZE`.
pub fn fits_message_size(len: usize) -> (r: bool)
    ensures
        r == (len <= MAX_MESSAGE_SIZE),
{
    len <= MAX_MESSAGE_SIZE
}

/// A payload that is the wire form of no record is refused as an invalid
/// handshake wherever a record is awaited, and nothing is sent in answer.
pub proof fn malformed_record_is_refused(own_id: u64, payload: Seq<u8>)
    requires
        forall|v: Version| v.spec_serialize() != payload,
    ensures
        spec_read_peer_version(own_id, payload) == Err::<Version, NetworkError>(
            NetworkError::InvalidHandshake,
        ),
        spec_handshake_next(HandshakeState::AwaitingEEsEs, own_id, payload) is Err,
        spec_handshake_next(HandshakeState::AwaitingSSePsk, own_id, payload) is Err,
{
    if payload.len() == crate::version::VERSION_LEN {
        crate::version::deserialize_round_trip(payload);
        assert(Version::spec_deserialize(payload).spec_serialize() == payload);
    }
}

/// The first step of the one who begins a handshake: `e` goes out.
pub fn initiator_start() -> (step: HandshakeStep)
    ensures
        step == HandshakeStep::SendEmpty(HandshakeState::AwaitingEEsEs),
{
    HandshakeStep::SendEmpty(HandshakeState::AwaitingEEsEs)
}

/// The state in which the one who answers a handshake starts.
pub fn responder_start() -> (state: HandshakeState)
    ensures
        state == HandshakeState::AwaitingE,
{
    HandshakeState::AwaitingE
}

/// What a side in `state` does when a segment with `payload` has come in.
pub open spec fn spec_handshake_next(state: HandshakeState, own_id: u64, payload: Seq<u8>) -> Result<
    (Option<HandshakeStep>, Option<Version>),
    NetworkError,
> {
    match state {
        HandshakeState::AwaitingE => Ok(
            (Some(HandshakeStep::SendVersion(HandshakeState::AwaitingSSePsk)), None),
        ),
        HandshakeState::AwaitingEEsEs => match spec_read_peer_version(own_id, payload) {
            Ok(v) => Ok((Some(HandshakeStep::SendVersion(HandshakeState::Transport)), Some(v))),
            Err(e) => Err(e),
        },
        HandshakeState::AwaitingSSePsk => match spec_read_peer_version(own_id, payload) {
            Ok(v) => Ok((None, Some(v))),
            Err(e) => Err(e),
        },
        HandshakeState::Transport => Err(NetworkError::InvalidHandshake),
    }
}

/// Takes in the payload of a handshake segment that has come in. Gives what
/// is to be sent in answer, if anything, and the record of the other side
/// where the segment carried it. After the second part the one who began
/// answers with its record and is done; after the third part the one who
/// answers is done. A segment that comes in when the handshake is done is
/// refused.
pub fn handshake_next(state: HandshakeState, own_id: u64, payload: &[u8]) -> (r: Result<
    (Option<HandshakeStep>, Option<Version>),
    NetworkError,
>)
    ensures
        r == spec_handshake_next(state, own_id, payload@),
{
    match state {
        HandshakeState::AwaitingE => Ok(
            (Some(HandshakeStep::SendVersion(HandshakeState::AwaitingSSePsk)), None),
        ),
        HandshakeState::AwaitingEEsEs => match read_peer_version(own_id, payload) {
            Ok(v) => Ok((Some(HandshakeStep::SendVersion(HandshakeState::Transport)), Some(v))),
            Err(e) => Err(e),
        },
        HandshakeState::AwaitingSSePsk => match read_peer_version(own_id, payload) {
            Ok(v) => Ok((None, Some(v))),
            Err(e) => Err(e),
        },
        HandshakeState::Transport => Err(NetworkError::InvalidHandshake),
    }
}

/// How a handshake that this node began has ended.
#[derive(Clone, Copy, Debug, PartialEq, Eq, Structural)]
pub enum HandshakeOutcome {
    /// The handshake ended well, within its time.
    Completed,
    /// The handshake ended within its time, with this error.
    Failed(NetworkError),
    /// The task of the handshake broke off.
    Aborted,
    /// The time of the handshake ran out.
    TimedOut,
}

/// The counter that notes how a handshake ended.
#[derive(Clone, Copy, Debug, PartialEq, Eq, Structural)]
pub enum HandshakeCounter {
    Success,
    Failure,
    Timeout,
}

/// The result of a connection attempt whose handshake ended with `outcome`: a
/// handshake that broke off counts as an invalid one.
pub open spec fn spec_handshake_result(outcome: HandshakeOutcome) -> Result<(), NetworkError> {
    match outcome {
        HandshakeOutcome::Completed => Ok(()),
        HandshakeOutcome::Failed(e) => Err(e),
        HandshakeOutcome::Aborted => Err(NetworkError::InvalidHandshake),
        HandshakeOutcome::TimedOut => Err(NetworkError::HandshakeTimeout),
    }
}

/// The counter that a handshake which ended with `outcome` adds to.
pub open spec fn spec_handshake_counter(outcome: HandshakeOutcome) -> HandshakeCounter {
    match outcome {
        HandshakeOutcome::Completed => HandshakeCounter::Success,
        HandshakeOutcome::Failed(_) => HandshakeCounter::Failure,
        HandshakeOutcome::Aborted => HandshakeCounter::Failure,
        HandshakeOutcome::TimedOut => HandshakeCounter::Timeout,
    }
}

/// Says what a handshake that ended with `outcome` means for the connection
/// attempt, and which counter it adds to.
pub fn conclude_handshake(outcome: HandshakeOutcome) -> (r: (
    Result<(), NetworkError>,
    HandshakeCounter,
))
    ensures
        r.0 == spec_handshake_result(outcome),
        r.1 == spec_handshake_counter(outcome),
{
    match outcome {
        HandshakeOutcome::Completed => (Ok(()), HandshakeCounter::Success),
        HandshakeOutcome::Failed(e) => (Err(e), HandshakeCounter::Failure),
        HandshakeOutcome::Aborted => (
            Err(NetworkError::InvalidHandshake),
            HandshakeCounter::Failure,
        ),
        HandshakeOutcome::TimedOut => (
            Err(NetworkError::HandshakeTimeout),
            HandshakeCounter::Timeout,
        ),
    }
}

} // verus!
