//! Messages between nodes, and the header that frames an encrypted message.

use crate::address::PeerAddress;
use vstd::prelude::*;

verus! {

/// Where a message comes from or goes to.
#[derive(Clone, Copy, Debug, PartialEq, Eq, Structural)]
pub enum Direction {
    /// The message came in from the peer.
    Inbound(PeerAddress),
    /// The message goes out to the peer.
    Outbound(PeerAddress),
    /// The message was made by the node for itself.
    Internal,
}

/// The hash of a block header.
pub type BlockHash = [u8; 32];

/// What a message says.
#[derive(Debug)]
pub enum Payload {
    Transaction(Vec<u8>),
    Block(Vec<u8>),
    SyncBlock(Vec<u8>),
    GetBlocks(Vec<BlockHash>),
    GetMemoryPool,
    MemoryPool(Vec<Vec<u8>>),
    GetSync(Vec<BlockHash>),
    Sync(Vec<BlockHash>),
    GetPeers,
    Peers(Vec<PeerAddress>),
    Ping(u32),
    Pong,
    ConnectingTo(PeerAddress),
    ConnectedTo(PeerAddress, PeerAddress),
    Disconnect(PeerAddress),
    Unknown,
}

/// A message with its direction.
#[derive(Debug)]
pub struct Message {
    pub direction: Direction,
    pub payload: Payload,
}

impl Direction {
    /// The peer that the message came from, if it came in.
    pub open spec fn spec_source(self) -> Option<PeerAddress> {
        match self {
            Direction::Inbound(a) => Some(a),
            _ => None,
        }
    }

    pub fn source(&self) -> (r: Option<PeerAddress>)
        ensures
            r == self.spec_source(),
    {
        match *self {
            Direction::Inbound(a) => Some(a),
            _ => None,
        }
    }

    pub fn is_internal(&self) -> (r: bool)
        ensures
            r == (*self == Direction::Internal),
    {
        match *self {
            Direction::Internal => true,
            _ => false,
        }
    }
}

impl Payload {
    /// Whether the payload is of a kind that can only be handled with the
    /// peer that sent it.
    pub open spec fn spec_needs_source(self) -> bool {
        match self {
            Payload::Transaction(_) => true,
            Payload::Block(_) => true,
            Payload::SyncBlock(_) => true,
            Payload::GetBlocks(_) => true,
            Payload::GetMemoryPool => true,
            Payload::GetSync(_) => true,
            Payload::Sync(_) => true,
            Payload::GetPeers => true,
            Payload::Peers(_) => true,
            Payload::Ping(_) => true,
            Payload::Pong => true,
            _ => false,
        }
    }

    /// Whether the payload is of a kind that is handed to consensus.
    pub open spec fn spec_needs_consensus(self) -> bool {
        match self {
            Payload::Transaction(_) => true,
            Payload::Block(_) => true,
            Payload::SyncBlock(_) => true,
            Payload::GetBlocks(_) => true,
            Payload::GetMemoryPool => true,
            Payload::MemoryPool(_) => true,
            Payload::GetSync(_) => true,
            Payload::Sync(_) => true,
            _ => false,
        }
    }

    pub fn needs_source(&self) -> (r: bool)
        ensures
            r == self.spec_needs_source(),
    {
        match self {
            Payload::Transaction(_) => true,
            Payload::Block(_) => true,
            Payload::SyncBlock(_) => true,
            Payload::GetBlocks(_) => true,
            Payload::GetMemoryPool => true,
            Payload::GetSync(_) => true,
            Payload::Sync(_) => true,
            Payload::GetPeers => true,
            Payload::Peers(_) => true,
            Payload::Ping(_) => true,
            Payload::Pong => true,
            _ => false,
        }
    }

    pub fn needs_consensus(&self) -> (r: bool)
        ensures
            r == self.spec_needs_consensus(),
    {
        match self {
            Payload::Transaction(_) => true,
            Payload::Block(_) => true,
            Payload::SyncBlock(_) => true,
            Payload::GetBlocks(_) => true,
            Payload::GetMemoryPool => true,
            Payload::MemoryPool(_) => true,
            Payload::GetSync(_) => true,
            Payload::Sync(_) => true,
            _ => false,
        }
    }

    pub fn is_get_peers(&self) -> (r: bool)
        ensures
            r == (*self is GetPeers),
    {
        match self {
            Payload::GetPeers => true,
            _ => false,
        }
    }
}

impl Message {
    pub fn new(direction: Direction, payload: Payload) -> (m: Message)
        ensures
            m.direction == direction,
            m.payload == payload,
    {
        Message { direction, payload }
    }
}

/// The four bytes that go before an encrypted message of `len` bytes: its
/// length, the most significant byte first.
pub open spec fn spec_frame_header(len: u32) -> Seq<u8> {
    seq![
        (len / 0x100_0000 % 256) as u8,
        (len / 0x1_0000 % 256) as u8,
        (len / 0x100 % 256) as u8,
        (len % 256) as u8,
    ]
}

/// The length that the four bytes of a frame header spell.
pub open spec fn spec_frame_length(header: Seq<u8>) -> int {
    header[0] as int * 0x100_0000 + header[1] as int * 0x1_0000 + header[2] as int * 0x100
        + header[3] as int
}

pub fn frame_header(len: u32) -> (header: [u8; 4])
    ensures
        header@ == spec_frame_header(len),
{
    let header: [u8; 4] = [
        (len / 0x100_0000 % 256) as u8,
        (len / 0x1_0000 % 256) as u8,
        (len / 0x100 % 256) as u8,
        (len % 256) as u8,
    ];
    proof {
        assert(header@ =~= spec_frame_header(len));
    }
    header
}

pub fn frame_length(header: &[u8; 4]) -> (len: u32)
    ensures
        len == spec_frame_length(header@),
{
    (header[0] as u32) * 0x100_0000 + (header[1] as u32) * 0x1_0000 + (header[2] as u32) * 0x100
        + (header[3] as u32)
}

/// The length that a frame header spells is the length it was made for.
pub proof fn frame_header_round_trip(len: u32)
    ensures
        spec_frame_header(len).len() == 4,
        spec_frame_length(spec_frame_header(len)) == len,
{
    let lo: u32 = len % 0x1_0000;
    let hi: u32 = len / 0x1_0000;
    assert(len == lo + hi * 0x1_0000);
    assert(lo == lo % 256 + (lo / 0x100 % 256) * 0x100);
    assert(hi == hi % 256 + (hi / 0x100 % 256) * 0x100);
    assert(len % 256 == lo % 256 && len / 0x100 % 256 == lo / 0x100 % 256);
    assert(len / 0x1_0000 % 256 == hi % 256 && len / 0x100_0000 % 256 == hi / 0x100 % 256);
}

} // verus!
