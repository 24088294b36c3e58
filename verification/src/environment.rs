//! The settings of a node.

use crate::address::PeerAddress;
use crate::selection::contains_address;
use vstd::prelude::*;

verus! {

/// The settings of a node.
#[derive(Debug)]
pub struct Environment {
    /// The address on which the node listens, once it is known.
    pub local_address: Option<PeerAddress>,
    /// The well-known peers to which the node turns when it has no peer.
    pub bootnodes: Vec<PeerAddress>,
    /// The number of peers below which the node looks for more.
    pub minimum_number_of_connected_peers: u16,
    /// The number of peers that the node does not go beyond.
    pub maximum_number_of_connected_peers: u16,
    /// Whether the node is itself a bootnode.
    pub is_bootnode: bool,
    /// The time between two rounds of peer maintenance, in seconds.
    pub peer_sync_interval_secs: u64,
}

impl Environment {
    pub fn new(
        local_address: Option<PeerAddress>,
        bootnodes: Vec<PeerAddress>,
        minimum_number_of_connected_peers: u16,
        maximum_number_of_connected_peers: u16,
        is_bootnode: bool,
        peer_sync_interval_secs: u64,
    ) -> (e: Environment)
        ensures
            e.local_address == local_address,
            e.bootnodes == bootnodes,
            e.minimum_number_of_connected_peers == minimum_number_of_connected_peers,
            e.maximum_number_of_connected_peers == maximum_number_of_connected_peers,
            e.is_bootnode == is_bootnode,
            e.peer_sync_interval_secs == peer_sync_interval_secs,
    {
        Environment {
            local_address,
            bootnodes,
            minimum_number_of_connected_peers,
            maximum_number_of_connected_peers,
            is_bootnode,
            peer_sync_interval_secs,
        }
    }

    pub fn local_address(&self) -> (r: Option<PeerAddress>)
        ensures
            r == self.local_address,
    {
        self.local_address
    }

    pub fn set_local_address(&mut self, address: PeerAddress)
        ensures
            final(self).local_address == Some(address),
            final(self).bootnodes == old(self).bootnodes,
            final(self).minimum_number_of_connected_peers == old(
                self,
            ).minimum_number_of_connected_peers,
            final(self).maximum_number_of_connected_peers == old(
                self,
            ).maximum_number_of_connected_peers,
            final(self).is_bootnode == old(self).is_bootnode,
            final(self).peer_sync_interval_secs == old(self).peer_sync_interval_secs,
    {
        self.local_address = Some(address);
    }

    pub fn is_bootnode(&self) -> (r: bool)
        ensures
            r == self.is_bootnode,
    {
        self.is_bootnode
    }

    pub fn minimum_number_of_connected_peers(&self) -> (r: u16)
        ensures
            r == self.minimum_number_of_connected_peers,
    {
        self.minimum_number_of_connected_peers
    }

    pub fn maximum_number_of_connected_peers(&self) -> (r: u16)
        ensures
            r == self.maximum_number_of_connected_peers,
    {
        self.maximum_number_of_connected_peers
    }

    pub fn peer_sync_interval_secs(&self) -> (r: u64)
        ensures
            r == self.peer_sync_interval_secs,
    {
        self.peer_sync_interval_secs
    }

    /// Whether `address` is one of the bootnodes.
    pub fn has_bootnode(&self, address: PeerAddress) -> (r: bool)
        ensures
            r == self.bootnodes@.contains(address),
    {
        contains_address(&self.bootnodes, address)
    }
}

} // verus!
