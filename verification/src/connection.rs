//! Links between two peers, which have no direction.

use crate::address::{address_order_is_total, PeerAddress};
use std::hash::{Hash, Hasher};
use vstd::prelude::*;

verus! {

/// A link between two peers. It has no direction: the link from one peer to
/// another is the link from the other to the one.
#[derive(Debug, Eq, Copy, Clone)]
pub struct Connection(pub (PeerAddress, PeerAddress));

/// The two ends of a link in the order of addresses, the smaller one first.
/// This is the form in which a link is hashed and counted.
pub open spec fn edge(a: PeerAddress, b: PeerAddress) -> (PeerAddress, PeerAddress) {
    if b.spec_lt(a) {
        (b, a)
    } else {
        (a, b)
    }
}

impl Connection {
    /// Whether the two links join the same peers.
    pub open spec fn same_edge(self, other: Connection) -> bool {
        let (a, b) = self.0;
        let (c, d) = other.0;
        a == d && b == c || a == c && b == d
    }

    /// The ends of the link, the smaller one first.
    pub open spec fn key(self) -> (PeerAddress, PeerAddress) {
        edge(self.0.0, self.0.1)
    }

    /// Whether `address` is one of the two ends.
    pub open spec fn spec_involves(self, address: PeerAddress) -> bool {
        self.0.0 == address || self.0.1 == address
    }

    pub fn new(a: PeerAddress, b: PeerAddress) -> (c: Connection)
        ensures
            c == Connection((a, b)),
    {
        Connection((a, b))
    }

    /// The ends of the link, the smaller one first: what is hashed.
    pub fn ordered(&self) -> (r: (PeerAddress, PeerAddress))
        ensures
            r == self.key(),
    {
        let (a, b) = self.0;
        if b.lt(&a) {
            (b, a)
        } else {
            (a, b)
        }
    }

    pub fn involves(&self, address: PeerAddress) -> (r: bool)
        ensures
            r == self.spec_involves(address),
    {
        self.0.0 == address || self.0.1 == address
    }
}

impl PartialEq for Connection {
    fn eq(&self, other: &Self) -> (r: bool) {
        let (a, b) = self.0;
        let (c, d) = other.0;
        a == d && b == c || a == c && b == d
    }
}

impl vstd::std_specs::cmp::PartialEqSpecImpl for Connection {
    open spec fn obeys_eq_spec() -> bool {
        true
    }

    open spec fn eq_spec(&self, other: &Self) -> bool {
        self.same_edge(*other)
    }
}

impl Hash for Connection {
    fn hash<H: Hasher>(&self, state: &mut H) {
        let ends = self.ordered();
        hash_ends(&ends, state);
    }
}

/// Feeds a pair of addresses to `state`, by the `Hash::hash` of pairs in
/// `std`. Nothing is claimed of what the hasher then holds.
#[verifier::external_body]
fn hash_ends<H: Hasher>(ends: &(PeerAddress, PeerAddress), state: &mut H) {
    ends.hash(state)
}

/// A link equals the link between the same peers in the other direction, and
/// links that are equal are hashed alike: equal links have the same ordered
/// ends, and only equal links do.
pub proof fn connection_ignores_direction(a: PeerAddress, b: PeerAddress, other: Connection)
    ensures
        Connection((a, b)).same_edge(Connection((b, a))),
        Connection((a, b)).key() == Connection((b, a)).key(),
        Connection((a, b)).same_edge(other) <==> Connection((a, b)).key() == other.key(),
{
    address_order_is_total(a, b);
    address_order_is_total(other.0.0, other.0.1);
}

} // verus!
