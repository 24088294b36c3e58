//! The periodic maintenance of the peers of a node: which peers are dropped,
//! to which a connection is tried, and which are asked and pinged.

use crate::address::PeerAddress;
use crate::clock::now_millis;
use crate::node::{Node, NodeView};
use crate::peer_book::{not_later, steps_preserve_wf};
use crate::peer_info::{PeerQuality, PeerTask};
use crate::random::choose_multiple;
use crate::selection::{lemma_filtered, lemma_pushed, lemma_removed, other_than, others};
use vstd::prelude::*;

verus! {

/// Something that is to be done for the node by whoever runs it.
#[derive(Clone, Copy, Debug, PartialEq, Eq, Structural)]
pub enum Action {
    /// Try to connect to the peer.
    Dial(PeerAddress),
    /// Send `GetPeers` to the peer.
    SendGetPeers(PeerAddress),
    /// Send `Ping` with the block height to the peer.
    SendPing(PeerAddress, u32),
    /// Send `Pong` to the peer.
    SendPong(PeerAddress),
    /// Send `Peers` to the peer, with the peers that `Node::send_peers` names.
    SendPeers(PeerAddress),
    /// Hand the transaction of the peer to consensus, with the connected peers.
    ReceivedTransaction(PeerAddress),
    /// Hand the block of the peer to consensus: with the connected peers, to
    /// pass it on, if the flag is set, and without them if it is not.
    ReceivedBlock(PeerAddress, bool),
    /// Note with `Node::got_sync_block` that a sync block of the peer was
    /// taken in.
    GotSyncBlock(PeerAddress),
    /// Hand the request of the peer for blocks to consensus.
    ReceivedGetBlocks(PeerAddress),
    /// Hand the request of the peer for the memory pool to consensus.
    ReceivedGetMemoryPool(PeerAddress),
    /// Hand the memory pool that came in to consensus.
    ReceivedMemoryPool,
    /// Hand the request of the peer for a sync to consensus.
    ReceivedGetSync(PeerAddress),
    /// Hand the hashes that the peer offers for a sync to consensus.
    ReceivedSync(PeerAddress),
    /// Tell consensus that the block sync is over.
    FinishedSyncingBlocks,
    /// Tell consensus that a block sync is attempted.
    RegisterBlockSyncAttempt,
    /// Make consensus sync blocks with the peer.
    UpdateBlocks(PeerAddress),
}

/// `a - b`, or nothing where `b` is the greater.
pub open spec fn less(a: int, b: int) -> int {
    if a > b {
        a - b
    } else {
        0
    }
}

/// How many peers a node is to drop, and to how many it is to connect. A
/// bootnode drops down to the least number and connects up to the greatest
/// less twice the least; another node drops down to the greatest number, and
/// connects up to the least, where handshakes under way count as peers.
pub open spec fn spec_maintenance_counts(node: NodeView, is_bootnode: bool, min: u16, max: u16) -> (
    int,
    int,
) {
    if is_bootnode {
        (less(node.connected_count(), min as int), less(max as int, 2 * min))
    } else {
        (
            less(node.connected_count(), max as int),
            less(min as int, node.connected_count() + node.connecting_count()),
        )
    }
}

/// The node after the connections with `addresses` ended at `now`, one after
/// the other.
pub open spec fn disconnect_all(node: NodeView, addresses: Seq<PeerAddress>, now: i64) -> NodeView
    decreases addresses.len(),
{
    if addresses.len() == 0 {
        node
    } else {
        disconnect_all(node, addresses.drop_last(), now).disconnect_from_peer(addresses.last(), now)
    }
}

/// The node after a `Ping` went out to each of `addresses` at `now`.
pub open spec fn ping_all(node: NodeView, addresses: Seq<PeerAddress>, now: i64) -> NodeView
    decreases addresses.len(),
{
    if addresses.len() == 0 {
        node
    } else {
        let before = ping_all(node, addresses.drop_last(), now);
        NodeView {
            book: before.book.with_quality(
                addresses.last(),
                before.book.quality(addresses.last()).spec_sending_ping(now),
            ),
            ..before
        }
    }
}

/// Whether `low` lists the peers that are dropped for their quality at `now`:
/// the connected peers that are no bootnodes and whose round trip is too
/// long, which failed too often, or which were silent too long; each once.
pub open spec fn lists_low_quality(
    node: NodeView,
    bootnodes: Seq<PeerAddress>,
    now: i64,
    low: Seq<PeerAddress>,
) -> bool {
    &&& low.no_duplicates()
    &&& forall|a: PeerAddress| #[trigger]
        low.contains(a) <==> node.book.is_connected(a) && !bootnodes.contains(a)
            && node.book.quality(a).spec_is_low_quality(now)
}

/// Whether `shed` lists peers that are dropped to keep the number of peers
/// down: `count` connected peers, or all where there are fewer, each once;
/// and, unless the node is a bootnode, peers that connected last: none of
/// those that stay connected later than any of them.
pub open spec fn lists_shed(node: NodeView, is_bootnode: bool, count: int, shed: Seq<PeerAddress>) -> bool {
    &&& shed.no_duplicates()
    &&& forall|i: int| 0 <= i < shed.len() ==> node.book.is_connected(#[trigger] shed[i])
    &&& shed.len() == if count < node.book.connected.dom().len() {
        count
    } else {
        node.book.connected.dom().len() as int
    }
    &&& !is_bootnode ==> forall|a: PeerAddress, b: PeerAddress|
        #![trigger shed.contains(a), shed.contains(b)]
        shed.contains(a) && node.book.is_connected(b) && !shed.contains(b) ==> not_later(
            node.book.connected[b].last_connected,
            node.book.connected[a].last_connected,
        )
}

/// Whether a connection may be tried to the disconnected peer `a`, of a node
/// that listens on `own`, if it knows where it listens: it is not the node
/// itself and no bootnode.
pub open spec fn may_dial(node: NodeView, own: Option<PeerAddress>, bootnodes: Seq<PeerAddress>) -> spec_fn(
    PeerAddress,
) -> bool {
    |a: PeerAddress| node.book.is_disconnected(a) && own != Some(a) && !bootnodes.contains(a)
}

/// Whether `picked` lists peers to which a connection is tried: `count`
/// disconnected peers that are neither the node itself nor bootnodes, or all
/// of these where there are fewer; each once.
pub open spec fn lists_sample(
    node: NodeView,
    own: Option<PeerAddress>,
    bootnodes: Seq<PeerAddress>,
    count: int,
    picked: Seq<PeerAddress>,
) -> bool {
    let candidates = node.book.disconnected.dom().filter(may_dial(node, own, bootnodes));
    &&& picked.no_duplicates()
    &&& forall|i: int| 0 <= i < picked.len() ==> candidates.contains(#[trigger] picked[i])
    &&& picked.len() == if count < candidates.len() {
        count
    } else {
        candidates.len() as int
    }
}

/// Whether `all` lists the connected peers, each once.
pub open spec fn lists_connected(node: NodeView, all: Seq<PeerAddress>) -> bool {
    &&& all.no_duplicates()
    &&& all.to_set() == node.book.connected.dom()
}

/// Whether a node asks its peers for more peers: a bootnode always, another
/// node while it has fewer peers than the least number, handshakes under way
/// counted.
pub open spec fn asks_for_peers(node: NodeView, is_bootnode: bool, min: u16) -> bool {
    is_bootnode || node.connected_count() + node.connecting_count() < min
}

pub open spec fn dials(addresses: Seq<PeerAddress>) -> Seq<Action> {
    Seq::new(addresses.len(), |i: int| Action::Dial(addresses[i]))
}

pub open spec fn get_peers_requests(addresses: Seq<PeerAddress>) -> Seq<Action> {
    Seq::new(addresses.len(), |i: int| Action::SendGetPeers(addresses[i]))
}

pub open spec fn pings(addresses: Seq<PeerAddress>, height: u32) -> Seq<Action> {
    Seq::new(addresses.len(), |i: int| Action::SendPing(addresses[i], height))
}

/// The actions of one round of maintenance: if the node had no peer after
/// it dropped those of low quality, it tries every bootnode but itself; it
/// tries the disconnected peers that were picked; and, unless it has no peer
/// in the end, it asks for peers where it does ask, and sends a `Ping` with
/// the block height to every peer.
pub open spec fn maintenance_actions(
    had_no_peer: bool,
    own: Option<PeerAddress>,
    bootnodes: Seq<PeerAddress>,
    picked: Seq<PeerAddress>,
    asked: Seq<PeerAddress>,
    pinged: Seq<PeerAddress>,
    height: u32,
) -> Seq<Action> {
    (if had_no_peer {
        dials(bootnodes.filter(other_than(own, Seq::empty())))
    } else {
        Seq::<Action>::empty()
    }) + dials(picked) + get_peers_requests(asked) + pings(pinged, height)
}

/// Whether one round of maintenance at `now` brings the node from `before`
/// to `after` with `actions`, where `low` are the peers dropped for their
/// quality, `shed` those dropped to keep the number down, `picked` the
/// disconnected peers that are tried, `asked` the peers that are asked for
/// more peers, and `pinged` those to which a `Ping` goes.
pub open spec fn maintained(
    before: NodeView,
    own: Option<PeerAddress>,
    bootnodes: Seq<PeerAddress>,
    is_bootnode: bool,
    min: u16,
    max: u16,
    height: u32,
    now: i64,
    low: Seq<PeerAddress>,
    shed: Seq<PeerAddress>,
    picked: Seq<PeerAddress>,
    asked: Seq<PeerAddress>,
    pinged: Seq<PeerAddress>,
    after: NodeView,
    actions: Seq<Action>,
) -> bool {
    let first = disconnect_all(before, low, now);
    let counts = spec_maintenance_counts(first, is_bootnode, min, max);
    let second = disconnect_all(first, shed, now);
    &&& lists_low_quality(before, bootnodes, now, low)
    &&& lists_shed(first, is_bootnode, counts.0, shed)
    &&& lists_sample(second, own, bootnodes, counts.1, picked)
    &&& if second.connected_count() != 0 {
        &&& asks_for_peers(second, is_bootnode, min) ==> lists_connected(second, asked)
        &&& !asks_for_peers(second, is_bootnode, min) ==> asked.len() == 0
        &&& lists_connected(second, pinged)
        &&& after == ping_all(second, pinged, now)
    } else {
        &&& asked.len() == 0
        &&& pinged.len() == 0
        &&& after == second
    }
    &&& actions == maintenance_actions(
        first.connected_count() == 0,
        own,
        bootnodes,
        picked,
        asked,
        pinged,
        height,
    )
}

/// Ending connections leaves the book well formed, and connects no peer.
proof fn lemma_disconnect_all_shrinks(node: NodeView, addresses: Seq<PeerAddress>, now: i64)
    requires
        node.book.wf(),
    ensures
        disconnect_all(node, addresses, now).book.wf(),
        disconnect_all(node, addresses, now).book.connected.dom().subset_of(
            node.book.connected.dom(),
        ),
    decreases addresses.len(),
{
    if addresses.len() > 0 {
        let rest = addresses.drop_last();
        lemma_disconnect_all_shrinks(node, rest, now);
        steps_preserve_wf(
            disconnect_all(node, rest, now).book,
            addresses.last(),
            None,
            now,
            PeerQuality::spec_new(),
            PeerTask { id: 0, abortable: false },
        );
    }
}

/// A peer whose connection is ended is not connected afterwards.
proof fn lemma_disconnect_all_drops(
    node: NodeView,
    addresses: Seq<PeerAddress>,
    now: i64,
    a: PeerAddress,
)
    requires
        node.book.wf(),
        addresses.contains(a),
    ensures
        !disconnect_all(node, addresses, now).book.is_connected(a),
    decreases addresses.len(),
{
    let rest = addresses.drop_last();
    let before = disconnect_all(node, rest, now);
    lemma_disconnect_all_shrinks(node, rest, now);
    if addresses.last() != a {
        let j = choose|j: int| 0 <= j < addresses.len() && addresses[j] == a;
        assert(rest[j] == a);
        lemma_disconnect_all_drops(node, rest, now, a);
    }
}

/// A `Ping` connects and disconnects no peer.
proof fn lemma_ping_all_keeps_peers(node: NodeView, addresses: Seq<PeerAddress>, now: i64)
    ensures
        ping_all(node, addresses, now).book.connected.dom() == node.book.connected.dom(),
    decreases addresses.len(),
{
    if addresses.len() > 0 {
        lemma_ping_all_keeps_peers(node, addresses.drop_last(), now);
        let before = ping_all(node, addresses.drop_last(), now);
        let after = ping_all(node, addresses, now);
        assert(after.book.connected.dom() =~= before.book.connected.dom());
    }
}

/// A round of maintenance drops every peer of low quality: a connected
/// peer that is no bootnode is not connected after the round if its round
/// trip is too long, if it failed too often, or if it was silent too long.
pub proof fn maintenance_drops_low_quality(
    before: NodeView,
    own: Option<PeerAddress>,
    bootnodes: Seq<PeerAddress>,
    is_bootnode: bool,
    min: u16,
    max: u16,
    height: u32,
    now: i64,
    low: Seq<PeerAddress>,
    shed: Seq<PeerAddress>,
    picked: Seq<PeerAddress>,
    asked: Seq<PeerAddress>,
    pinged: Seq<PeerAddress>,
    after: NodeView,
    actions: Seq<Action>,
    a: PeerAddress,
)
    requires
        maintained(
            before,
            own,
            bootnodes,
            is_bootnode,
            min,
            max,
            height,
            now,
            low,
            shed,
            picked,
            asked,
            pinged,
            after,
            actions,
        ),
        before.book.wf(),
        before.book.is_connected(a),
        !bootnodes.contains(a),
        before.book.quality(a).spec_is_low_quality(now),
    ensures
        !after.book.is_connected(a),
{
    let first = disconnect_all(before, low, now);
    let second = disconnect_all(first, shed, now);
    assert(low.contains(a));
    lemma_disconnect_all_drops(before, low, now, a);
    lemma_disconnect_all_shrinks(before, low, now);
    lemma_disconnect_all_shrinks(first, shed, now);
    lemma_ping_all_keeps_peers(second, pinged, now);
}

/// Adds to `actions` a connection attempt to each of `addresses`.
fn append_dials(actions: &mut Vec<Action>, addresses: &Vec<PeerAddress>)
    ensures
        final(actions)@ == old(actions)@ + dials(addresses@),
{
    let mut i: usize = 0;
    proof {
        assert(actions@ =~= old(actions)@ + dials(addresses@.subrange(0, 0)));
    }
    while i < addresses.len()
        invariant
            i <= addresses@.len(),
            actions@ == old(actions)@ + dials(addresses@.subrange(0, i as int)),
        decreases addresses@.len() - i,
    {
        actions.push(Action::Dial(addresses[i]));
        i += 1;
        proof {
            assert(actions@ =~= old(actions)@ + dials(addresses@.subrange(0, i as int)));
        }
    }
    proof {
        assert(addresses@.subrange(0, addresses@.len() as int) =~= addresses@);
    }
}

/// Adds to `actions` a `GetPeers` to each of `addresses`.
fn append_get_peers(actions: &mut Vec<Action>, addresses: &Vec<PeerAddress>)
    ensures
        final(actions)@ == old(actions)@ + get_peers_requests(addresses@),
{
    let mut i: usize = 0;
    proof {
        assert(actions@ =~= old(actions)@ + get_peers_requests(addresses@.subrange(0, 0)));
    }
    while i < addresses.len()
        invariant
            i <= addresses@.len(),
            actions@ == old(actions)@ + get_peers_requests(addresses@.subrange(0, i as int)),
        decreases addresses@.len() - i,
    {
        actions.push(Action::SendGetPeers(addresses[i]));
        i += 1;
        proof {
            assert(actions@ =~= old(actions)@ + get_peers_requests(
                addresses@.subrange(0, i as int),
            ));
        }
    }
    proof {
        assert(addresses@.subrange(0, addresses@.len() as int) =~= addresses@);
    }
}

/// Adds to `actions` a `Ping` with `height` to each of `addresses`.
fn append_pings(actions: &mut Vec<Action>, addresses: &Vec<PeerAddress>, height: u32)
    ensures
        final(actions)@ == old(actions)@ + pings(addresses@, height),
{
    let mut i: usize = 0;
    proof {
        assert(actions@ =~= old(actions)@ + pings(addresses@.subrange(0, 0), height));
    }
    while i < addresses.len()
        invariant
            i <= addresses@.len(),
            actions@ == old(actions)@ + pings(addresses@.subrange(0, i as int), height),
        decreases addresses@.len() - i,
    {
        actions.push(Action::SendPing(addresses[i], height));
        i += 1;
        proof {
            assert(actions@ =~= old(actions)@ + pings(addresses@.subrange(0, i as int), height));
        }
    }
    proof {
        assert(addresses@.subrange(0, addresses@.len() as int) =~= addresses@);
    }
}

impl Node {
    /// One round of maintenance, at the time that the clock gives. See
    /// `update_peers_at`.
    pub fn update_peers(&mut self, height: u32) -> (actions: Vec<Action>)
        requires
            old(self).wf(),
        ensures
            final(self).wf(),
            final(self).environment == old(self).environment,
            old(self)@.linked() ==> final(self)@.linked(),
            exists|
                now: i64,
                low: Seq<PeerAddress>,
                shed: Seq<PeerAddress>,
                picked: Seq<PeerAddress>,
                asked: Seq<PeerAddress>,
                pinged: Seq<PeerAddress>,
            |
                maintained(
                    old(self)@,
                    old(self).environment.local_address,
                    old(self).environment.bootnodes@,
                    old(self).environment.is_bootnode,
                    old(self).environment.minimum_number_of_connected_peers,
                    old(self).environment.maximum_number_of_connected_peers,
                    height,
                    now,
                    low,
                    shed,
                    picked,
                    asked,
                    pinged,
                    final(self)@,
                    actions@,
                ),
    {
        let now: i64 = now_millis();
        self.update_peers_at(height, now)
    }

    /// One round of maintenance at `now`, where `height` is the height of
    /// the chain of the node. The node drops the peers of low quality that
    /// are no bootnodes; drops peers to keep their number down; if it had no
    /// peer after the first step, has every bootnode tried; has disconnected
    /// peers tried to bring the number up; and, unless it has no peer left,
    /// asks its peers for more where it lacks peers, and sends each a `Ping`.
    pub fn update_peers_at(&mut self, height: u32, now: i64) -> (actions: Vec<Action>)
        requires
            old(self).wf(),
        ensures
            final(self).wf(),
            final(self).environment == old(self).environment,
            old(self)@.linked() ==> final(self)@.linked(),
            exists|
                low: Seq<PeerAddress>,
                shed: Seq<PeerAddress>,
                picked: Seq<PeerAddress>,
                asked: Seq<PeerAddress>,
                pinged: Seq<PeerAddress>,
            |
                maintained(
                    old(self)@,
                    old(self).environment.local_address,
                    old(self).environment.bootnodes@,
                    old(self).environment.is_bootnode,
                    old(self).environment.minimum_number_of_connected_peers,
                    old(self).environment.maximum_number_of_connected_peers,
                    height,
                    now,
                    low,
                    shed,
                    picked,
                    asked,
                    pinged,
                    final(self)@,
                    actions@,
                ),
    {
        let low = self.low_quality_peers(now);
        self.disconnect_peers_at(&low, now);
        let (to_disconnect, to_connect) = self.maintenance_counts();
        let had_no_peer: bool = self.peer_book.number_of_connected_peers() == 0;
        let shed = self.peers_to_shed(to_disconnect);
        self.disconnect_peers_at(&shed, now);
        let ghost second = self@;
        let mut actions: Vec<Action> = Vec::new();
        if had_no_peer {
            let bootnodes = self.connect_to_bootnodes();
            append_dials(&mut actions, &bootnodes);
        }
        let picked = self.connect_to_disconnected_peers(to_connect);
        append_dials(&mut actions, &picked);
        let mut asked: Vec<PeerAddress> = Vec::new();
        let mut pinged: Vec<PeerAddress> = Vec::new();
        if self.peer_book.number_of_connected_peers() != 0 {
            asked = self.broadcast_getpeers_requests();
            pinged = self.broadcast_pings_at(now);
        }
        append_get_peers(&mut actions, &asked);
        append_pings(&mut actions, &pinged, height);
        proof {
            let own = old(self).environment.local_address;
            let wanted = maintenance_actions(
                had_no_peer,
                own,
                old(self).environment.bootnodes@,
                picked@,
                asked@,
                pinged@,
                height,
            );
            assert(actions@ =~= wanted);
            assert(maintained(
                old(self)@,
                own,
                old(self).environment.bootnodes@,
                old(self).environment.is_bootnode,
                old(self).environment.minimum_number_of_connected_peers,
                old(self).environment.maximum_number_of_connected_peers,
                height,
                now,
                low@,
                shed@,
                picked@,
                asked@,
                pinged@,
                self@,
                actions@,
            ));
        }
        actions
    }

    /// The peers that are to be dropped for their quality at `now`.
    pub fn low_quality_peers(&self, now: i64) -> (low: Vec<PeerAddress>)
        requires
            self.wf(),
        ensures
            lists_low_quality(self@, self.environment.bootnodes@, now, low@),
    {
        let connected = self.peer_book.connected_addresses();
        let mut low: Vec<PeerAddress> = Vec::new();
        let n: usize = connected.len();
        let mut i: usize = 0;
        while i < n
            invariant
                self.wf(),
                i <= n,
                n == connected@.len(),
                connected@.no_duplicates(),
                connected@.to_set() == self@.book.connected.dom(),
                low@.no_duplicates(),
                forall|a: PeerAddress| #[trigger]
                    low@.contains(a) <==> connected@.subrange(0, i as int).contains(a)
                        && !self.environment.bootnodes@.contains(a) && self@.book.quality(
                        a,
                    ).spec_is_low_quality(now),
            decreases n - i,
        {
            let a: PeerAddress = connected[i];
            let ghost before = low@;
            proof {
                let sofar = connected@.subrange(0, i as int);
                let next = connected@.subrange(0, i + 1);
                assert(next =~= sofar.push(a));
                lemma_pushed(sofar, a);
                assert(!sofar.contains(a)) by {
                    if sofar.contains(a) {
                        let j = choose|j: int| 0 <= j < sofar.len() && sofar[j] == a;
                        assert(connected@[j] == connected@[i as int]);
                    }
                }
                assert(connected@.to_set().contains(a));
            }
            if !self.environment.has_bootnode(a) {
                match self.peer_book.peer_quality(a) {
                    Some(quality) => {
                        if quality.is_low_quality(now) {
                            low.push(a);
                            proof {
                                assert(low@ == before.push(a));
                                lemma_pushed(before, a);
                            }
                        }
                    },
                    None => {},
                }
            }
            i += 1;
        }
        proof {
            assert(connected@.subrange(0, n as int) =~= connected@);
            assert forall|a: PeerAddress| #[trigger]
                low@.contains(a) <==> self@.book.is_connected(a)
                    && !self.environment.bootnodes@.contains(a) && self@.book.quality(
                    a,
                ).spec_is_low_quality(now) by {
                assert(connected@.contains(a) <==> connected@.to_set().contains(a));
            }
        }
        low
    }

    /// Ends the connections with `addresses` at `now`, one after the other.
    pub fn disconnect_peers_at(&mut self, addresses: &Vec<PeerAddress>, now: i64)
        requires
            old(self).wf(),
        ensures
            final(self).wf(),
            final(self).environment == old(self).environment,
            final(self)@ == disconnect_all(old(self)@, addresses@, now),
            old(self)@.linked() ==> final(self)@.linked(),
    {
        let n: usize = addresses.len();
        let mut i: usize = 0;
        proof {
            assert(addresses@.subrange(0, 0) =~= Seq::<PeerAddress>::empty());
        }
        while i < n
            invariant
                i <= n,
                n == addresses@.len(),
                self.wf(),
                self.environment == old(self).environment,
                self@ == disconnect_all(old(self)@, addresses@.subrange(0, i as int), now),
                old(self)@.linked() ==> self@.linked(),
            decreases n - i,
        {
            proof {
                let next = addresses@.subrange(0, i + 1);
                assert(next.drop_last() =~= addresses@.subrange(0, i as int));
                assert(next.last() == addresses@[i as int]);
            }
            self.disconnect_from_peer_at(addresses[i], now);
            i += 1;
        }
        proof {
            assert(addresses@.subrange(0, n as int) =~= addresses@);
        }
    }

    /// How many peers the node is to drop, and to how many it is to connect.
    pub fn maintenance_counts(&self) -> (counts: (usize, usize))
        requires
            self.wf(),
        ensures
            (counts.0 as int, counts.1 as int) == spec_maintenance_counts(
                self@,
                self.environment.is_bootnode,
                self.environment.minimum_number_of_connected_peers,
                self.environment.maximum_number_of_connected_peers,
            ),
    {
        let min_peers: usize = self.environment.minimum_number_of_connected_peers() as usize;
        let max_peers: usize = self.environment.maximum_number_of_connected_peers() as usize;
        let connected: usize = self.peer_book.number_of_connected_peers() as usize;
        let connecting: usize = self.peer_book.number_of_connecting_peers() as usize;
        let peers: usize = connected + connecting;
        if self.environment.is_bootnode() {
            (connected.saturating_sub(min_peers), max_peers.saturating_sub(2 * min_peers))
        } else {
            (connected.saturating_sub(max_peers), min_peers.saturating_sub(peers))
        }
    }

    /// The place in `pool` of a peer that connected last among the peers of
    /// `pool`.
    fn latest_connected(&self, pool: &Vec<PeerAddress>) -> (m: usize)
        requires
            self.wf(),
            pool@.len() > 0,
            forall|i: int| 0 <= i < pool@.len() ==> self@.book.is_connected(#[trigger] pool@[i]),
        ensures
            m < pool@.len(),
            forall|i: int|
                0 <= i < pool@.len() ==> not_later(
                    self@.book.connected[#[trigger] pool@[i]].last_connected,
                    self@.book.connected[pool@[m as int]].last_connected,
                ),
    {
        let mut m: usize = 0;
        let mut best: Option<i64> = match self.peer_book.get_peer(pool[0], true) {
            Some(info) => info.last_connected(),
            None => None,
        };
        let mut i: usize = 1;
        while i < pool.len()
            invariant
                self.wf(),
                1 <= i <= pool@.len(),
                m < i,
                forall|j: int|
                    0 <= j < pool@.len() ==> self@.book.is_connected(#[trigger] pool@[j]),
                best == self@.book.connected[pool@[m as int]].last_connected,
                forall|j: int|
                    0 <= j < i ==> not_later(
                        self@.book.connected[#[trigger] pool@[j]].last_connected,
                        best,
                    ),
            decreases pool@.len() - i,
        {
            let seen: Option<i64> = match self.peer_book.get_peer(pool[i], true) {
                Some(info) => info.last_connected(),
                None => None,
            };
            let later: bool = match (best, seen) {
                (None, _) => true,
                (Some(_), None) => false,
                (Some(x), Some(y)) => x <= y,
            };
            if later {
                m = i;
                best = seen;
            }
            i += 1;
        }
        m
    }

    /// The peers that are dropped to keep the number of peers down: `count`
    /// connected peers, or all where there are fewer. A node that is no
    /// bootnode drops the peers that connected last; a bootnode drops peers
    /// picked at random.
    pub fn peers_to_shed(&self, count: usize) -> (shed: Vec<PeerAddress>)
        requires
            self.wf(),
        ensures
            lists_shed(self@, self.environment.is_bootnode, count as int, shed@),
    {
        let mut pool = self.peer_book.connected_addresses();
        let ghost all = pool@;
        let total: usize = pool.len();
        let amount: usize = if count < total {
            count
        } else {
            total
        };
        if self.environment.is_bootnode() {
            let picked = choose_multiple(&pool, amount);
            proof {
                assert forall|i: int| 0 <= i < picked@.len() implies self@.book.is_connected(
                    #[trigger] picked@[i],
                ) by {
                    assert(pool@.contains(picked@[i]));
                    assert(pool@.to_set().contains(picked@[i]));
                }
            }
            return picked;
        }
        let latest_first: bool = true;
        let mut shed: Vec<PeerAddress> = Vec::new();
        while shed.len() < amount
            invariant
                self.wf(),
                amount <= total,
                total == self@.book.connected.dom().len(),
                latest_first,
                !self.environment.is_bootnode,
                pool@.len() + shed@.len() == total,
                shed@.len() <= amount,
                pool@.no_duplicates(),
                shed@.no_duplicates(),
                forall|a: PeerAddress| #[trigger]
                    pool@.contains(a) ==> self@.book.is_connected(a) && !shed@.contains(a),
                forall|a: PeerAddress| #[trigger]
                    self@.book.is_connected(a) ==> pool@.contains(a) || shed@.contains(a),
                forall|a: PeerAddress| #[trigger] shed@.contains(a) ==> self@.book.is_connected(a),
                latest_first ==> forall|a: PeerAddress, b: PeerAddress|
                    #![trigger shed@.contains(a), pool@.contains(b)]
                    shed@.contains(a) && pool@.contains(b) ==> not_later(
                        self@.book.connected[b].last_connected,
                        self@.book.connected[a].last_connected,
                    ),
            decreases amount - shed@.len(),
        {
            let ghost pool_before = pool@;
            let ghost shed_before = shed@;
            proof {
                assert forall|i: int| 0 <= i < pool@.len() implies self@.book.is_connected(
                    #[trigger] pool@[i],
                ) by {
                    assert(pool@.contains(pool@[i]));
                }
            }
            let m: usize = self.latest_connected(&pool);
            let a: PeerAddress = pool.remove(m);
            shed.push(a);
            proof {
                lemma_removed(pool_before, m as int);
                lemma_pushed(shed_before, a);
                assert(pool_before.contains(a));
                if latest_first {
                    assert forall|x: PeerAddress, y: PeerAddress|
                        #![trigger shed@.contains(x), pool@.contains(y)]
                        shed@.contains(x) && pool@.contains(y) implies not_later(
                        self@.book.connected[y].last_connected,
                        self@.book.connected[x].last_connected,
                    ) by {
                        assert(pool_before.contains(y));
                        if x == a {
                            let j = choose|j: int|
                                0 <= j < pool_before.len() && pool_before[j] == y;
                            assert(not_later(
                                self@.book.connected[pool_before[j]].last_connected,
                                self@.book.connected[pool_before[m as int]].last_connected,
                            ));
                        } else {
                            assert(shed_before.contains(x));
                        }
                    }
                }
            }
        }
        proof {
            assert forall|i: int| 0 <= i < shed@.len() implies self@.book.is_connected(
                #[trigger] shed@[i],
            ) by {
                assert(shed@.contains(shed@[i]));
            }
        }
        shed
    }

    /// The bootnodes to which the node turns when it has no peer: all but
    /// the node itself.
    pub fn connect_to_bootnodes(&self) -> (targets: Vec<PeerAddress>)
        ensures
            targets@ == self.environment.bootnodes@.filter(
                other_than(self.environment.local_address, Seq::empty()),
            ),
    {
        let nobody: Vec<PeerAddress> = Vec::new();
        proof {
            assert(nobody@ =~= Seq::<PeerAddress>::empty());
        }
        others(&self.environment.bootnodes, self.environment.local_address(), &nobody)
    }

    /// The disconnected peers to which the node tries to connect: `count` of
    /// those that are neither the node itself nor bootnodes, picked at
    /// random, or all of them where there are fewer.
    pub fn connect_to_disconnected_peers(&self, count: usize) -> (picked: Vec<PeerAddress>)
        requires
            self.wf(),
        ensures
            lists_sample(
                self@,
                self.environment.local_address,
                self.environment.bootnodes@,
                count as int,
                picked@,
            ),
    {
        let own: Option<PeerAddress> = self.environment.local_address();
        let disconnected = self.peer_book.disconnected_addresses();
        let candidates = others(&disconnected, own, &self.environment.bootnodes);
        let ghost wanted = self@.book.disconnected.dom().filter(
            may_dial(self@, own, self.environment.bootnodes@),
        );
        proof {
            self.peer_book.lemma_wf();
            lemma_filtered(disconnected@, other_than(own, self.environment.bootnodes@));
            assert(candidates@.to_set() =~= wanted) by {
                assert forall|a: PeerAddress| candidates@.to_set().contains(a) <==> wanted.contains(
                    a,
                ) by {
                    assert(disconnected@.contains(a) <==> disconnected@.to_set().contains(a));
                }
            }
            candidates@.unique_seq_to_set();
        }
        let amount: usize = if count < candidates.len() {
            count
        } else {
            candidates.len()
        };
        let picked = choose_multiple(&candidates, amount);
        proof {
            assert forall|i: int| 0 <= i < picked@.len() implies wanted.contains(
                #[trigger] picked@[i],
            ) by {
                assert(candidates@.contains(picked@[i]));
                assert(candidates@.to_set().contains(picked@[i]));
            }
        }
        picked
    }

    /// The peers that the node asks for more peers: all connected peers where
    /// it asks, and none where it does not.
    pub fn broadcast_getpeers_requests(&self) -> (targets: Vec<PeerAddress>)
        requires
            self.wf(),
        ensures
            asks_for_peers(
                self@,
                self.environment.is_bootnode,
                self.environment.minimum_number_of_connected_peers,
            ) ==> lists_connected(self@, targets@),
            !asks_for_peers(
                self@,
                self.environment.is_bootnode,
                self.environment.minimum_number_of_connected_peers,
            ) ==> targets@.len() == 0,
    {
        if !self.environment.is_bootnode() {
            let connected: usize = self.peer_book.number_of_connected_peers() as usize;
            let connecting: usize = self.peer_book.number_of_connecting_peers() as usize;
            let min_peers: usize = self.environment.minimum_number_of_connected_peers() as usize;
            if connected + connecting >= min_peers {
                return Vec::new();
            }
        }
        self.connected_peers()
    }

    /// Notes that a `Ping` goes out to every connected peer at `now`, and
    /// lists these peers.
    pub fn broadcast_pings_at(&mut self, now: i64) -> (targets: Vec<PeerAddress>)
        requires
            old(self).wf(),
        ensures
            final(self).wf(),
            final(self).environment == old(self).environment,
            lists_connected(old(self)@, targets@),
            final(self)@ == ping_all(old(self)@, targets@, now),
            old(self)@.linked() ==> final(self)@.linked(),
    {
        let targets = self.connected_peers();
        let n: usize = targets.len();
        let mut i: usize = 0;
        proof {
            assert(targets@.subrange(0, 0) =~= Seq::<PeerAddress>::empty());
        }
        while i < n
            invariant
                i <= n,
                n == targets@.len(),
                self.wf(),
                self.environment == old(self).environment,
                self@ == ping_all(old(self)@, targets@.subrange(0, i as int), now),
                old(self)@.linked() ==> self@.linked(),
            decreases n - i,
        {
            proof {
                let next = targets@.subrange(0, i + 1);
                assert(next.drop_last() =~= targets@.subrange(0, i as int));
                assert(next.last() == targets@[i as int]);
            }
            self.peer_book.sending_ping_at(targets[i], now);
            i += 1;
        }
        proof {
            assert(targets@.subrange(0, n as int) =~= targets@);
        }
        targets
    }
}

} // verus!
