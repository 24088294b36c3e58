//! A node: its peer book, the queues of its connected peers, and the rules
//! by which it opens and ends connections.

use crate::address::PeerAddress;
use crate::clock::now_millis;
use crate::environment::Environment;
use crate::errors::NetworkError;
use crate::handshake::{handshake_timeout_secs, spec_handshake_timeout_secs, SHARED_PEER_COUNT};
use crate::message::{Direction, Message};
use crate::peer_book::{PeerBook, PeerBookView};
use crate::peer_info::{PeerInfoView, PeerTask};
use crate::peer_table::AddressSet;
use crate::random::{choose_multiple, random_u64};
use crate::selection::{lemma_filtered, lemma_pushed, other_than, others};
use crate::topology::{updated, NetworkTopology};
use vstd::prelude::*;

verus! {

/// What a `Node` holds, besides its settings.
pub struct NodeView {
    /// The identifier that the node drew when it was made.
    pub id: u64,
    /// The peers that the node knows.
    pub book: PeerBookView,
    /// The peers to which there is a queue of outgoing messages.
    pub channels: Set<PeerAddress>,
    /// The links of the known network, where the node keeps track of them.
    pub topology: Option<Set<(PeerAddress, PeerAddress)>>,
    /// The number that the next task gets.
    pub next_task: u64,
    /// The number of outgoing messages that were dropped.
    pub dropped: u64,
}

/// Whether `remote` is the node itself, which listens on `own`: it is that
/// address, or it is the loopback or the unspecified address with the port of
/// the node.
pub open spec fn is_self(own: PeerAddress, remote: PeerAddress) -> bool {
    remote == own || ((remote.ip.spec_is_unspecified() || remote.ip.spec_is_loopback())
        && remote.port == own.port)
}

/// The number after `n`, from zero again after the largest.
pub open spec fn next_number(n: u64) -> u64 {
    if n == u64::MAX {
        0
    } else {
        (n + 1) as u64
    }
}

/// A counter after it counted once more; it stays at the largest number.
pub open spec fn counted(n: u64) -> u64 {
    if n == u64::MAX {
        n
    } else {
        (n + 1) as u64
    }
}

/// The peer to which a message in `direction` goes out.
pub open spec fn destination(direction: Direction) -> Option<PeerAddress> {
    match direction {
        Direction::Outbound(to) => Some(to),
        _ => None,
    }
}

impl NodeView {
    /// The peer to whose queue a message in `direction` is handed: the peer
    /// that it goes out to, if there is a queue for that peer.
    pub open spec fn route(self, direction: Direction) -> Option<PeerAddress> {
        match destination(direction) {
            Some(to) => if self.channels.contains(to) {
                Some(to)
            } else {
                None
            },
            None => None,
        }
    }

    /// The node after a message in `direction` was to be sent: a message
    /// for which there is no queue is dropped and counted.
    pub open spec fn send_request(self, direction: Direction) -> NodeView {
        if self.route(direction) is Some {
            self
        } else {
            NodeView { dropped: counted(self.dropped), ..self }
        }
    }

    /// Every connected peer has its queue of outgoing messages and its two
    /// tasks, and only connected peers have a queue.
    pub open spec fn linked(self) -> bool {
        forall|a: PeerAddress|
            #![trigger self.book.connected.dom().contains(a)]
            #![trigger self.channels.contains(a)]
            {
                &&& self.book.is_connected(a) <==> self.channels.contains(a)
                &&& self.book.is_connected(a) ==> self.book.connected[a].tasks.len() == 2
            }
    }

    /// The number of connected peers, as the node counts them.
    pub open spec fn connected_count(self) -> int {
        self.book.connected.dom().len() as u16 as int
    }

    /// The number of peers with which a handshake is under way, as the node
    /// counts them.
    pub open spec fn connecting_count(self) -> int {
        self.book.connecting.len() as u16 as int
    }

    /// Whether there is room for one more connection, where `max` is the
    /// most that the node may have: handshakes under way count too.
    pub open spec fn can_connect(self, max: u16) -> bool {
        !(self.connected_count() >= max || self.connected_count() + self.connecting_count()
            >= max)
    }

    /// Why no connection to `remote` may be begun, if there is a reason.
    pub open spec fn refusal(self, own: PeerAddress, max: u16, remote: PeerAddress) -> Option<
        NetworkError,
    > {
        if !self.can_connect(max) {
            Some(NetworkError::TooManyConnections)
        } else if is_self(own, remote) {
            Some(NetworkError::SelfConnectAttempt)
        } else if self.book.is_connecting(remote) {
            Some(NetworkError::PeerAlreadyConnecting)
        } else if self.book.is_connected(remote) {
            Some(NetworkError::PeerAlreadyConnected)
        } else {
            None
        }
    }

    /// The node after a connection to `remote` was begun, or refused.
    pub open spec fn initiate_connection(self, own: PeerAddress, max: u16, remote: PeerAddress) -> NodeView {
        if self.refusal(own, max, remote) is Some {
            self
        } else {
            NodeView { book: self.book.set_connecting(remote), ..self }
        }
    }

    /// The node after the connection with `remote` ended at `now`: where a
    /// connected peer was taken down, its queue goes too.
    pub open spec fn disconnect_from_peer(self, remote: PeerAddress, now: i64) -> NodeView {
        NodeView {
            book: self.book.set_disconnected(remote, now),
            channels: if self.book.disconnects(remote) {
                self.channels.remove(remote)
            } else {
                self.channels
            },
            ..self
        }
    }

    /// The node after the handshake with `remote` ended well at `now`, where
    /// the peer listens at `listener` and was not connected yet: it has a
    /// queue, it is connected, and it has a task that reads, which can be cut
    /// off, and one that writes, which cannot.
    pub open spec fn set_connected(self, remote: PeerAddress, listener: PeerAddress, now: i64) -> NodeView {
        if self.book.is_connected(listener) {
            self
        } else {
            NodeView {
                book: self.book.set_connected(remote, Some(listener), now).with_task(
                    listener,
                    PeerTask { id: self.next_task, abortable: true },
                ).with_task(listener, PeerTask { id: next_number(self.next_task), abortable: false }),
                channels: self.channels.insert(listener),
                next_task: next_number(next_number(self.next_task)),
                ..self
            }
        }
    }

    /// The node after the handshake with `remote` was given up: the peer is
    /// no longer connecting, and is disconnected again if the node had a
    /// record of it. A connected peer stays connected.
    pub open spec fn abandon_handshake(self, remote: PeerAddress) -> NodeView {
        NodeView { book: self.book.cancel_connecting(remote), ..self }
    }

    /// The node after a connection attempt to `remote`, which had begun,
    /// failed with `error`. The peer is no longer connecting. Where the node
    /// found that it talked to itself, or that the peer was connected in the
    /// meantime, nothing else changes. After a handshake that ran out of
    /// time the connection is ended; after any other failure the peer is
    /// marked as one that cannot be reached, too.
    pub open spec fn connection_failed(self, remote: PeerAddress, error: NetworkError, now: i64) -> NodeView {
        match error {
            NetworkError::PeerAlreadyConnecting => self.abandon_handshake(remote),
            NetworkError::PeerAlreadyConnected => self.abandon_handshake(remote),
            NetworkError::TooManyConnections => self.abandon_handshake(remote),
            NetworkError::SelfConnectAttempt => self.abandon_handshake(remote),
            NetworkError::HandshakeTimeout => self.disconnect_from_peer(remote, now),
            _ => {
                let after = self.disconnect_from_peer(remote, now);
                NodeView { book: after.book.set_unroutable(remote), ..after }
            },
        }
    }

    /// The disconnected peers after `source` named `peers`, of a node that
    /// listens on `own`, if it knows where it listens: each named peer that
    /// the node did not know in any state, and that is not the node itself,
    /// is now disconnected with a fresh record.
    pub open spec fn inbound_peers(self, own: Option<PeerAddress>, peers: Seq<PeerAddress>) -> Map<
        PeerAddress,
        PeerInfoView,
    > {
        Map::new(
            |a: PeerAddress|
                self.book.is_disconnected(a) || (peers.contains(a) && own != Some(a)
                    && !self.book.is_connected(a) && !self.book.is_connecting(a)),
            |a: PeerAddress|
                if self.book.is_disconnected(a) {
                    self.book.disconnected[a]
                } else {
                    PeerInfoView::fresh(a)
                },
        )
    }

    /// The node after `source` named `peers` as its peers: the peers are
    /// known, and the topology, where it is kept, has the links of `source`.
    pub open spec fn process_inbound_peers(
        self,
        own: Option<PeerAddress>,
        source: PeerAddress,
        peers: Seq<PeerAddress>,
    ) -> NodeView {
        NodeView {
            book: PeerBookView { disconnected: self.inbound_peers(own, peers), ..self.book },
            topology: match self.topology {
                Some(edges) => Some(updated(edges, source, peers)),
                None => None,
            },
            ..self
        }
    }
}

/// Through every step of the node each connected peer has its queue and its
/// two tasks, and no other peer has a queue: when a connection is begun or
/// refused, when a handshake ends well or is given up, when a connection
/// ends or fails, when a message is routed, and when peers are named to the
/// node.
pub proof fn steps_keep_links(
    node: NodeView,
    own: PeerAddress,
    max: u16,
    remote: PeerAddress,
    listener: PeerAddress,
    error: NetworkError,
    direction: Direction,
    peers: Seq<PeerAddress>,
    now: i64,
)
    requires
        node.book.wf(),
        node.linked(),
    ensures
        node.initiate_connection(own, max, remote).linked(),
        node.set_connected(remote, listener, now).linked(),
        node.disconnect_from_peer(remote, now).linked(),
        node.abandon_handshake(remote).linked(),
        node.connection_failed(remote, error, now).linked(),
        node.send_request(direction).linked(),
        node.process_inbound_peers(Some(own), remote, peers).linked(),
        node.process_inbound_peers(None, remote, peers).linked(),
{
    let connected = node.set_connected(remote, listener, now);
    assert(connected.linked()) by {
        if !node.book.is_connected(listener) {
            let first = node.book.set_connected(remote, Some(listener), now);
            assert(node.book.known_record(listener).tasks.len() == 0);
            assert(first.connected[listener].tasks.len() == 0);
        }
    }
    let ended = node.disconnect_from_peer(remote, now);
    assert(ended.linked());
    assert(node.abandon_handshake(remote).linked());
    assert(node.connection_failed(remote, error, now).linked());
}

/// A connection attempt that began and failed leaves the peer neither
/// connecting nor, unless it was connected by another way, connected; an
/// invalid handshake leaves it without a queue and marked as one that cannot
/// be reached, if the node keeps a record of it.
pub proof fn failed_attempt_leaves_no_connection(
    node: NodeView,
    own: PeerAddress,
    max: u16,
    remote: PeerAddress,
    error: NetworkError,
    now: i64,
)
    requires
        node.book.wf(),
        node.linked(),
        node.refusal(own, max, remote) is None,
    ensures
        node.initiate_connection(own, max, remote).book.is_connecting(remote),
        !node.initiate_connection(own, max, remote).connection_failed(
            remote,
            error,
            now,
        ).book.is_connecting(remote),
        !node.initiate_connection(own, max, remote).connection_failed(
            remote,
            error,
            now,
        ).book.is_connected(remote),
        !node.initiate_connection(own, max, remote).connection_failed(
            remote,
            error,
            now,
        ).channels.contains(remote),
        node.book.is_disconnected(remote) ==> !node.initiate_connection(
            own,
            max,
            remote,
        ).connection_failed(remote, NetworkError::InvalidHandshake, now).book.disconnected[remote].is_routable,
{
    let begun = node.initiate_connection(own, max, remote);
    crate::peer_book::steps_preserve_wf(
        node.book,
        remote,
        None,
        now,
        crate::peer_info::PeerQuality::spec_new(),
        PeerTask { id: 0, abortable: false },
    );
    assert(begun.book.wf());
    assert(begun.linked());
    let failed = begun.connection_failed(remote, error, now);
    assert(!failed.book.is_connecting(remote));
}

/// A node of the network: its settings, the peers it knows, and what it
/// keeps for the connected ones.
#[derive(Debug)]
pub struct Node {
    /// The identifier that the node drew when it was made.
    pub id: u64,
    /// The settings of the node.
    pub environment: Environment,
    /// The peers that the node knows.
    pub peer_book: PeerBook,
    /// The peers to which there is a queue of outgoing messages.
    pub channels: AddressSet,
    /// The links of the known network, where the node keeps track of them.
    pub network_topology: Option<NetworkTopology>,
    /// The number that the next task gets.
    pub next_task: u64,
    /// The number of outgoing messages that were dropped.
    pub dropped_messages: u64,
}

impl View for Node {
    type V = NodeView;

    open spec fn view(&self) -> NodeView {
        NodeView {
            id: self.id,
            book: self.peer_book@,
            channels: self.channels@,
            topology: match self.network_topology {
                Some(t) => Some(t@),
                None => None,
            },
            next_task: self.next_task,
            dropped: self.dropped_messages,
        }
    }
}

impl Node {
    /// The parts of the node are sound.
    pub open spec fn wf(&self) -> bool {
        &&& self.peer_book.wf()
        &&& self.channels.wf()
        &&& match self.network_topology {
            Some(t) => t.wf(),
            None => true,
        }
    }

    /// A node with the settings `environment` that knows no peer, with an
    /// identifier drawn at random.
    pub fn new(environment: Environment) -> (r: Result<Node, NetworkError>)
        ensures
            r is Ok,
            r->Ok_0.wf(),
            r->Ok_0.environment == environment,
            r->Ok_0@.book == PeerBookView::empty(),
            r->Ok_0@.channels == Set::<PeerAddress>::empty(),
            r->Ok_0@.topology is None,
            r->Ok_0@.linked(),
    {
        Ok(Node::with_id(random_u64(), environment))
    }

    /// A node with the identifier `id` and the settings `environment` that
    /// knows no peer.
    pub fn with_id(id: u64, environment: Environment) -> (node: Node)
        ensures
            node.wf(),
            node.environment == environment,
            node@ == (NodeView {
                id,
                book: PeerBookView::empty(),
                channels: Set::empty(),
                topology: None,
                next_task: 0,
                dropped: 0,
            }),
            node@.linked(),
    {
        Node {
            id,
            environment,
            peer_book: PeerBook::new(),
            channels: AddressSet::new(),
            network_topology: None,
            next_task: 0,
            dropped_messages: 0,
        }
    }

    /// Makes the node keep track of the links of the known network.
    pub fn track_topology(&mut self)
        requires
            old(self).wf(),
        ensures
            final(self).wf(),
            final(self).environment == old(self).environment,
            final(self)@ == (NodeView {
                topology: match old(self)@.topology {
                    Some(t) => Some(t),
                    None => Some(Set::empty()),
                },
                ..old(self)@
            }),
    {
        if self.network_topology.is_none() {
            self.network_topology = Some(NetworkTopology::new());
        }
    }

    /// The address on which the node listens, once it is known.
    pub fn local_address(&self) -> (r: Option<PeerAddress>)
        ensures
            r == self.environment.local_address,
    {
        self.environment.local_address()
    }

    /// The addresses of the connected peers, each once.
    pub fn connected_peers(&self) -> (v: Vec<PeerAddress>)
        requires
            self.wf(),
        ensures
            v@.no_duplicates(),
            v@.to_set() == self@.book.connected.dom(),
    {
        self.peer_book.connected_addresses()
    }

    /// Whether there is room for one more connection.
    pub fn can_connect(&self) -> (r: bool)
        requires
            self.wf(),
        ensures
            r == self@.can_connect(self.environment.maximum_number_of_connected_peers),
    {
        let num_connected: usize = self.peer_book.number_of_connected_peers() as usize;
        let num_connecting: usize = self.peer_book.number_of_connecting_peers() as usize;
        let max_peers: usize = self.environment.maximum_number_of_connected_peers() as usize;
        if num_connected >= max_peers || num_connected + num_connecting >= max_peers {
            false
        } else {
            true
        }
    }

    /// Begins a connection to `remote`, unless there is a reason not to: no
    /// room, `remote` is the node itself, or the peer is connecting or
    /// connected already. Where the connection is begun, the peer is
    /// connecting, and the time in seconds that the handshake may take comes
    /// back: more for a bootnode than for another peer.
    pub fn initiate_connection(&mut self, remote: PeerAddress) -> (r: Result<u64, NetworkError>)
        requires
            old(self).wf(),
            old(self).environment.local_address is Some,
        ensures
            final(self).wf(),
            final(self).environment == old(self).environment,
            final(self)@ == old(self)@.initiate_connection(
                old(self).environment.local_address->Some_0,
                old(self).environment.maximum_number_of_connected_peers,
                remote,
            ),
            match old(self)@.refusal(
                old(self).environment.local_address->Some_0,
                old(self).environment.maximum_number_of_connected_peers,
                remote,
            ) {
                Some(e) => r == Err::<u64, NetworkError>(e),
                None => r == Ok::<u64, NetworkError>(
                    spec_handshake_timeout_secs(old(self).environment.bootnodes@.contains(remote)),
                ),
            },
            r is Ok ==> final(self)@.book.is_connecting(remote) && !final(self)@.book.is_connected(
                remote,
            ) && !final(self)@.book.is_disconnected(remote),
            old(self)@.linked() ==> final(self)@.linked(),
    {
        let own: PeerAddress = match self.environment.local_address() {
            Some(a) => a,
            None => remote,
        };
        if !self.can_connect() {
            return Err(NetworkError::TooManyConnections);
        }
        if remote == own || ((remote.ip().is_unspecified() || remote.ip().is_loopback())
            && remote.port() == own.port()) {
            return Err(NetworkError::SelfConnectAttempt);
        }
        if self.peer_book.is_connecting(remote) {
            return Err(NetworkError::PeerAlreadyConnecting);
        }
        if self.peer_book.is_connected(remote) {
            return Err(NetworkError::PeerAlreadyConnected);
        }
        let _ = self.peer_book.set_connecting(remote);
        let with_bootnode: bool = self.environment.has_bootnode(remote);
        Ok(handshake_timeout_secs(with_bootnode))
    }

    /// Ends the connection with `remote`, at the time that the clock gives.
    pub fn disconnect_from_peer(&mut self, remote: PeerAddress)
        requires
            old(self).wf(),
        ensures
            final(self).wf(),
            final(self).environment == old(self).environment,
            exists|now: i64| final(self)@ == old(self)@.disconnect_from_peer(remote, now),
            !final(self)@.book.is_connecting(remote),
            !final(self)@.book.is_connected(remote),
            old(self)@.book.is_connected(remote) ==> final(self)@.book.is_disconnected(remote),
            old(self)@.linked() ==> final(self)@.linked(),
    {
        let now: i64 = now_millis();
        self.disconnect_from_peer_at(remote, now);
    }

    /// Ends the connection with `remote` at `now`: a handshake that was under
    /// way is given up; else a connected peer becomes disconnected, its tasks
    /// are released and its queue goes.
    pub fn disconnect_from_peer_at(&mut self, remote: PeerAddress, now: i64)
        requires
            old(self).wf(),
        ensures
            final(self).wf(),
            final(self).environment == old(self).environment,
            final(self)@ == old(self)@.disconnect_from_peer(remote, now),
            !final(self)@.book.is_connecting(remote),
            !final(self)@.book.is_connected(remote),
            old(self)@.book.is_connected(remote) ==> final(self)@.book.is_disconnected(remote),
            old(self)@.linked() ==> final(self)@.linked(),
    {
        proof {
            self.peer_book.lemma_wf();
        }
        let was_connected: bool = self.peer_book.set_disconnected_at(remote, now);
        if was_connected {
            self.channels.remove(remote);
        }
    }

    /// Notes that the handshake with `remote`, which listens at `listener`,
    /// ended well, at the time that the clock gives. See `set_connected_at`.
    pub fn set_connected(&mut self, remote: PeerAddress, listener: PeerAddress) -> (r: Result<
        (u64, u64),
        NetworkError,
    >)
        requires
            old(self).wf(),
        ensures
            final(self).wf(),
            final(self).environment == old(self).environment,
            exists|now: i64| final(self)@ == old(self)@.set_connected(remote, listener, now),
            old(self)@.book.is_connected(listener) ==> r == Err::<(u64, u64), NetworkError>(
                NetworkError::PeerAlreadyConnected,
            ),
            !old(self)@.book.is_connected(listener) ==> r == Ok::<(u64, u64), NetworkError>(
                (old(self)@.next_task, next_number(old(self)@.next_task)),
            ),
            final(self)@.book.is_connected(listener),
            r is Ok ==> !final(self)@.book.is_connecting(listener),
            r is Ok ==> !final(self)@.book.is_disconnected(listener),
            r is Ok ==> !final(self)@.book.is_connecting(remote),
            old(self)@.linked() ==> final(self)@.linked(),
    {
        let now: i64 = now_millis();
        self.set_connected_at(remote, listener, now)
    }

    /// Notes that the handshake with `remote`, which listens at `listener`,
    /// ended well at `now`. A peer that is connected already is refused.
    /// Else the peer gets its queue, is connected, and has two tasks, whose
    /// numbers come back: the one that reads, and the one that writes.
    pub fn set_connected_at(&mut self, remote: PeerAddress, listener: PeerAddress, now: i64) -> (r:
        Result<(u64, u64), NetworkError>)
        requires
            old(self).wf(),
        ensures
            final(self).wf(),
            final(self).environment == old(self).environment,
            final(self)@ == old(self)@.set_connected(remote, listener, now),
            old(self)@.book.is_connected(listener) ==> r == Err::<(u64, u64), NetworkError>(
                NetworkError::PeerAlreadyConnected,
            ),
            !old(self)@.book.is_connected(listener) ==> r == Ok::<(u64, u64), NetworkError>(
                (old(self)@.next_task, next_number(old(self)@.next_task)),
            ),
            final(self)@.book.is_connected(listener),
            r is Ok ==> !final(self)@.book.is_connecting(listener),
            r is Ok ==> !final(self)@.book.is_disconnected(listener),
            r is Ok ==> !final(self)@.book.is_connecting(remote),
            old(self)@.linked() ==> final(self)@.linked(),
    {
        proof {
            self.peer_book.lemma_wf();
        }
        if self.peer_book.is_connected(listener) {
            return Err(NetworkError::PeerAlreadyConnected);
        }
        self.channels.insert(listener);
        let reader: u64 = self.next_task;
        let writer: u64 = reader.wrapping_add(1);
        self.next_task = writer.wrapping_add(1);
        self.peer_book.set_connected_at(remote, Some(listener), now);
        self.peer_book.register_task(listener, reader, true);
        self.peer_book.register_task(listener, writer, false);
        Ok((reader, writer))
    }

    /// Gives up the handshake with `remote`: the peer is no longer
    /// connecting, and is disconnected again if the node had a record of it.
    pub fn abandon_handshake(&mut self, remote: PeerAddress)
        requires
            old(self).wf(),
        ensures
            final(self).wf(),
            final(self).environment == old(self).environment,
            final(self)@ == old(self)@.abandon_handshake(remote),
            !final(self)@.book.is_connecting(remote),
            old(self)@.linked() ==> final(self)@.linked(),
    {
        proof {
            self.peer_book.lemma_wf();
        }
        let _ = self.peer_book.cancel_connecting(remote);
    }

    /// Takes in that a connection attempt to `remote`, which had begun,
    /// failed with `error`, at the time that the clock gives. See
    /// `connection_failed_at`.
    pub fn connection_failed(&mut self, remote: PeerAddress, error: NetworkError)
        requires
            old(self).wf(),
        ensures
            final(self).wf(),
            final(self).environment == old(self).environment,
            exists|now: i64| final(self)@ == old(self)@.connection_failed(remote, error, now),
            !final(self)@.book.is_connecting(remote),
            old(self)@.linked() ==> final(self)@.linked(),
    {
        let now: i64 = now_millis();
        self.connection_failed_at(remote, error, now);
    }

    /// Takes in that a connection attempt to `remote`, which had begun,
    /// failed with `error` at `now`. The peer is no longer connecting,
    /// whatever the error. It is marked as one that cannot be reached only
    /// where the handshake was invalid: not where it ran out of time, and not
    /// where the node found that it talked to itself or that the peer was
    /// connected in the meantime.
    pub fn connection_failed_at(&mut self, remote: PeerAddress, error: NetworkError, now: i64)
        requires
            old(self).wf(),
        ensures
            final(self).wf(),
            final(self).environment == old(self).environment,
            final(self)@ == old(self)@.connection_failed(remote, error, now),
            !final(self)@.book.is_connecting(remote),
            old(self)@.linked() ==> final(self)@.linked(),
    {
        match error {
            NetworkError::PeerAlreadyConnecting => {
                self.abandon_handshake(remote);
            },
            NetworkError::PeerAlreadyConnected => {
                self.abandon_handshake(remote);
            },
            NetworkError::TooManyConnections => {
                self.abandon_handshake(remote);
            },
            NetworkError::SelfConnectAttempt => {
                self.abandon_handshake(remote);
            },
            NetworkError::HandshakeTimeout => {
                self.disconnect_from_peer_at(remote, now);
            },
            _ => {
                self.disconnect_from_peer_at(remote, now);
                proof {
                    self.peer_book.lemma_wf();
                }
                self.peer_book.set_unroutable(remote);
            },
        }
    }

    /// Finds the queue for `message`: the peer to which it goes out, if there
    /// is a queue for that peer. A message for which there is none is
    /// dropped, and the drop is counted.
    pub fn send_request(&mut self, message: &Message) -> (to: Option<PeerAddress>)
        requires
            old(self).wf(),
        ensures
            final(self).wf(),
            final(self).environment == old(self).environment,
            to == old(self)@.route(message.direction),
            final(self)@ == old(self)@.send_request(message.direction),
            old(self)@.linked() ==> final(self)@.linked(),
    {
        match message.direction {
            Direction::Outbound(to) => {
                if self.channels.contains(to) {
                    return Some(to);
                }
            },
            _ => {},
        }
        self.message_dropped();
        None
    }

    /// Counts an outgoing message that was dropped, as one is whose queue is
    /// full.
    pub fn message_dropped(&mut self)
        requires
            old(self).wf(),
        ensures
            final(self).wf(),
            final(self).environment == old(self).environment,
            final(self)@ == (NodeView { dropped: counted(old(self)@.dropped), ..old(self)@ }),
            old(self)@.linked() ==> final(self)@.linked(),
    {
        self.dropped_messages = self.dropped_messages.saturating_add(1);
    }

    /// The peers that are named to `remote` in answer to its `GetPeers`:
    /// connected peers other than `remote`, picked at random, none twice;
    /// `SHARED_PEER_COUNT` of them, or all where there are fewer.
    pub fn send_peers(&self, remote: PeerAddress) -> (peers: Vec<PeerAddress>)
        requires
            self.wf(),
        ensures
            peers@.no_duplicates(),
            forall|i: int|
                0 <= i < peers@.len() ==> self@.book.is_connected(#[trigger] peers@[i])
                    && peers@[i] != remote,
            peers@.len() == if self@.book.connected.dom().remove(remote).len()
                < SHARED_PEER_COUNT {
                self@.book.connected.dom().remove(remote).len()
            } else {
                SHARED_PEER_COUNT as nat
            },
    {
        let connected = self.peer_book.connected_addresses();
        let nobody: Vec<PeerAddress> = Vec::new();
        let candidates = others(&connected, Some(remote), &nobody);
        proof {
            lemma_filtered(connected@, other_than(Some(remote), nobody@));
            assert(candidates@.to_set() =~= self@.book.connected.dom().remove(remote));
            candidates@.unique_seq_to_set();
        }
        let amount: usize = if candidates.len() < SHARED_PEER_COUNT {
            candidates.len()
        } else {
            SHARED_PEER_COUNT
        };
        let peers = choose_multiple(&candidates, amount);
        proof {
            assert forall|i: int| 0 <= i < peers@.len() implies self@.book.is_connected(
                #[trigger] peers@[i],
            ) && peers@[i] != remote by {
                assert(candidates@.contains(peers@[i]));
                assert(connected@.to_set().contains(peers@[i]));
            }
        }
        peers
    }

    /// Takes in that `source` named `peers` as its peers: each of them that
    /// the node does not know, and that is not the node itself, is now a
    /// disconnected peer; and the topology, where it is kept, has the links
    /// of `source` to `peers`, and no other links of `source`.
    pub fn process_inbound_peers(&mut self, source: PeerAddress, peers: Vec<PeerAddress>)
        requires
            old(self).wf(),
        ensures
            final(self).wf(),
            final(self).environment == old(self).environment,
            final(self)@ == old(self)@.process_inbound_peers(
                old(self).environment.local_address,
                source,
                peers@,
            ),
            old(self)@.linked() ==> final(self)@.linked(),
    {
        let own: Option<PeerAddress> = self.environment.local_address();
        let ghost start = self@;
        let n: usize = peers.len();
        let mut i: usize = 0;
        proof {
            self.peer_book.lemma_wf();
            assert(self@.book.disconnected =~= start.inbound_peers(own, peers@.subrange(0, 0)));
        }
        while i < n
            invariant
                i <= n,
                n == peers@.len(),
                self.wf(),
                self.environment == old(self).environment,
                start == old(self)@,
                own == self.environment.local_address,
                self@.book.connecting == start.book.connecting,
                self@.book.parked == start.book.parked,
                self@.book.connected == start.book.connected,
                self@.book.released == start.book.released,
                self@.book.disconnected == start.inbound_peers(own, peers@.subrange(0, i as int)),
                self@.channels == start.channels,
                self@.topology == start.topology,
                self@.id == start.id,
                self@.next_task == start.next_task,
                self@.dropped == start.dropped,
            decreases n - i,
        {
            let peer: PeerAddress = peers[i];
            proof {
                let sofar = peers@.subrange(0, i as int);
                let next = peers@.subrange(0, i + 1);
                assert(next =~= sofar.push(peer));
                lemma_pushed(sofar, peer);
            }
            let is_own: bool = match own {
                Some(o) => o == peer,
                None => false,
            };
            if !is_own {
                self.peer_book.add_peer(peer);
            }
            proof {
                assert(self@.book.disconnected =~= start.inbound_peers(
                    own,
                    peers@.subrange(0, i + 1),
                ));
            }
            i += 1;
        }
        proof {
            assert(peers@.subrange(0, n as int) =~= peers@);
        }
        match &mut self.network_topology {
            Some(topology) => {
                topology.update(source, peers);
            },
            None => {},
        }
    }
}

} // verus!
