//! How a node takes in a message: what it changes in its own state, and
//! what it asks others to do.

use crate::address::PeerAddress;
use crate::clock::now_millis;
use crate::errors::NetworkError;
use crate::maintenance::Action;
use crate::message::{Direction, Message, Payload};
use crate::node::{Node, NodeView};
use vstd::prelude::*;

verus! {

/// What the node reads of consensus when it takes a message in.
#[derive(Clone, Copy, Debug, PartialEq, Eq, Structural)]
pub struct ConsensusStatus {
    /// Whether blocks are being synced.
    pub is_syncing_blocks: bool,
    /// Whether a block sync may be started.
    pub should_sync_blocks: bool,
    /// The height of the chain of the node.
    pub current_block_height: u32,
}

/// Whether a node drops `message` unseen: a bootnode takes in nothing but
/// `GetPeers` and what the node made for itself.
pub open spec fn drops(is_bootnode: bool, message: Message) -> bool {
    is_bootnode && !(message.payload is GetPeers || message.direction == Direction::Internal)
}

/// Whether `message` can be taken in: unless it is dropped, a payload that
/// is answered to a peer has come in from one, and a payload that is handed
/// to consensus finds consensus there.
pub open spec fn dispatchable(is_bootnode: bool, message: Message, has_consensus: bool) -> bool {
    drops(is_bootnode, message) || ((message.payload.spec_needs_source()
        ==> message.direction is Inbound) && (message.payload.spec_needs_consensus()
        ==> has_consensus))
}

/// Whether a `Ping` of `source` with the height `height` starts a block
/// sync with that peer: the peer is more than one block ahead, a sync may be
/// started, and none is under way with the peer.
pub open spec fn starts_sync(
    node: NodeView,
    source: PeerAddress,
    height: u32,
    consensus: ConsensusStatus,
) -> bool {
    height > consensus.current_block_height + 1 && consensus.should_sync_blocks
        && !node.book.is_syncing_blocks(source)
}

/// The node after a message in `direction` was seen at `now`: a peer that
/// sent a message was heard from.
pub open spec fn seen(node: NodeView, direction: Direction, now: i64) -> NodeView {
    match direction {
        Direction::Inbound(source) => NodeView {
            book: node.book.with_quality(
                source,
                node.book.quality(source).spec_register_message(now),
            ),
            ..node
        },
        _ => node,
    }
}

/// The error with which `message` is refused, if it is: the node tells
/// itself that it connects to a peer that is connected already.
pub open spec fn dispatch_error(node: NodeView, is_bootnode: bool, message: Message) -> Option<
    NetworkError,
> {
    if drops(is_bootnode, message) {
        None
    } else {
        match message.payload {
            Payload::ConnectingTo(remote) => if message.direction == Direction::Internal
                && node.book.is_connected(remote) {
                Some(NetworkError::PeerAlreadyConnected)
            } else {
                None
            },
            _ => None,
        }
    }
}

/// The node after it took in `message` at `now`, where it listens on `own`,
/// if it knows where it listens.
pub open spec fn dispatched(
    node: NodeView,
    own: Option<PeerAddress>,
    is_bootnode: bool,
    message: Message,
    now: i64,
) -> NodeView {
    if drops(is_bootnode, message) {
        node
    } else {
        let after = seen(node, message.direction, now);
        let internal = message.direction == Direction::Internal;
        let source = message.direction.spec_source()->Some_0;
        match message.payload {
            Payload::ConnectingTo(remote) => if internal {
                NodeView { book: after.book.set_connecting(remote), ..after }
            } else {
                after
            },
            Payload::ConnectedTo(remote, listener) => if internal {
                NodeView { book: after.book.set_connected(remote, Some(listener), now), ..after }
            } else {
                after
            },
            Payload::Disconnect(remote) => if internal {
                after.disconnect_from_peer(remote, now)
            } else {
                after
            },
            Payload::Sync(hashes) => NodeView {
                book: after.book.with_quality(
                    source,
                    after.book.quality(source).spec_expecting_sync_blocks(hashes@.len() as u32),
                ),
                ..after
            },
            Payload::Peers(peers) => after.process_inbound_peers(own, source, peers@),
            Payload::Ping(height) => NodeView {
                book: after.book.with_quality(
                    source,
                    after.book.quality(source).spec_received_ping(height),
                ),
                ..after
            },
            Payload::Pong => NodeView {
                book: after.book.with_quality(
                    source,
                    after.book.quality(source).spec_received_pong(now),
                ),
                ..after
            },
            _ => after,
        }
    }
}

/// What is to be done for `message`, in this order; where one of the
/// actions fails, the later ones are left out.
pub open spec fn dispatch_actions(
    node: NodeView,
    is_bootnode: bool,
    message: Message,
    consensus: Option<ConsensusStatus>,
) -> Seq<Action> {
    if drops(is_bootnode, message) {
        Seq::empty()
    } else {
        let source = message.direction.spec_source()->Some_0;
        let syncing = consensus->Some_0.is_syncing_blocks;
        match message.payload {
            Payload::Transaction(_) => seq![Action::ReceivedTransaction(source)],
            Payload::Block(_) => seq![Action::ReceivedBlock(source, true)],
            Payload::SyncBlock(_) => seq![
                Action::ReceivedBlock(source, false),
                Action::GotSyncBlock(source),
            ],
            Payload::GetBlocks(_) => if syncing {
                Seq::empty()
            } else {
                seq![Action::ReceivedGetBlocks(source)]
            },
            Payload::GetMemoryPool => if syncing {
                Seq::empty()
            } else {
                seq![Action::ReceivedGetMemoryPool(source)]
            },
            Payload::MemoryPool(_) => seq![Action::ReceivedMemoryPool],
            Payload::GetSync(_) => if syncing {
                Seq::empty()
            } else {
                seq![Action::ReceivedGetSync(source)]
            },
            Payload::Sync(_) => seq![Action::ReceivedSync(source)],
            Payload::GetPeers => seq![Action::SendPeers(source)],
            Payload::Ping(height) => match consensus {
                Some(status) => if starts_sync(node, source, height, status) {
                    seq![
                        Action::SendPong(source),
                        Action::RegisterBlockSyncAttempt,
                        Action::UpdateBlocks(source),
                    ]
                } else {
                    seq![Action::SendPong(source), Action::FinishedSyncingBlocks]
                },
                None => seq![Action::SendPong(source)],
            },
            _ => Seq::empty(),
        }
    }
}

/// A copy of `list`.
fn copy_addresses(list: &Vec<PeerAddress>) -> (r: Vec<PeerAddress>)
    ensures
        r@ == list@,
{
    let mut r: Vec<PeerAddress> = Vec::with_capacity(list.len());
    let mut i: usize = 0;
    while i < list.len()
        invariant
            i <= list@.len(),
            r@ == list@.subrange(0, i as int),
        decreases list@.len() - i,
    {
        r.push(list[i]);
        i += 1;
        proof {
            assert(r@ =~= list@.subrange(0, i as int));
        }
    }
    proof {
        assert(r@ =~= list@);
    }
    r
}

impl Node {
    /// Takes in what the inbound queue gave, at the time that the clock
    /// gives. See `process_incoming_message_at`.
    pub fn process_incoming_message(
        &mut self,
        received: Option<&Message>,
        consensus: Option<ConsensusStatus>,
    ) -> (r: Result<Vec<Action>, NetworkError>)
        requires
            old(self).wf(),
            received is Some ==> dispatchable(
                old(self).environment.is_bootnode,
                *received->Some_0,
                consensus is Some,
            ),
        ensures
            final(self).wf(),
            final(self).environment == old(self).environment,
            received is None ==> r == Err::<Vec<Action>, NetworkError>(
                NetworkError::ReceiverFailedToParse,
            ) && final(self)@ == old(self)@,
            received is Some ==> exists|now: i64|
                takes_in(
                    old(self)@,
                    old(self).environment.local_address,
                    old(self).environment.is_bootnode,
                    *received->Some_0,
                    consensus,
                    now,
                    final(self)@,
                    r,
                ),
            old(self)@.linked() && !(received is Some && breaks_links(
                old(self).environment.is_bootnode,
                *received->Some_0,
            )) ==> final(self)@.linked(),
    {
        let now: i64 = now_millis();
        self.process_incoming_message_at(received, consensus, now)
    }

    /// Takes in what the inbound queue gave at `now`: a message, or nothing
    /// where the queue is closed, which is an error. A bootnode drops all but
    /// `GetPeers` and what the node made for itself. A peer that sent the
    /// message was heard from. Then the payload decides: the node notes what
    /// it tells itself of its connections; answers `Ping` with `Pong` and
    /// `GetPeers` with `Peers`; notes the height that a `Ping` reports, and
    /// the round trip that a `Pong` ends; takes in the peers that it is told
    /// of; and hands blocks, transactions and syncs to consensus, requests
    /// only while no block sync is under way. What is to be done by others
    /// comes back as actions.
    pub fn process_incoming_message_at(
        &mut self,
        received: Option<&Message>,
        consensus: Option<ConsensusStatus>,
        now: i64,
    ) -> (r: Result<Vec<Action>, NetworkError>)
        requires
            old(self).wf(),
            received is Some ==> dispatchable(
                old(self).environment.is_bootnode,
                *received->Some_0,
                consensus is Some,
            ),
        ensures
            final(self).wf(),
            final(self).environment == old(self).environment,
            received is None ==> r == Err::<Vec<Action>, NetworkError>(
                NetworkError::ReceiverFailedToParse,
            ) && final(self)@ == old(self)@,
            received is Some ==> takes_in(
                old(self)@,
                old(self).environment.local_address,
                old(self).environment.is_bootnode,
                *received->Some_0,
                consensus,
                now,
                final(self)@,
                r,
            ),
            old(self)@.linked() && !(received is Some && breaks_links(
                old(self).environment.is_bootnode,
                *received->Some_0,
            )) ==> final(self)@.linked(),
    {
        let message: &Message = match received {
            Some(m) => m,
            None => { return Err(NetworkError::ReceiverFailedToParse); },
        };
        let is_bootnode: bool = self.environment.is_bootnode();
        let internal: bool = message.direction.is_internal();
        if is_bootnode && !(message.payload.is_get_peers() || internal) {
            return Ok(Vec::new());
        }
        let ghost start = self@;
        let sender: Option<PeerAddress> = message.direction.source();
        let source: PeerAddress = match sender {
            Some(a) => {
                self.peer_book.register_message_at(a, now);
                a
            },
            None => PeerAddress::new_v4(0, 0, 0, 0, 0),
        };
        let mut actions: Vec<Action> = Vec::new();
        match &message.payload {
            Payload::ConnectingTo(remote) => {
                if internal {
                    match self.peer_book.set_connecting(*remote) {
                        Ok(_) => {},
                        Err(e) => { return Err(e); },
                    }
                }
            },
            Payload::ConnectedTo(remote, listener) => {
                if internal {
                    self.peer_book.set_connected_at(*remote, Some(*listener), now);
                }
            },
            Payload::Transaction(_) => {
                actions.push(Action::ReceivedTransaction(source));
            },
            Payload::Block(_) => {
                actions.push(Action::ReceivedBlock(source, true));
            },
            Payload::SyncBlock(_) => {
                actions.push(Action::ReceivedBlock(source, false));
                actions.push(Action::GotSyncBlock(source));
            },
            Payload::GetBlocks(_) => {
                if !is_syncing(consensus) {
                    actions.push(Action::ReceivedGetBlocks(source));
                }
            },
            Payload::GetMemoryPool => {
                if !is_syncing(consensus) {
                    actions.push(Action::ReceivedGetMemoryPool(source));
                }
            },
            Payload::MemoryPool(_) => {
                actions.push(Action::ReceivedMemoryPool);
            },
            Payload::GetSync(_) => {
                if !is_syncing(consensus) {
                    actions.push(Action::ReceivedGetSync(source));
                }
            },
            Payload::Sync(hashes) => {
                self.peer_book.expecting_sync_blocks(source, hashes.len());
                actions.push(Action::ReceivedSync(source));
            },
            Payload::Disconnect(remote) => {
                if internal {
                    self.disconnect_from_peer_at(*remote, now);
                }
            },
            Payload::GetPeers => {
                actions.push(Action::SendPeers(source));
            },
            Payload::Peers(peers) => {
                self.process_inbound_peers(source, copy_addresses(peers));
            },
            Payload::Ping(height) => {
                actions.push(Action::SendPong(source));
                match consensus {
                    Some(status) => {
                        let ahead: bool = *height as u64 > status.current_block_height as u64 + 1;
                        if ahead && status.should_sync_blocks && !self.peer_book.is_syncing_blocks(
                            source,
                        ) {
                            actions.push(Action::RegisterBlockSyncAttempt);
                            actions.push(Action::UpdateBlocks(source));
                        } else {
                            actions.push(Action::FinishedSyncingBlocks);
                        }
                    },
                    None => {},
                }
                self.peer_book.received_ping(source, *height);
            },
            Payload::Pong => {
                self.peer_book.received_pong_at(source, now);
            },
            Payload::Unknown => {},
        }
        proof {
            assert(actions@ =~= dispatch_actions(start, is_bootnode, *message, consensus));
        }
        Ok(actions)
    }

    /// Notes that a sync block of `source` was taken in; where it was the
    /// last one that the peer owed, consensus is to be told that the block
    /// sync is over.
    pub fn got_sync_block(&mut self, source: PeerAddress) -> (actions: Vec<Action>)
        requires
            old(self).wf(),
        ensures
            final(self).wf(),
            final(self).environment == old(self).environment,
            final(self)@ == (NodeView {
                book: old(self)@.book.with_quality(
                    source,
                    old(self)@.book.quality(source).spec_got_sync_block(),
                ),
                ..old(self)@
            }),
            actions@ == if old(self)@.book.is_connected(source) && old(self)@.book.quality(
                source,
            ).remaining_sync_blocks == 1 {
                seq![Action::FinishedSyncingBlocks]
            } else {
                Seq::<Action>::empty()
            },
            old(self)@.linked() ==> final(self)@.linked(),
    {
        let mut actions: Vec<Action> = Vec::new();
        if self.peer_book.got_sync_block(source) {
            actions.push(Action::FinishedSyncingBlocks);
        }
        actions
    }

    /// The peer that is asked for its memory pool at a round of transaction
    /// sync: the connected peer that was heard from last, if there is one.
    /// Nothing is asked where there is no consensus, where the node is a
    /// bootnode, or while blocks are being synced.
    pub fn update_transactions(&self, consensus: Option<ConsensusStatus>) -> (r: Option<
        Option<PeerAddress>,
    >)
        requires
            self.wf(),
        ensures
            r is Some <==> consensus is Some && !self.environment.is_bootnode
                && !consensus->Some_0.is_syncing_blocks,
            r is Some ==> (r->Some_0 is None <==> self@.book.connected.dom().is_empty()),
            r is Some && r->Some_0 is Some ==> self@.book.is_connected(r->Some_0->Some_0)
                && forall|a: PeerAddress| #[trigger]
                self@.book.is_connected(a) ==> crate::peer_book::not_later(
                    self@.book.quality(a).last_seen,
                    self@.book.quality(r->Some_0->Some_0).last_seen,
                ),
    {
        match consensus {
            Some(status) => {
                if self.environment.is_bootnode() || status.is_syncing_blocks {
                    None
                } else {
                    Some(self.peer_book.last_seen())
                }
            },
            None => None,
        }
    }
}

/// Whether blocks are being synced, as far as `consensus` tells.
fn is_syncing(consensus: Option<ConsensusStatus>) -> (r: bool)
    ensures
        consensus is Some ==> r == consensus->Some_0.is_syncing_blocks,
{
    match consensus {
        Some(status) => status.is_syncing_blocks,
        None => false,
    }
}

/// Whether taking in `message` can leave a connected peer without its queue
/// and tasks: the node tells itself that a peer is connected.
pub open spec fn breaks_links(is_bootnode: bool, message: Message) -> bool {
    !drops(is_bootnode, message) && message.payload is ConnectedTo && message.direction
        == Direction::Internal
}

/// Whether taking in `message` at `now` brings the node from `before` to
/// `after` with the result `result`: a message that is refused leaves the
/// node as it was; any other changes it as `dispatched` says and gives the
/// actions that `dispatch_actions` names.
pub open spec fn takes_in(
    before: NodeView,
    own: Option<PeerAddress>,
    is_bootnode: bool,
    message: Message,
    consensus: Option<ConsensusStatus>,
    now: i64,
    after: NodeView,
    result: Result<Vec<Action>, NetworkError>,
) -> bool {
    match dispatch_error(before, is_bootnode, message) {
        Some(e) => result == Err::<Vec<Action>, NetworkError>(e) && after == before,
        None => result is Ok && result->Ok_0@ == dispatch_actions(
            before,
            is_bootnode,
            message,
            consensus,
        ) && after == dispatched(before, own, is_bootnode, message, now),
    }
}

} // verus!
