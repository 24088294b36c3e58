//! The peer book: every peer that a node knows, in the state it is in, and
//! the steps that bring a peer from one state to another.

use crate::address::PeerAddress;
use crate::clock::now_millis;
use crate::errors::NetworkError;
use crate::peer_info::{PeerInfo, PeerInfoView, PeerQuality, PeerTask, TaskAction, shutdown_actions};
use crate::peer_table::{AddressSet, PeerTable, addresses_of, records_of, views_of};
use vstd::prelude::*;

verus! {

/// The address under which a peer is kept once it is connected: the address
/// at which it listens if that is known, else the address it connected from.
pub open spec fn listener_of(address: PeerAddress, listener: Option<PeerAddress>) -> PeerAddress {
    match listener {
        Some(l) => l,
        None => address,
    }
}

/// What a `PeerBook` holds.
pub struct PeerBookView {
    /// The addresses with which a handshake is under way.
    pub connecting: Set<PeerAddress>,
    /// The records that the book had of peers with which a handshake is under
    /// way: they are kept aside until the handshake ends.
    pub parked: Map<PeerAddress, PeerInfoView>,
    /// The records of the connected peers.
    pub connected: Map<PeerAddress, PeerInfoView>,
    /// The records of the known peers that are not connected.
    pub disconnected: Map<PeerAddress, PeerInfoView>,
    /// What is to be done with the tasks of peers that were disconnected, and
    /// has not been taken out yet.
    pub released: Seq<TaskAction>,
}

impl PeerBookView {
    pub open spec fn empty() -> PeerBookView {
        PeerBookView {
            connecting: Set::empty(),
            parked: Map::empty(),
            connected: Map::empty(),
            disconnected: Map::empty(),
            released: Seq::empty(),
        }
    }

    pub open spec fn is_connecting(self, address: PeerAddress) -> bool {
        self.connecting.contains(address)
    }

    pub open spec fn is_connected(self, address: PeerAddress) -> bool {
        self.connected.dom().contains(address)
    }

    pub open spec fn is_disconnected(self, address: PeerAddress) -> bool {
        self.disconnected.dom().contains(address)
    }

    /// What holds of every peer book: no peer is in two states at once;
    /// each record is kept under its own address; a peer that is not
    /// connected has no tasks; and a record is kept aside only for a peer with
    /// which a handshake is under way.
    pub open spec fn wf(self) -> bool {
        &&& self.connecting.finite()
        &&& self.connected.dom().finite()
        &&& self.disconnected.dom().finite()
        &&& self.parked.dom().finite()
        &&& self.exclusive()
        &&& forall|a: PeerAddress| #[trigger]
            self.parked.dom().contains(a) ==> self.connecting.contains(a) && self.parked[a].address
                == a && self.parked[a].wf() && self.parked[a].tasks.len() == 0
        &&& forall|a: PeerAddress| #[trigger]
            self.connected.dom().contains(a) ==> self.connected[a].address == a
                && self.connected[a].wf()
        &&& forall|a: PeerAddress| #[trigger]
            self.disconnected.dom().contains(a) ==> self.disconnected[a].address == a
                && self.disconnected[a].wf() && self.disconnected[a].tasks.len() == 0
    }

    /// No address is in more than one of the three states.
    pub open spec fn exclusive(self) -> bool {
        forall|a: PeerAddress|
            #![trigger self.connecting.contains(a)]
            #![trigger self.connected.dom().contains(a)]
            #![trigger self.disconnected.dom().contains(a)]
            {
                &&& !(self.is_connecting(a) && self.is_connected(a))
                &&& !(self.is_connecting(a) && self.is_disconnected(a))
                &&& !(self.is_connected(a) && self.is_disconnected(a))
            }
    }

    /// The book after `address` was heard of: a peer that the book does not
    /// know in any state is now disconnected, with a fresh record.
    pub open spec fn add_peer(self, address: PeerAddress) -> PeerBookView {
        if self.is_connected(address) || self.is_disconnected(address) || self.is_connecting(
            address,
        ) {
            self
        } else {
            PeerBookView {
                disconnected: self.disconnected.insert(address, PeerInfoView::fresh(address)),
                ..self
            }
        }
    }

    /// The book after a handshake with `address` began: the peer is
    /// connecting and in no other state. The record of a peer that was
    /// disconnected is kept aside. A connected peer stays as it is.
    pub open spec fn set_connecting(self, address: PeerAddress) -> PeerBookView {
        if self.is_connected(address) {
            self
        } else if self.is_disconnected(address) {
            PeerBookView {
                connecting: self.connecting.insert(address),
                parked: self.parked.insert(address, self.disconnected[address]),
                disconnected: self.disconnected.remove(address),
                ..self
            }
        } else {
            PeerBookView { connecting: self.connecting.insert(address), ..self }
        }
    }

    /// The book after the handshake with `address` was given up: the peer is
    /// no longer connecting, and is disconnected again if the book had a
    /// record of it. Nothing changes unless the peer was connecting.
    pub open spec fn cancel_connecting(self, address: PeerAddress) -> PeerBookView {
        if !self.is_connecting(address) {
            self
        } else if self.parked.dom().contains(address) {
            PeerBookView {
                connecting: self.connecting.remove(address),
                parked: self.parked.remove(address),
                disconnected: self.disconnected.insert(address, self.parked[address]),
                ..self
            }
        } else {
            PeerBookView { connecting: self.connecting.remove(address), ..self }
        }
    }

    /// The record with which the peer at `key` becomes connected: the one
    /// that the book has of it, as a disconnected peer or kept aside, or else
    /// a fresh one.
    pub open spec fn known_record(self, key: PeerAddress) -> PeerInfoView {
        if self.is_disconnected(key) {
            self.disconnected[key]
        } else if self.parked.dom().contains(key) {
            self.parked[key]
        } else {
            PeerInfoView::fresh(key)
        }
    }

    /// The book after the handshake with `address` ended well at `now`. The
    /// peer is kept under its listener, with the record that the book has of
    /// a peer there, or else with a fresh one; it is connected and in no other
    /// state. Where the listener is another address than the one that the
    /// handshake was made with, that address is no longer connecting either,
    /// and is disconnected again if the book had a record of it.
    pub open spec fn set_connected(
        self,
        address: PeerAddress,
        listener: Option<PeerAddress>,
        now: i64,
    ) -> PeerBookView {
        let key = listener_of(address, listener);
        let back = address != key && self.parked.dom().contains(address);
        PeerBookView {
            connecting: self.connecting.remove(address).remove(key),
            parked: self.parked.remove(address).remove(key),
            connected: self.connected.insert(key, self.known_record(key).set_connected(now)),
            disconnected: if back {
                self.disconnected.remove(key).insert(address, self.parked[address])
            } else {
                self.disconnected.remove(key)
            },
            released: self.released,
        }
    }

    /// Whether `set_disconnected` takes a connected peer down: it does not
    /// where the address was connecting, nor where it was not connected.
    pub open spec fn disconnects(self, address: PeerAddress) -> bool {
        !self.is_connecting(address) && self.is_connected(address)
    }

    /// The book after the connection with `address` ended at `now`. A
    /// handshake that was under way is given up; else a connected peer becomes
    /// disconnected, and its tasks are released.
    pub open spec fn set_disconnected(self, address: PeerAddress, now: i64) -> PeerBookView {
        if self.is_connecting(address) {
            self.cancel_connecting(address)
        } else if self.is_connected(address) {
            PeerBookView {
                connected: self.connected.remove(address),
                disconnected: self.disconnected.insert(
                    address,
                    self.connected[address].set_disconnected(now),
                ),
                released: self.released + shutdown_actions(self.connected[address].tasks),
                ..self
            }
        } else {
            self
        }
    }

    /// The book after `address` was forgotten at `now`.
    pub open spec fn remove_peer(self, address: PeerAddress, now: i64) -> PeerBookView {
        let after = self.set_disconnected(address, now);
        PeerBookView { disconnected: after.disconnected.remove(address), ..after }
    }

    /// The book after a connection to `address` could not be made. Only a
    /// disconnected peer is marked.
    pub open spec fn set_unroutable(self, address: PeerAddress) -> PeerBookView {
        if self.is_disconnected(address) {
            PeerBookView {
                disconnected: self.disconnected.insert(
                    address,
                    self.disconnected[address].with_routable(false),
                ),
                ..self
            }
        } else {
            self
        }
    }

    /// The book in which the connected peer `address` has the quality
    /// `quality`. Where the peer is not connected, the book as it is.
    pub open spec fn with_quality(self, address: PeerAddress, quality: PeerQuality) -> PeerBookView {
        if self.is_connected(address) {
            PeerBookView {
                connected: self.connected.insert(
                    address,
                    self.connected[address].with_quality(quality),
                ),
                ..self
            }
        } else {
            self
        }
    }

    /// The book in which the connected peer `address` has one more task.
    pub open spec fn with_task(self, address: PeerAddress, task: PeerTask) -> PeerBookView {
        if self.is_connected(address) {
            PeerBookView {
                connected: self.connected.insert(address, self.connected[address].with_task(task)),
                ..self
            }
        } else {
            self
        }
    }

    /// The quality of the connected peer `address`.
    pub open spec fn quality(self, address: PeerAddress) -> PeerQuality {
        self.connected[address].quality
    }

    /// Whether the book has a record of `address`: the peer is connected or
    /// disconnected, or a handshake is under way with a peer that the book
    /// knew before.
    pub open spec fn has_record(self, address: PeerAddress) -> bool {
        self.is_connected(address) || self.is_disconnected(address) || self.parked.dom().contains(
            address,
        )
    }

    /// The record that the book has of `address`.
    pub open spec fn record(self, address: PeerAddress) -> PeerInfoView {
        if self.is_connected(address) {
            self.connected[address]
        } else if self.is_disconnected(address) {
            self.disconnected[address]
        } else {
            self.parked[address]
        }
    }

    /// The records that are kept when the node stops: every record that the
    /// book has, but for those of loopback addresses, each without quality
    /// and tasks. The record of a peer with which a handshake is under way
    /// is among them.
    pub open spec fn snapshot(self) -> Map<PeerAddress, PeerInfoView> {
        Map::new(
            |a: PeerAddress| self.has_record(a) && !a.ip.spec_is_loopback(),
            |a: PeerAddress| self.record(a).persisted(),
        )
    }

    /// Whether blocks are being synced with the connected peer `address`.
    pub open spec fn is_syncing_blocks(self, address: PeerAddress) -> bool {
        self.is_connected(address) && self.quality(address).remaining_sync_blocks != 0
    }

    /// The book after all that was owed in sync blocks was given up.
    pub open spec fn cancel_any_unfinished_syncing(self) -> PeerBookView {
        PeerBookView {
            connected: Map::new(
                |a: PeerAddress| self.connected.dom().contains(a),
                |a: PeerAddress|
                    self.connected[a].with_quality(self.connected[a].quality.spec_cancel_syncing()),
            ),
            ..self
        }
    }
}

/// The disconnected peers that a list of saved records restores: each record
/// but those of loopback addresses, without quality and tasks; of two records
/// of one address the later one.
pub open spec fn restored(records: Seq<PeerInfoView>) -> Map<PeerAddress, PeerInfoView>
    decreases records.len(),
{
    if records.len() == 0 {
        Map::empty()
    } else {
        let rest = restored(records.drop_last());
        let last = records.last();
        if last.address.ip.spec_is_loopback() {
            rest
        } else {
            rest.insert(last.address, last.persisted())
        }
    }
}

/// The book that a list of saved records restores: every peer of the list is
/// disconnected.
pub open spec fn loaded(records: Seq<PeerInfoView>) -> PeerBookView {
    PeerBookView { disconnected: restored(records), ..PeerBookView::empty() }
}

/// Whether the time `a` is not later than the time `b`, where no time at all
/// comes before every time.
pub open spec fn not_later(a: Option<i64>, b: Option<i64>) -> bool {
    match (a, b) {
        (None, _) => true,
        (Some(_), None) => false,
        (Some(x), Some(y)) => x <= y,
    }
}

/// Every step of a well-formed book gives a well-formed book. In particular
/// no step brings a peer into two of the three states at once: a peer is
/// connecting, connected, disconnected, or unknown.
pub proof fn steps_preserve_wf(
    book: PeerBookView,
    address: PeerAddress,
    listener: Option<PeerAddress>,
    now: i64,
    quality: PeerQuality,
    task: PeerTask,
)
    requires
        book.wf(),
    ensures
        PeerBookView::empty().wf(),
        book.add_peer(address).wf(),
        book.set_connecting(address).wf(),
        book.cancel_connecting(address).wf(),
        book.set_connected(address, listener, now).wf(),
        book.set_disconnected(address, now).wf(),
        book.remove_peer(address, now).wf(),
        book.set_unroutable(address).wf(),
        quality.wf() ==> book.with_quality(address, quality).wf(),
        book.with_task(address, task).wf(),
        book.cancel_any_unfinished_syncing().wf(),
{
    let c = book.cancel_any_unfinished_syncing();
    assert(c.connected.dom() =~= book.connected.dom());
    assert(c.wf());
    assert(book.add_peer(address).wf());
    assert(book.set_connecting(address).wf());
    assert(book.cancel_connecting(address).wf());
    let key = listener_of(address, listener);
    let sc = book.set_connected(address, listener, now);
    assert(sc.wf());
    let sd = book.set_disconnected(address, now);
    assert(sd.wf()) by {
        if !book.is_connecting(address) && book.is_connected(address) {
            assert(book.connected[address].set_disconnected(now).tasks.len() == 0);
        }
    }
    assert(book.remove_peer(address, now).wf());
    assert(book.set_unroutable(address).wf());
    assert(book.with_task(address, task).wf());
}

/// Where each step leaves the peer that it is about, in a well-formed book:
/// a peer that is heard of and was unknown is disconnected; a handshake that
/// begins makes the peer connecting and nothing else, unless it is connected;
/// a handshake that ends well makes the peer at the listener connected and
/// nothing else, and the address of the handshake is no longer connecting; a
/// connection that ends leaves the peer neither connecting nor connected.
pub proof fn steps_move_between_states(
    book: PeerBookView,
    address: PeerAddress,
    listener: Option<PeerAddress>,
    now: i64,
)
    requires
        book.wf(),
    ensures
        !book.is_connecting(address) && !book.is_connected(address) ==> book.add_peer(
            address,
        ).is_disconnected(address),
        !book.is_connected(address) ==> book.set_connecting(address).is_connecting(address)
            && !book.set_connecting(address).is_connected(address) && !book.set_connecting(
            address,
        ).is_disconnected(address),
        book.set_connected(address, listener, now).is_connected(listener_of(address, listener)),
        !book.set_connected(address, listener, now).is_connecting(listener_of(address, listener)),
        !book.set_connected(address, listener, now).is_disconnected(
            listener_of(address, listener),
        ),
        !book.set_connected(address, listener, now).is_connecting(address),
        !book.set_disconnected(address, now).is_connecting(address),
        !book.set_disconnected(address, now).is_connected(address),
        book.is_connected(address) ==> book.set_disconnected(address, now).is_disconnected(address),
        book.is_disconnected(address) ==> book.set_connecting(address).cancel_connecting(
            address,
        ).disconnected == book.disconnected,
{
    if book.is_disconnected(address) {
        let begun = book.set_connecting(address);
        let back = begun.cancel_connecting(address);
        assert(back.disconnected =~= book.disconnected);
    }
}

/// `set_disconnected` takes a peer down exactly if it was connected: not if
/// it was connecting, and not if it was unknown.
pub proof fn disconnects_iff_connected(book: PeerBookView, address: PeerAddress)
    requires
        book.wf(),
    ensures
        book.disconnects(address) <==> book.is_connected(address),
        book.is_connecting(address) ==> !book.disconnects(address),
        !book.is_connecting(address) && !book.is_connected(address) ==> !book.disconnects(address),
{
}

/// The peers that a node knows, each in the state it is in.
#[derive(Debug)]
pub struct PeerBook {
    /// The addresses with which a handshake is under way.
    connecting_peers: AddressSet,
    /// The records that the book had of peers with which a handshake is under
    /// way.
    parked_peers: PeerTable,
    /// The connected peers.
    connected_peers: PeerTable,
    /// The known peers that are not connected.
    disconnected_peers: PeerTable,
    /// What is to be done with the tasks of peers that were disconnected.
    released_tasks: Vec<TaskAction>,
}

impl View for PeerBook {
    type V = PeerBookView;

    closed spec fn view(&self) -> PeerBookView {
        PeerBookView {
            connecting: self.connecting_peers@,
            parked: self.parked_peers@,
            connected: self.connected_peers@,
            disconnected: self.disconnected_peers@,
            released: self.released_tasks@,
        }
    }
}

impl PeerBook {
    /// The book is sound: its tables are, and so is what it holds.
    pub closed spec fn wf(&self) -> bool {
        &&& self.connecting_peers.wf()
        &&& self.parked_peers.wf()
        &&& self.connected_peers.wf()
        &&& self.disconnected_peers.wf()
        &&& self@.wf()
    }

    /// What a sound book holds is well formed: in particular, no peer is in
    /// two states at once.
    pub proof fn lemma_wf(&self)
        requires
            self.wf(),
        ensures
            self@.wf(),
            self@.exclusive(),
    {
    }

    /// A book that knows no peer.
    pub fn new() -> (book: PeerBook)
        ensures
            book.wf(),
            book@.wf(),
            book@ == PeerBookView::empty(),
    {
        PeerBook {
            connecting_peers: AddressSet::new(),
            parked_peers: PeerTable::new(),
            connected_peers: PeerTable::new(),
            disconnected_peers: PeerTable::new(),
            released_tasks: Vec::new(),
        }
    }

    pub fn is_connecting(&self, address: PeerAddress) -> (r: bool)
        requires
            self.wf(),
        ensures
            r == self@.is_connecting(address),
    {
        self.connecting_peers.contains(address)
    }

    pub fn is_connected(&self, address: PeerAddress) -> (r: bool)
        requires
            self.wf(),
        ensures
            r == self@.is_connected(address),
    {
        self.connected_peers.contains(address)
    }

    pub fn is_disconnected(&self, address: PeerAddress) -> (r: bool)
        requires
            self.wf(),
        ensures
            r == self@.is_disconnected(address),
    {
        self.disconnected_peers.contains(address)
    }

    /// The number of addresses with which a handshake is under way, cut to
    /// sixteen bits.
    pub fn number_of_connecting_peers(&self) -> (n: u16)
        requires
            self.wf(),
        ensures
            n == self@.connecting.len() as u16,
    {
        #[verifier::truncate]
        (self.connecting_peers.len() as u16)
    }

    /// The number of connected peers, cut to sixteen bits.
    pub fn number_of_connected_peers(&self) -> (n: u16)
        requires
            self.wf(),
        ensures
            n == self@.connected.dom().len() as u16,
    {
        #[verifier::truncate]
        (self.connected_peers.len() as u16)
    }

    /// The number of disconnected peers, cut to sixteen bits.
    pub fn number_of_disconnected_peers(&self) -> (n: u16)
        requires
            self.wf(),
        ensures
            n == self@.disconnected.dom().len() as u16,
    {
        #[verifier::truncate]
        (self.disconnected_peers.len() as u16)
    }

    /// The addresses with which a handshake is under way, each once.
    pub fn connecting_peers(&self) -> (v: Vec<PeerAddress>)
        requires
            self.wf(),
        ensures
            v@.no_duplicates(),
            v@.to_set() == self@.connecting,
    {
        self.connecting_peers.to_vec()
    }

    /// Copies of the records of the connected peers, each once.
    pub fn connected_peers(&self) -> (v: Vec<PeerInfo>)
        requires
            self.wf(),
        ensures
            addresses_of(v@).no_duplicates(),
            records_of(v@) == self@.connected,
    {
        self.connected_peers.records()
    }

    /// Copies of the records of the disconnected peers, each once.
    pub fn disconnected_peers(&self) -> (v: Vec<PeerInfo>)
        requires
            self.wf(),
        ensures
            addresses_of(v@).no_duplicates(),
            records_of(v@) == self@.disconnected,
    {
        self.disconnected_peers.records()
    }

    /// Notes that a handshake with `address` begins. A connected peer is
    /// refused, and the book stays as it is. Any other peer is connecting
    /// afterwards, and in no other state; the record of a peer that was
    /// disconnected is kept aside until the handshake ends.
    pub fn set_connecting(&mut self, address: PeerAddress) -> (r: Result<(), NetworkError>)
        requires
            old(self).wf(),
        ensures
            final(self).wf(),
            final(self)@.wf(),
            final(self)@ == old(self)@.set_connecting(address),
            old(self)@.is_connected(address) ==> r == Err::<(), NetworkError>(
                NetworkError::PeerAlreadyConnected,
            ),
            !old(self)@.is_connected(address) ==> r == Ok::<(), NetworkError>(())
                && final(self)@.is_connecting(address) && !final(self)@.is_disconnected(address),
    {
        proof {
            steps_preserve_wf(
                old(self)@,
                address,
                None,
                0,
                PeerQuality::spec_new(),
                PeerTask { id: 0, abortable: false },
            );
        }
        if self.is_connected(address) {
            return Err(NetworkError::PeerAlreadyConnected);
        }
        self.connecting_peers.insert(address);
        match self.disconnected_peers.remove(address) {
            Some(info) => {
                self.parked_peers.insert(info);
            },
            None => {
                proof {
                    assert(self@.disconnected =~= old(self)@.disconnected);
                }
            },
        }
        Ok(())
    }

    /// Gives up the handshake with `address`: the peer is no longer
    /// connecting, and is disconnected again if the book had a record of it.
    /// Returns whether a handshake was under way; nothing changes unless one
    /// was.
    pub fn cancel_connecting(&mut self, address: PeerAddress) -> (was_connecting: bool)
        requires
            old(self).wf(),
        ensures
            final(self).wf(),
            final(self)@.wf(),
            was_connecting == old(self)@.is_connecting(address),
            final(self)@ == old(self)@.cancel_connecting(address),
            !final(self)@.is_connecting(address),
    {
        proof {
            steps_preserve_wf(
                old(self)@,
                address,
                None,
                0,
                PeerQuality::spec_new(),
                PeerTask { id: 0, abortable: false },
            );
        }
        if !self.connecting_peers.remove(address) {
            proof {
                assert(self@.connecting =~= old(self)@.connecting);
            }
            return false;
        }
        match self.parked_peers.remove(address) {
            Some(info) => {
                self.disconnected_peers.insert(info);
            },
            None => {
                proof {
                    assert(self@.parked =~= old(self)@.parked);
                }
            },
        }
        true
    }

    /// Notes that the handshake with `address` ended well, at the time that
    /// the clock gives.
    pub fn set_connected(&mut self, address: PeerAddress, listener: Option<PeerAddress>)
        requires
            old(self).wf(),
        ensures
            final(self).wf(),
            final(self)@.wf(),
            exists|now: i64| final(self)@ == old(self)@.set_connected(address, listener, now),
            final(self)@.is_connected(listener_of(address, listener)),
            !final(self)@.is_connecting(listener_of(address, listener)),
            !final(self)@.is_disconnected(listener_of(address, listener)),
            !final(self)@.is_connecting(address),
    {
        let now: i64 = now_millis();
        self.set_connected_at(address, listener, now);
    }

    /// Notes that the handshake with `address` ended well at `now`. The peer
    /// is connected under its listener and in no other state.
    pub fn set_connected_at(
        &mut self,
        address: PeerAddress,
        listener: Option<PeerAddress>,
        now: i64,
    )
        requires
            old(self).wf(),
        ensures
            final(self).wf(),
            final(self)@.wf(),
            final(self)@ == old(self)@.set_connected(address, listener, now),
            final(self)@.is_connected(listener_of(address, listener)),
            !final(self)@.is_connecting(listener_of(address, listener)),
            !final(self)@.is_disconnected(listener_of(address, listener)),
            !final(self)@.is_connecting(address),
    {
        proof {
            steps_preserve_wf(
                old(self)@,
                address,
                listener,
                now,
                PeerQuality::spec_new(),
                PeerTask { id: 0, abortable: false },
            );
        }
        let key = match listener {
            Some(l) => l,
            None => address,
        };
        let known = self.disconnected_peers.remove(key);
        let kept = self.parked_peers.remove(key);
        let mut info = match known {
            Some(record) => record,
            None => match kept {
                Some(record) => record,
                None => PeerInfo::new(key),
            },
        };
        self.connecting_peers.remove(key);
        if address != key {
            self.connecting_peers.remove(address);
            match self.parked_peers.remove(address) {
                Some(record) => {
                    self.disconnected_peers.insert(record);
                },
                None => {},
            }
        }
        info.set_connected(now);
        self.connected_peers.insert(info);
        proof {
            let goal = old(self)@.set_connected(address, listener, now);
            assert(self@.connecting =~= goal.connecting);
            assert(self@.parked =~= goal.parked);
            assert(self@.disconnected =~= goal.disconnected);
            assert(self@.connected =~= goal.connected);
        }
    }

    /// Notes that the connection with `address` ended, at the time that the
    /// clock gives. Returns whether a connected peer was taken down.
    pub fn set_disconnected(&mut self, address: PeerAddress) -> (was_connected: bool)
        requires
            old(self).wf(),
        ensures
            final(self).wf(),
            final(self)@.wf(),
            was_connected == old(self)@.is_connected(address),
            !final(self)@.is_connecting(address),
            !final(self)@.is_connected(address),
            was_connected ==> final(self)@.is_disconnected(address),
            exists|now: i64| final(self)@ == old(self)@.set_disconnected(address, now),
    {
        let now: i64 = now_millis();
        self.set_disconnected_at(address, now)
    }

    /// Notes that the connection with `address` ended at `now`. Returns
    /// whether a connected peer was taken down.
    pub fn set_disconnected_at(&mut self, address: PeerAddress, now: i64) -> (was_connected: bool)
        requires
            old(self).wf(),
        ensures
            final(self).wf(),
            final(self)@.wf(),
            was_connected == old(self)@.is_connected(address),
            !final(self)@.is_connecting(address),
            !final(self)@.is_connected(address),
            was_connected ==> final(self)@.is_disconnected(address),
            was_connected ==> final(self)@.disconnected[address] == old(
                self,
            )@.connected[address].set_disconnected(now),
            final(self)@ == old(self)@.set_disconnected(address, now),
    {
        proof {
            steps_preserve_wf(
                old(self)@,
                address,
                None,
                now,
                PeerQuality::spec_new(),
                PeerTask { id: 0, abortable: false },
            );
        }
        if self.cancel_connecting(address) {
            return false;
        }
        match self.connected_peers.remove(address) {
            Some(mut info) => {
                let mut actions = info.set_disconnected(now);
                self.released_tasks.append(&mut actions);
                self.disconnected_peers.insert(info);
                proof {
                    let before = old(self)@;
                    let after = before.set_disconnected(address, now);
                    assert(self@.connecting =~= after.connecting);
                    assert(info@.address == address);
                    assert(self@.released =~= after.released);
                    assert(self@.disconnected =~= after.disconnected);
                    assert(self@.connected =~= after.connected);
                }
                true
            },
            None => {
                proof {
                    assert(self@.connecting =~= old(self)@.connecting);
                    assert(self@.connected =~= old(self)@.connected);
                }
                false
            },
        }
    }

    /// Marks the disconnected peer `address` as one that cannot be reached.
    pub fn set_unroutable(&mut self, address: PeerAddress)
        requires
            old(self).wf(),
        ensures
            final(self).wf(),
            final(self)@.wf(),
            final(self)@ == old(self)@.set_unroutable(address),
    {
        proof {
            steps_preserve_wf(
                old(self)@,
                address,
                None,
                0,
                PeerQuality::spec_new(),
                PeerTask { id: 0, abortable: false },
            );
        }
        match self.disconnected_peers.index_of(address) {
            Some(i) => {
                self.disconnected_peers.set_routable_at(i, false);
            },
            None => {},
        }
    }

    /// Notes that `address` was heard of.
    pub fn add_peer(&mut self, address: PeerAddress)
        requires
            old(self).wf(),
        ensures
            final(self).wf(),
            final(self)@.wf(),
            final(self)@ == old(self)@.add_peer(address),
    {
        if self.is_connected(address) || self.is_disconnected(address) || self.is_connecting(
            address,
        ) {
            return ;
        }
        self.disconnected_peers.insert(PeerInfo::new(address));
        proof {
            steps_preserve_wf(
                old(self)@,
                address,
                None,
                0,
                PeerQuality::spec_new(),
                PeerTask { id: 0, abortable: false },
            );
        }
    }

    /// A copy of the record of `address`: that of a connected peer, or, unless
    /// only connected peers are asked for, that of a disconnected one.
    pub fn get_peer(&self, address: PeerAddress, only_if_connected: bool) -> (r: Option<PeerInfo>)
        requires
            self.wf(),
        ensures
            self@.is_connected(address) ==> r is Some && r->Some_0@ == self@.connected[address],
            !self@.is_connected(address) && !only_if_connected && self@.is_disconnected(address)
                ==> r is Some && r->Some_0@ == self@.disconnected[address],
            !self@.is_connected(address) && (only_if_connected || !self@.is_disconnected(address))
                ==> r is None,
    {
        match self.connected_peers.get(address) {
            Some(info) => { return Some(info.duplicate()); },
            None => {},
        }
        if !only_if_connected {
            match self.disconnected_peers.get(address) {
                Some(info) => { return Some(info.duplicate()); },
                None => {},
            }
        }
        None
    }

    /// Forgets `address`, at the time that the clock gives: a connected peer
    /// is taken down first.
    pub fn remove_peer(&mut self, address: PeerAddress)
        requires
            old(self).wf(),
        ensures
            final(self).wf(),
            final(self)@.wf(),
            exists|now: i64| final(self)@ == old(self)@.remove_peer(address, now),
    {
        let now: i64 = now_millis();
        self.remove_peer_at(address, now);
    }

    /// Forgets `address` at `now`: a connected peer is taken down first.
    pub fn remove_peer_at(&mut self, address: PeerAddress, now: i64)
        requires
            old(self).wf(),
        ensures
            final(self).wf(),
            final(self)@.wf(),
            final(self)@ == old(self)@.remove_peer(address, now),
    {
        proof {
            steps_preserve_wf(
                old(self)@,
                address,
                None,
                now,
                PeerQuality::spec_new(),
                PeerTask { id: 0, abortable: false },
            );
        }
        let _ = self.set_disconnected_at(address, now);
        self.disconnected_peers.remove(address);
    }

    /// The addresses of the connected peers, each once.
    pub fn connected_addresses(&self) -> (v: Vec<PeerAddress>)
        requires
            self.wf(),
        ensures
            v@.no_duplicates(),
            v@.to_set() == self@.connected.dom(),
            v@.len() == self@.connected.dom().len(),
    {
        let n: usize = self.connected_peers.len();
        let ghost order = self.connected_peers.order();
        proof {
            self.connected_peers.lemma_order();
        }
        let mut v: Vec<PeerAddress> = Vec::with_capacity(n);
        let mut i: usize = 0;
        while i < n
            invariant
                self.wf(),
                i <= n,
                n == order.len(),
                order == self.connected_peers.order(),
                v@ == order.subrange(0, i as int),
            decreases n - i,
        {
            v.push(self.connected_peers.entry(i).address());
            i += 1;
            proof {
                assert(v@ =~= order.subrange(0, i as int));
            }
        }
        proof {
            assert(v@ =~= order);
        }
        v
    }

    /// The addresses of the disconnected peers, each once.
    pub fn disconnected_addresses(&self) -> (v: Vec<PeerAddress>)
        requires
            self.wf(),
        ensures
            v@.no_duplicates(),
            v@.to_set() == self@.disconnected.dom(),
            v@.len() == self@.disconnected.dom().len(),
    {
        let n: usize = self.disconnected_peers.len();
        let ghost order = self.disconnected_peers.order();
        proof {
            self.disconnected_peers.lemma_order();
        }
        let mut v: Vec<PeerAddress> = Vec::with_capacity(n);
        let mut i: usize = 0;
        while i < n
            invariant
                self.wf(),
                i <= n,
                n == order.len(),
                order == self.disconnected_peers.order(),
                v@ == order.subrange(0, i as int),
            decreases n - i,
        {
            v.push(self.disconnected_peers.entry(i).address());
            i += 1;
            proof {
                assert(v@ =~= order.subrange(0, i as int));
            }
        }
        proof {
            assert(v@ =~= order);
        }
        v
    }

    /// Whether blocks are being synced with the connected peer `address`: it
    /// still owes sync blocks.
    pub fn is_syncing_blocks(&self, address: PeerAddress) -> (r: bool)
        requires
            self.wf(),
        ensures
            r == self@.is_syncing_blocks(address),
    {
        match self.connected_peers.get(address) {
            Some(info) => info.quality().remaining_sync_blocks != 0,
            None => false,
        }
    }

    /// The quality of the connected peer `address`.
    pub fn peer_quality(&self, address: PeerAddress) -> (r: Option<PeerQuality>)
        requires
            self.wf(),
        ensures
            r == if self@.is_connected(address) {
                Some(self@.quality(address))
            } else {
                None
            },
    {
        match self.connected_peers.get(address) {
            Some(info) => Some(info.quality()),
            None => None,
        }
    }

    /// The connected peer that was heard from last, if any peer is
    /// connected. Where several were heard from at the same time, it is one
    /// of them.
    pub fn last_seen(&self) -> (r: Option<PeerAddress>)
        requires
            self.wf(),
        ensures
            r is None <==> self@.connected.dom().is_empty(),
            r is Some ==> self@.is_connected(r->Some_0) && forall|a: PeerAddress|
                #[trigger] self@.is_connected(a) ==> not_later(
                    self@.quality(a).last_seen,
                    self@.quality(r->Some_0).last_seen,
                ),
    {
        let n: usize = self.connected_peers.len();
        proof {
            self.connected_peers.lemma_order();
        }
        if n == 0 {
            proof {
                assert(self@.connected.dom().len() == 0);
            }
            return None;
        }
        let first = self.connected_peers.entry(0);
        let mut best: PeerAddress = first.address();
        let mut best_seen: Option<i64> = first.last_seen();
        let mut i: usize = 1;
        while i < n
            invariant
                self.wf(),
                n == self.connected_peers.order().len(),
                1 <= i <= n,
                self@.is_connected(best),
                best_seen == self@.quality(best).last_seen,
                forall|j: int|
                    0 <= j < i ==> not_later(
                        self@.quality(#[trigger] self.connected_peers.order()[j]).last_seen,
                        best_seen,
                    ),
            decreases n - i,
        {
            let info = self.connected_peers.entry(i);
            let seen: Option<i64> = info.last_seen();
            let later: bool = match (best_seen, seen) {
                (None, _) => true,
                (Some(_), None) => false,
                (Some(x), Some(y)) => x <= y,
            };
            if later {
                best = info.address();
                best_seen = seen;
            }
            i += 1;
        }
        proof {
            assert forall|a: PeerAddress| #[trigger] self@.is_connected(a) implies not_later(
                self@.quality(a).last_seen,
                self@.quality(best).last_seen,
            ) by {
                let order = self.connected_peers.order();
                assert(order.to_set().contains(a));
                let j = choose|j: int| 0 <= j < order.len() && order[j] == a;
                assert(order[j] == a);
            }
            assert(self@.connected.dom().contains(best));
        }
        Some(best)
    }

    /// Notes a message of `address`, at the time that the clock gives.
    pub fn register_message(&mut self, address: PeerAddress)
        requires
            old(self).wf(),
        ensures
            final(self).wf(),
            final(self)@.wf(),
            exists|now: i64|
                final(self)@ == old(self)@.with_quality(
                    address,
                    old(self)@.quality(address).spec_register_message(now),
                ),
    {
        let now: i64 = now_millis();
        self.register_message_at(address, now);
    }

    /// Notes a message of `address`, received at `now`. Nothing changes
    /// unless the peer is connected.
    pub fn register_message_at(&mut self, address: PeerAddress, now: i64)
        requires
            old(self).wf(),
        ensures
            final(self).wf(),
            final(self)@.wf(),
            final(self)@ == old(self)@.with_quality(
                address,
                old(self)@.quality(address).spec_register_message(now),
            ),
    {
        match self.connected_peers.index_of(address) {
            Some(i) => {
                let mut quality = self.connected_peers.entry(i).quality();
                quality.register_message(now);
                self.set_quality_at(i, quality);
            },
            None => {},
        }
    }

    /// Notes that a `Ping` goes out to `target`, at the time that the clock
    /// gives.
    pub fn sending_ping(&mut self, target: PeerAddress)
        requires
            old(self).wf(),
        ensures
            final(self).wf(),
            final(self)@.wf(),
            exists|now: i64|
                final(self)@ == old(self)@.with_quality(
                    target,
                    old(self)@.quality(target).spec_sending_ping(now),
                ),
    {
        let now: i64 = now_millis();
        self.sending_ping_at(target, now);
    }

    /// Notes that a `Ping` goes out to `target` at `now`. Nothing changes
    /// unless the peer is connected.
    pub fn sending_ping_at(&mut self, target: PeerAddress, now: i64)
        requires
            old(self).wf(),
        ensures
            final(self).wf(),
            final(self)@.wf(),
            final(self)@ == old(self)@.with_quality(
                target,
                old(self)@.quality(target).spec_sending_ping(now),
            ),
    {
        match self.connected_peers.index_of(target) {
            Some(i) => {
                let mut quality = self.connected_peers.entry(i).quality();
                quality.sending_ping(now);
                self.set_quality_at(i, quality);
            },
            None => {},
        }
    }

    /// Notes the block height that a `Ping` of `source` reported. Nothing
    /// changes unless the peer is connected.
    pub fn received_ping(&mut self, source: PeerAddress, block_height: u32)
        requires
            old(self).wf(),
        ensures
            final(self).wf(),
            final(self)@.wf(),
            final(self)@ == old(self)@.with_quality(
                source,
                old(self)@.quality(source).spec_received_ping(block_height),
            ),
    {
        match self.connected_peers.index_of(source) {
            Some(i) => {
                let mut quality = self.connected_peers.entry(i).quality();
                quality.received_ping(block_height);
                self.set_quality_at(i, quality);
            },
            None => {},
        }
    }

    /// Notes a `Pong` of `source`, at the time that the clock gives.
    pub fn received_pong(&mut self, source: PeerAddress)
        requires
            old(self).wf(),
        ensures
            final(self).wf(),
            final(self)@.wf(),
            exists|now: i64|
                final(self)@ == old(self)@.with_quality(
                    source,
                    old(self)@.quality(source).spec_received_pong(now),
                ),
    {
        let now: i64 = now_millis();
        self.received_pong_at(source, now);
    }

    /// Notes a `Pong` of `source`, received at `now`: if one was awaited, the
    /// round trip is the time since the `Ping` went out, and no `Pong` is
    /// awaited any more; if none was awaited, the peer has failed once more.
    /// Nothing changes unless the peer is connected.
    pub fn received_pong_at(&mut self, source: PeerAddress, now: i64)
        requires
            old(self).wf(),
        ensures
            final(self).wf(),
            final(self)@.wf(),
            final(self)@ == old(self)@.with_quality(
                source,
                old(self)@.quality(source).spec_received_pong(now),
            ),
    {
        match self.connected_peers.index_of(source) {
            Some(i) => {
                let mut quality = self.connected_peers.entry(i).quality();
                quality.received_pong(now);
                self.set_quality_at(i, quality);
            },
            None => {},
        }
    }

    /// Notes that `count` sync blocks, cut to thirty-two bits, are awaited
    /// from `address`. Returns whether the peer is connected; nothing changes
    /// unless it is.
    pub fn expecting_sync_blocks(&mut self, address: PeerAddress, count: usize) -> (known: bool)
        requires
            old(self).wf(),
        ensures
            final(self).wf(),
            final(self)@.wf(),
            known == old(self)@.is_connected(address),
            final(self)@ == old(self)@.with_quality(
                address,
                old(self)@.quality(address).spec_expecting_sync_blocks(count as u32),
            ),
    {
        match self.connected_peers.index_of(address) {
            Some(i) => {
                let mut quality = self.connected_peers.entry(i).quality();
                quality.expecting_sync_blocks(
                    #[verifier::truncate]
                    (count as u32),
                );
                self.set_quality_at(i, quality);
                true
            },
            None => false,
        }
    }

    /// Notes a sync block of `address`. Returns `true` if the peer is
    /// connected and this was the last block that it owed: at the call that
    /// brings what it owes from one to nothing, and at no other.
    pub fn got_sync_block(&mut self, address: PeerAddress) -> (finished: bool)
        requires
            old(self).wf(),
        ensures
            final(self).wf(),
            final(self)@.wf(),
            finished == (old(self)@.is_connected(address) && old(self)@.quality(
                address,
            ).remaining_sync_blocks == 1),
            finished ==> final(self)@.quality(address).remaining_sync_blocks == 0,
            final(self)@ == old(self)@.with_quality(
                address,
                old(self)@.quality(address).spec_got_sync_block(),
            ),
    {
        match self.connected_peers.index_of(address) {
            Some(i) => {
                let mut quality = self.connected_peers.entry(i).quality();
                let finished = quality.got_sync_block();
                self.set_quality_at(i, quality);
                finished
            },
            None => false,
        }
    }

    /// Gives up the sync blocks that any connected peer still owes; a peer
    /// that owed any has failed once more.
    pub fn cancel_any_unfinished_syncing(&mut self)
        requires
            old(self).wf(),
        ensures
            final(self).wf(),
            final(self)@.wf(),
            final(self)@ == old(self)@.cancel_any_unfinished_syncing(),
    {
        let n: usize = self.connected_peers.len();
        let ghost order = self.connected_peers.order();
        proof {
            self.connected_peers.lemma_order();
        }
        let mut i: usize = 0;
        while i < n
            invariant
                self.wf(),
                i <= n,
                n == order.len(),
                order == self.connected_peers.order(),
                order == old(self).connected_peers.order(),
                order.no_duplicates(),
                order.to_set() == old(self)@.connected.dom(),
                self@.connecting == old(self)@.connecting,
                self@.parked == old(self)@.parked,
                self@.disconnected == old(self)@.disconnected,
                self@.released == old(self)@.released,
                self@.connected.dom() == old(self)@.connected.dom(),
                forall|j: int|
                    0 <= j < i ==> self@.connected[#[trigger] order[j]] == old(
                        self,
                    )@.connected[order[j]].with_quality(
                        old(self)@.connected[order[j]].quality.spec_cancel_syncing(),
                    ),
                forall|j: int|
                    i <= j < n ==> self@.connected[#[trigger] order[j]] == old(
                        self,
                    )@.connected[order[j]],
            decreases n - i,
        {
            let ghost before = self@;
            let mut quality = self.connected_peers.entry(i).quality();
            quality.cancel_syncing();
            self.set_quality_at(i, quality);
            proof {
                assert(self@.connected.dom() =~= before.connected.dom());
                assert forall|j: int| 0 <= j < n && j != i implies self@.connected[order[j]]
                    == before.connected[#[trigger] order[j]] by {
                    assert(order[j] != order[i as int]);
                }
            }
            i += 1;
        }
        proof {
            let goal = old(self)@.cancel_any_unfinished_syncing();
            assert forall|a: PeerAddress| #[trigger]
                self@.connected.dom().contains(a) implies self@.connected[a]
                == goal.connected[a] by {
                assert(order.to_set().contains(a));
                let j = choose|j: int| 0 <= j < order.len() && order[j] == a;
                assert(order[j] == a);
            }
            assert(self@.connected =~= goal.connected);
        }
    }

    /// Notes a failure of `address` that does not end the connection.
    /// Nothing changes unless the peer is connected.
    pub fn register_failure(&mut self, address: PeerAddress)
        requires
            old(self).wf(),
        ensures
            final(self).wf(),
            final(self)@.wf(),
            final(self)@ == old(self)@.with_quality(
                address,
                old(self)@.quality(address).spec_register_failure(),
            ),
    {
        match self.connected_peers.index_of(address) {
            Some(i) => {
                let mut quality = self.connected_peers.entry(i).quality();
                quality.register_failure();
                self.set_quality_at(i, quality);
            },
            None => {},
        }
    }

    /// Adds a task that works for the connected peer `address`. Returns
    /// whether the peer is connected; nothing changes unless it is.
    pub fn register_task(&mut self, address: PeerAddress, id: u64, abortable: bool) -> (known:
        bool)
        requires
            old(self).wf(),
        ensures
            final(self).wf(),
            final(self)@.wf(),
            known == old(self)@.is_connected(address),
            final(self)@ == old(self)@.with_task(address, PeerTask { id, abortable }),
    {
        proof {
            steps_preserve_wf(
                old(self)@,
                address,
                None,
                0,
                PeerQuality::spec_new(),
                PeerTask { id, abortable },
            );
        }
        match self.connected_peers.index_of(address) {
            Some(i) => {
                self.connected_peers.register_task_at(i, id, abortable);
                true
            },
            None => false,
        }
    }

    /// Puts `quality` into the record at place `i` of the connected peers.
    fn set_quality_at(&mut self, i: usize, quality: PeerQuality)
        requires
            old(self).wf(),
            quality.wf(),
            i < old(self).connected_peers.order().len(),
        ensures
            final(self).wf(),
            final(self)@.wf(),
            final(self).connected_peers.order() == old(self).connected_peers.order(),
            final(self)@ == old(self)@.with_quality(
                old(self).connected_peers.order()[i as int],
                quality,
            ),
    {
        proof {
            self.connected_peers.lemma_order();
            steps_preserve_wf(
                old(self)@,
                self.connected_peers.order()[i as int],
                None,
                0,
                quality,
                PeerTask { id: 0, abortable: false },
            );
        }
        self.connected_peers.set_quality_at(i, quality);
    }

    /// Hands out what is to be done with the tasks of the peers that were
    /// disconnected since this was last asked, in the order in which it
    /// became due.
    pub fn take_released_tasks(&mut self) -> (actions: Vec<TaskAction>)
        requires
            old(self).wf(),
        ensures
            final(self).wf(),
            final(self)@.wf(),
            actions@ == old(self)@.released,
            final(self)@ == (PeerBookView { released: Seq::empty(), ..old(self)@ }),
    {
        let mut actions: Vec<TaskAction> = Vec::new();
        actions.append(&mut self.released_tasks);
        actions
    }
}

impl Default for PeerBook {
    fn default() -> (book: PeerBook)
        ensures
            book.wf(),
            book@ == PeerBookView::empty(),
    {
        PeerBook::new()
    }
}

/// The records of a peer book in the form in which they are saved.
#[derive(Debug)]
pub struct SerializedPeerBook {
    peers: Vec<PeerInfo>,
}

impl View for SerializedPeerBook {
    type V = Seq<PeerInfoView>;

    closed spec fn view(&self) -> Seq<PeerInfoView> {
        views_of(self.peers@)
    }
}

/// The addresses of `records`, in their order.
pub open spec fn record_addresses(records: Seq<PeerInfoView>) -> Seq<PeerAddress> {
    Seq::new(records.len(), |i: int| records[i].address)
}

proof fn lemma_restored_push(records: Seq<PeerInfoView>, record: PeerInfoView)
    ensures
        restored(records.push(record)) == if record.address.ip.spec_is_loopback() {
            restored(records)
        } else {
            restored(records).insert(record.address, record.persisted())
        },
{
    assert(records.push(record).drop_last() =~= records);
}

/// The records of `table` that are kept when the node stops.
pub open spec fn kept_of(table: Map<PeerAddress, PeerInfoView>) -> Map<PeerAddress, PeerInfoView> {
    Map::new(
        |a: PeerAddress| table.dom().contains(a) && !a.ip.spec_is_loopback(),
        |a: PeerAddress| table[a].persisted(),
    )
}

/// Whether `a` is among the first `i` addresses of `order`.
spec fn listed_before(order: Seq<PeerAddress>, i: int, a: PeerAddress) -> bool {
    exists|j: int| 0 <= j < i && j < order.len() && order[j] == a
}

proof fn lemma_listed_step(order: Seq<PeerAddress>, i: int, a: PeerAddress)
    requires
        0 <= i < order.len(),
    ensures
        listed_before(order, i + 1, a) <==> listed_before(order, i, a) || order[i] == a,
        !listed_before(order, 0, a),
{
    if listed_before(order, i, a) {
        let j = choose|j: int| 0 <= j < i && j < order.len() && order[j] == a;
        assert(0 <= j < i + 1 && order[j] == a);
    }
    if order[i] == a {
        assert(0 <= i < i + 1 && order[i] == a);
    }
}

proof fn lemma_listed_all(order: Seq<PeerAddress>, a: PeerAddress)
    ensures
        listed_before(order, order.len() as int, a) <==> order.to_set().contains(a),
        !listed_before(order, 0, a),
{
    if order.to_set().contains(a) {
        let j = choose|j: int| 0 <= j < order.len() && order[j] == a;
        assert(0 <= j < order.len() && j < order.len() && order[j] == a);
    }
}

/// Adds to `out` the records of `table` that are kept when the node stops.
fn append_kept(table: &PeerTable, out: &mut Vec<PeerInfo>)
    requires
        table.wf(),
        record_addresses(views_of(old(out)@)).no_duplicates(),
        forall|k: int|
            0 <= k < old(out)@.len() ==> !table@.dom().contains((#[trigger] old(out)@[k])@.address),
    ensures
        record_addresses(views_of(final(out)@)).no_duplicates(),
        restored(views_of(final(out)@)) == restored(views_of(old(out)@)).union_prefer_right(
            kept_of(table@),
        ),
        forall|k: int|
            0 <= k < final(out)@.len() ==> (k < old(out)@.len() && final(out)@[k] == old(out)@[k])
                || table@.dom().contains((#[trigger] final(out)@[k])@.address),
{
    let ghost base = restored(views_of(out@));
    let ghost order = table.order();
    let ghost start = out@.len();
    proof {
        table.lemma_order();
        assert forall|a: PeerAddress| !listed_before(order, 0, a) by {
            lemma_listed_all(order, a);
        }
    }
    let n: usize = table.len();
    let mut i: usize = 0;
    while i < n
        invariant
            table.wf(),
            i <= n,
            n == order.len(),
            order == table.order(),
            order.no_duplicates(),
            start == old(out)@.len(),
            start <= out@.len(),
            base == restored(views_of(old(out)@)),
            forall|k: int| 0 <= k < start ==> out@[k] == old(out)@[k],
            forall|k: int|
                0 <= k < old(out)@.len() ==> !table@.dom().contains(
                    (#[trigger] old(out)@[k])@.address,
                ),
            forall|k: int|
                start <= k < out@.len() ==> listed_before(
                    order,
                    i as int,
                    (#[trigger] out@[k])@.address,
                ),
            forall|j: int| 0 <= j < n ==> table@.dom().contains(#[trigger] order[j]),
            record_addresses(views_of(out@)).no_duplicates(),
            forall|a: PeerAddress|
                #![trigger restored(views_of(out@)).dom().contains(a)]
                restored(views_of(out@)).dom().contains(a) <==> base.dom().contains(a) || (
                !a.ip.spec_is_loopback() && listed_before(order, i as int, a)),
            forall|a: PeerAddress|
                #![trigger restored(views_of(out@))[a]]
                restored(views_of(out@)).dom().contains(a) ==> restored(views_of(out@))[a] == if
                    !a.ip.spec_is_loopback() && listed_before(order, i as int, a) {
                    table@[a].persisted()
                } else {
                    base[a]
                },
        decreases n - i,
    {
        let info = table.entry(i);
        let ghost before = views_of(out@);
        let ghost list = out@;
        let ghost address = order[i as int];
        proof {
            assert forall|a: PeerAddress|
                listed_before(order, i + 1, a) <==> listed_before(order, i as int, a) || order[i as int]
                    == a by {
                lemma_listed_step(order, i as int, a);
            }
            assert(!listed_before(order, i as int, address)) by {
                if listed_before(order, i as int, address) {
                    let j = choose|j: int| 0 <= j < i && j < order.len() && order[j] == address;
                    assert(order[j] == order[i as int]);
                }
            }
        }
        if !info.address().ip().is_loopback() {
            let kept = info.persisted();
            out.push(kept);
            proof {
                let after = views_of(out@);
                assert(after =~= before.push(kept@));
                lemma_restored_push(before, kept@);
                assert(kept@.address == address);
                assert(kept@.persisted() == table@[address].persisted());
                assert forall|x: int, y: int|
                    0 <= x < after.len() && 0 <= y < after.len() && x
                        != y implies record_addresses(after)[x] != record_addresses(after)[y] by {
                    if x < before.len() && y < before.len() {
                        assert(record_addresses(before)[x] != record_addresses(before)[y]);
                    } else {
                        let z = if x < before.len() { x } else { y };
                        assert(after[z] == list[z]@);
                        if z < start {
                            assert(list[z] == old(out)@[z]);
                            assert(!table@.dom().contains(old(out)@[z]@.address));
                            assert(table@.dom().contains(order[i as int]));
                        } else {
                            assert(listed_before(order, i as int, list[z]@.address));
                        }
                    }
                }
                assert forall|k: int| start <= k < out@.len() implies listed_before(
                    order,
                    i + 1,
                    (#[trigger] out@[k])@.address,
                ) by {
                    if k < list.len() {
                        assert(out@[k] == list[k]);
                        assert(listed_before(order, i as int, list[k]@.address));
                    }
                }
            }
        } else {
            proof {
                assert forall|k: int| start <= k < out@.len() implies listed_before(
                    order,
                    i + 1,
                    (#[trigger] out@[k])@.address,
                ) by {
                    assert(listed_before(order, i as int, out@[k]@.address));
                }
            }
        }
        i += 1;
    }
    proof {
        let got = restored(views_of(out@));
        let goal = base.union_prefer_right(kept_of(table@));
        assert forall|a: PeerAddress|
            listed_before(order, n as int, a) <==> table@.dom().contains(a) by {
            lemma_listed_all(order, a);
        }
        assert forall|a: PeerAddress| got.dom().contains(a) <==> goal.dom().contains(a) by {}
        assert forall|a: PeerAddress| #[trigger] got.dom().contains(a) implies got[a] == goal[a] by {
            assert(got[a] == if !a.ip.spec_is_loopback() && listed_before(order, n as int, a) {
                table@[a].persisted()
            } else {
                base[a]
            });
        }
        assert(got =~= goal);
        assert forall|k: int| 0 <= k < out@.len() implies (k < old(out)@.len() && out@[k] == old(
            out,
        )@[k]) || table@.dom().contains((#[trigger] out@[k])@.address) by {
            if k >= start {
                assert(listed_before(order, n as int, out@[k]@.address));
            }
        }
    }
}

impl SerializedPeerBook {
    pub fn new(peers: Vec<PeerInfo>) -> (r: SerializedPeerBook)
        ensures
            r@ == views_of(peers@),
    {
        SerializedPeerBook { peers }
    }

    /// The records, in their order.
    pub fn peers(&self) -> (r: &Vec<PeerInfo>)
        ensures
            views_of(r@) == self@,
    {
        &self.peers
    }

    /// The records of `book` that are kept when the node stops, each once:
    /// restored, they are the peers that the book has a record of, but for
    /// loopback addresses.
    pub fn from(book: &PeerBook) -> (r: SerializedPeerBook)
        requires
            book.wf(),
        ensures
            record_addresses(r@).no_duplicates(),
            restored(r@) == book@.snapshot(),
    {
        let mut out: Vec<PeerInfo> = Vec::new();
        proof {
            assert(restored(views_of(out@)) =~= Map::<PeerAddress, PeerInfoView>::empty());
        }
        append_kept(&book.connected_peers, &mut out);
        append_kept(&book.disconnected_peers, &mut out);
        append_kept(&book.parked_peers, &mut out);
        proof {
            assert(restored(views_of(out@)) =~= book@.snapshot());
        }
        SerializedPeerBook { peers: out }
    }
}

impl PeerBook {
    /// The book that the saved records restore: every peer of the list is
    /// disconnected, and none is connected or connecting.
    pub fn from(saved: SerializedPeerBook) -> (book: PeerBook)
        ensures
            book.wf(),
            book@ == loaded(saved@),
    {
        let mut book = PeerBook::new();
        let n: usize = saved.peers.len();
        let ghost records = saved@;
        let mut i: usize = 0;
        proof {
            assert(records.subrange(0, 0) =~= Seq::<PeerInfoView>::empty());
        }
        while i < n
            invariant
                i <= n,
                n == saved.peers@.len(),
                records == views_of(saved.peers@),
                book.wf(),
                book@ == loaded(records.subrange(0, i as int)),
            decreases n - i,
        {
            let info = &saved.peers[i];
            proof {
                let sofar = records.subrange(0, i as int);
                assert(records.subrange(0, i + 1) =~= sofar.push(records[i as int]));
                lemma_restored_push(sofar, records[i as int]);
                assert(records[i as int] == info@);
            }
            if !info.address().ip().is_loopback() {
                book.restore(info.persisted());
            }
            i += 1;
        }
        proof {
            assert(records.subrange(0, n as int) =~= records);
        }
        book
    }

    /// Puts `info` among the disconnected peers of a book in which no peer
    /// is connected or connecting.
    fn restore(&mut self, info: PeerInfo)
        requires
            old(self).wf(),
            old(self)@.connected.dom().is_empty(),
            old(self)@.connecting.is_empty(),
            info@.wf(),
            info@.tasks.len() == 0,
        ensures
            final(self).wf(),
            final(self)@.wf(),
            final(self)@ == (PeerBookView {
                disconnected: old(self)@.disconnected.insert(info@.address, info@),
                ..old(self)@
            }),
    {
        self.disconnected_peers.insert(info);
    }

    /// The book that the node starts with: the one that the saved records
    /// restore, or an empty one where there are none.
    pub fn load(saved: Option<SerializedPeerBook>) -> (book: PeerBook)
        ensures
            book.wf(),
            book@ == match saved {
                Some(s) => loaded(s@),
                None => PeerBookView::empty(),
            },
    {
        match saved {
            Some(s) => PeerBook::from(s),
            None => PeerBook::new(),
        }
    }
}

/// A book that is saved and loaded again knows the peers that it had a
/// record of, but for those at loopback addresses: all of them are
/// disconnected, with their records as they were but for quality and tasks.
/// No record is lost by saving: not that of a connected peer, not that of a
/// disconnected one, and not that of a peer with which a handshake was under
/// way.
pub proof fn save_and_load(book: PeerBookView, saved: Seq<PeerInfoView>)
    requires
        restored(saved) == book.snapshot(),
    ensures
        loaded(saved).disconnected == book.snapshot(),
        loaded(saved).connected.dom().is_empty(),
        loaded(saved).connecting.is_empty(),
        forall|a: PeerAddress|
            loaded(saved).is_disconnected(a) <==> book.has_record(a) && !a.ip.spec_is_loopback(),
        forall|a: PeerAddress|
            book.has_record(a) && !a.ip.spec_is_loopback() ==> #[trigger] loaded(
                saved,
            ).disconnected[a] == book.record(a).persisted(),
{
}

} // verus!
