//! Two collections keyed by peer addresses: a set of addresses, and a table
//! of peer records. Each holds its entries in a list in which no address
//! occurs twice.

use crate::address::PeerAddress;
use crate::peer_info::{PeerInfo, PeerInfoView, PeerQuality, PeerTask};
use crate::selection::{lemma_pushed, lemma_removed};
use vstd::prelude::*;

verus! {

/// The addresses of `entries`, in their order.
pub open spec fn addresses_of(entries: Seq<PeerInfo>) -> Seq<PeerAddress> {
    Seq::new(entries.len(), |i: int| entries[i]@.address)
}

/// The records of `entries` by address, where no address occurs twice.
pub open spec fn records_of(entries: Seq<PeerInfo>) -> Map<PeerAddress, PeerInfoView> {
    Map::new(
        |a: PeerAddress| addresses_of(entries).contains(a),
        |a: PeerAddress| entries[addresses_of(entries).index_of(a)]@,
    )
}

/// What the entries hold, in their order.
pub open spec fn views_of(entries: Seq<PeerInfo>) -> Seq<PeerInfoView> {
    Seq::new(entries.len(), |i: int| entries[i]@)
}

/// Each entry is found under its own address.
pub proof fn lemma_records_of(entries: Seq<PeerInfo>)
    requires
        addresses_of(entries).no_duplicates(),
    ensures
        forall|i: int|
            0 <= i < entries.len() ==> records_of(entries).dom().contains(
                #[trigger] entries[i]@.address,
            ) && records_of(entries)[entries[i]@.address] == entries[i]@,
        forall|a: PeerAddress| #[trigger]
            records_of(entries).dom().contains(a) ==> records_of(entries)[a].address == a,
        records_of(entries).dom() =~= addresses_of(entries).to_set(),
        records_of(entries).dom().finite(),
        records_of(entries).dom().len() == entries.len(),
{
    let keys = addresses_of(entries);
    assert forall|i: int| 0 <= i < entries.len() implies records_of(entries).dom().contains(
        #[trigger] entries[i]@.address,
    ) && records_of(entries)[entries[i]@.address] == entries[i]@ by {
        assert(keys[i] == entries[i]@.address);
        let j = keys.index_of(keys[i]);
        assert(keys[j] == keys[i]);
    }
    assert forall|a: PeerAddress| #[trigger]
        records_of(entries).dom().contains(a) implies records_of(entries)[a].address == a by {
        let j = keys.index_of(a);
        assert(keys[j] == a);
    }
    assert(records_of(entries).dom() =~= keys.to_set());
    keys.unique_seq_to_set();
}

/// Two lists whose entries hold the same, place by place, have the same
/// addresses and the same records.
pub proof fn lemma_same_records(a: Seq<PeerInfo>, b: Seq<PeerInfo>)
    requires
        a.len() == b.len(),
        forall|i: int| 0 <= i < a.len() ==> a[i]@ == b[i]@,
    ensures
        addresses_of(a) == addresses_of(b),
        records_of(a) == records_of(b),
{
    assert(addresses_of(a) =~= addresses_of(b));
    assert(records_of(a) =~= records_of(b));
}

/// A list in which one entry was changed, but not its address, has the
/// records that it had, with the new one in place of the old.
pub proof fn lemma_changed_entry(before: Seq<PeerInfo>, after: Seq<PeerInfo>, i: int)
    requires
        addresses_of(before).no_duplicates(),
        0 <= i < before.len(),
        after.len() == before.len(),
        forall|j: int| 0 <= j < before.len() && j != i ==> after[j]@ == before[j]@,
        after[i]@.address == before[i]@.address,
    ensures
        addresses_of(after) == addresses_of(before),
        records_of(after) == records_of(before).insert(before[i]@.address, after[i]@),
{
    let address = before[i]@.address;
    let record = after[i]@;
    assert(addresses_of(after) =~= addresses_of(before));
    lemma_records_of(before);
    lemma_records_of(after);
    assert forall|a: PeerAddress| #[trigger]
        records_of(after).dom().contains(a) implies records_of(after)[a] == records_of(
        before,
    ).insert(address, record)[a] by {
        let j = addresses_of(after).index_of(a);
        assert(addresses_of(after)[j] == a);
        assert(after[j]@.address == a);
        if j != i {
            assert(before[j]@.address == a);
        }
    }
    assert(records_of(after) =~= records_of(before).insert(address, record));
}

/// A set of peer addresses.
#[derive(Debug)]
pub struct AddressSet {
    items: Vec<PeerAddress>,
}

impl View for AddressSet {
    type V = Set<PeerAddress>;

    closed spec fn view(&self) -> Set<PeerAddress> {
        self.items@.to_set()
    }
}

impl AddressSet {
    /// No address is held twice.
    pub closed spec fn wf(&self) -> bool {
        self.items@.no_duplicates()
    }

    /// The addresses in the order in which they are handed out.
    pub closed spec fn order(&self) -> Seq<PeerAddress> {
        self.items@
    }

    /// The order holds each address of the set once.
    pub proof fn lemma_order(&self)
        requires
            self.wf(),
        ensures
            self.order().no_duplicates(),
            self.order().to_set() == self@,
            self@.finite(),
            self@.len() == self.order().len(),
    {
        self.items@.unique_seq_to_set();
    }

    pub fn new() -> (s: AddressSet)
        ensures
            s.wf(),
            s@ == Set::<PeerAddress>::empty(),
    {
        let s = AddressSet { items: Vec::new() };
        proof {
            assert(s.items@.to_set() =~= Set::<PeerAddress>::empty());
        }
        s
    }

    pub fn len(&self) -> (n: usize)
        requires
            self.wf(),
        ensures
            n == self@.len(),
            n == self.order().len(),
            self@.finite(),
    {
        proof {
            self.lemma_order();
        }
        self.items.len()
    }

    fn position(&self, address: PeerAddress) -> (r: Option<usize>)
        ensures
            match r {
                Some(i) => i < self.items@.len() && self.items@[i as int] == address,
                None => !self.items@.contains(address),
            },
    {
        let mut i: usize = 0;
        while i < self.items.len()
            invariant
                i <= self.items@.len(),
                forall|j: int| 0 <= j < i ==> self.items@[j] != address,
            decreases self.items@.len() - i,
        {
            if self.items[i] == address {
                return Some(i);
            }
            i += 1;
        }
        None
    }

    pub fn contains(&self, address: PeerAddress) -> (r: bool)
        ensures
            r == self@.contains(address),
    {
        self.position(address).is_some()
    }

    /// The address at place `i` of the order.
    pub fn at(&self, i: usize) -> (a: PeerAddress)
        requires
            i < self.order().len(),
        ensures
            a == self.order()[i as int],
    {
        self.items[i]
    }

    /// Adds `address`. Returns whether the set did not hold it before.
    pub fn insert(&mut self, address: PeerAddress) -> (added: bool)
        requires
            old(self).wf(),
        ensures
            final(self).wf(),
            final(self)@ == old(self)@.insert(address),
            added == !old(self)@.contains(address),
    {
        match self.position(address) {
            Some(_) => {
                proof {
                    assert(self@ =~= self@.insert(address));
                }
                false
            },
            None => {
                self.items.push(address);
                proof {
                    lemma_pushed(old(self).items@, address);
                    assert(self@ =~= old(self)@.insert(address));
                }
                true
            },
        }
    }

    /// Takes `address` out. Returns whether the set held it.
    pub fn remove(&mut self, address: PeerAddress) -> (removed: bool)
        requires
            old(self).wf(),
        ensures
            final(self).wf(),
            final(self)@ == old(self)@.remove(address),
            removed == old(self)@.contains(address),
    {
        match self.position(address) {
            Some(i) => {
                self.items.remove(i);
                proof {
                    lemma_removed(old(self).items@, i as int);
                    assert(self@ =~= old(self)@.remove(address));
                }
                true
            },
            None => {
                proof {
                    assert(self@ =~= old(self)@.remove(address));
                }
                false
            },
        }
    }

    /// The addresses of the set, each once.
    pub fn to_vec(&self) -> (v: Vec<PeerAddress>)
        requires
            self.wf(),
        ensures
            v@ == self.order(),
            v@.no_duplicates(),
            v@.to_set() == self@,
    {
        let mut v: Vec<PeerAddress> = Vec::with_capacity(self.items.len());
        let mut i: usize = 0;
        while i < self.items.len()
            invariant
                i <= self.items@.len(),
                v@ == self.items@.subrange(0, i as int),
            decreases self.items@.len() - i,
        {
            v.push(self.items[i]);
            i += 1;
            proof {
                assert(v@ =~= self.items@.subrange(0, i as int));
            }
        }
        proof {
            assert(v@ =~= self.items@);
        }
        v
    }
}

/// The records of peers, each under the address of its peer.
#[derive(Debug)]
pub struct PeerTable {
    entries: Vec<PeerInfo>,
}

impl View for PeerTable {
    type V = Map<PeerAddress, PeerInfoView>;

    closed spec fn view(&self) -> Map<PeerAddress, PeerInfoView> {
        records_of(self.entries@)
    }
}

impl PeerTable {
    /// No two records have the same address.
    pub closed spec fn wf(&self) -> bool {
        addresses_of(self.entries@).no_duplicates()
    }

    /// The addresses in the order in which the records are handed out.
    pub closed spec fn order(&self) -> Seq<PeerAddress> {
        addresses_of(self.entries@)
    }

    /// The order holds each address of the table once, and each record is
    /// that of its address.
    pub proof fn lemma_order(&self)
        requires
            self.wf(),
        ensures
            self.order().no_duplicates(),
            self.order().to_set() == self@.dom(),
            self@.dom().finite(),
            self@.dom().len() == self.order().len(),
            forall|i: int|
                0 <= i < self.order().len() ==> self@.dom().contains(#[trigger] self.order()[i]),
            forall|a: PeerAddress| #[trigger] self@.dom().contains(a) ==> self@[a].address == a,
    {
        lemma_records_of(self.entries@);
        assert forall|i: int| 0 <= i < self.order().len() implies self@.dom().contains(
            #[trigger] self.order()[i],
        ) by {
            assert(self.order()[i] == self.entries@[i]@.address);
        }
    }

    pub fn new() -> (t: PeerTable)
        ensures
            t.wf(),
            t@ == Map::<PeerAddress, PeerInfoView>::empty(),
    {
        let t = PeerTable { entries: Vec::new() };
        proof {
            assert(t@ =~= Map::<PeerAddress, PeerInfoView>::empty());
        }
        t
    }

    pub fn len(&self) -> (n: usize)
        requires
            self.wf(),
        ensures
            n == self@.dom().len(),
            n == self.order().len(),
            self@.dom().finite(),
    {
        proof {
            self.lemma_order();
        }
        self.entries.len()
    }

    /// The place of `address` in the order, if the table has a record of it.
    pub fn index_of(&self, address: PeerAddress) -> (r: Option<usize>)
        requires
            self.wf(),
        ensures
            match r {
                Some(i) => i < self.order().len() && self.order()[i as int] == address
                    && self@.dom().contains(address),
                None => !self@.dom().contains(address),
            },
    {
        let mut i: usize = 0;
        while i < self.entries.len()
            invariant
                self.wf(),
                i <= self.entries@.len(),
                forall|j: int| 0 <= j < i ==> self.entries@[j]@.address != address,
            decreases self.entries@.len() - i,
        {
            if self.entries[i].address() == address {
                proof {
                    lemma_records_of(self.entries@);
                }
                return Some(i);
            }
            i += 1;
        }
        proof {
            if addresses_of(self.entries@).contains(address) {
                let j = choose|j: int|
                    0 <= j < self.entries@.len() && addresses_of(self.entries@)[j] == address;
                assert(self.entries@[j]@.address == address);
            }
        }
        None
    }

    pub fn contains(&self, address: PeerAddress) -> (r: bool)
        requires
            self.wf(),
        ensures
            r == self@.dom().contains(address),
    {
        self.index_of(address).is_some()
    }

    /// The record at place `i` of the order.
    pub fn entry(&self, i: usize) -> (info: &PeerInfo)
        requires
            self.wf(),
            i < self.order().len(),
        ensures
            info@.address == self.order()[i as int],
            self@.dom().contains(info@.address),
            info@ == self@[self.order()[i as int]],
    {
        proof {
            lemma_records_of(self.entries@);
        }
        &self.entries[i]
    }

    /// The record of `address`, if the table has one.
    pub fn get(&self, address: PeerAddress) -> (r: Option<&PeerInfo>)
        requires
            self.wf(),
        ensures
            match r {
                Some(info) => self@.dom().contains(address) && info@ == self@[address],
                None => !self@.dom().contains(address),
            },
    {
        match self.index_of(address) {
            Some(i) => Some(self.entry(i)),
            None => None,
        }
    }

    /// Puts `info` under its address, in place of the record that the table
    /// had of that address. Returns whether it had none.
    pub fn insert(&mut self, info: PeerInfo) -> (added: bool)
        requires
            old(self).wf(),
        ensures
            final(self).wf(),
            final(self)@ == old(self)@.insert(info@.address, info@),
            added == !old(self)@.dom().contains(info@.address),
            added ==> final(self).order() == old(self).order().push(info@.address),
            !added ==> final(self).order() == old(self).order(),
    {
        let address = info.address();
        let ghost before = self.entries@;
        let ghost record = info@;
        match self.index_of(address) {
            Some(i) => {
                self.entries.set(i, info);
                proof {
                    let after = self.entries@;
                    assert(addresses_of(after) =~= addresses_of(before));
                    lemma_records_of(before);
                    lemma_records_of(after);
                    assert forall|a: PeerAddress| #[trigger]
                        records_of(after).dom().contains(a) implies records_of(after)[a]
                        == records_of(before).insert(address, record)[a] by {
                        let j = addresses_of(after).index_of(a);
                        assert(addresses_of(after)[j] == a);
                        assert(after[j]@.address == a);
                        if j != i {
                            assert(before[j]@.address == a);
                        }
                    }
                    assert(self@ =~= old(self)@.insert(address, record));
                }
                false
            },
            None => {
                self.entries.push(info);
                proof {
                    let after = self.entries@;
                    let n = before.len() as int;
                    assert(addresses_of(after) =~= addresses_of(before).push(address));
                    lemma_records_of(before);
                    assert(!addresses_of(before).contains(address));
                    assert(addresses_of(after).no_duplicates());
                    lemma_records_of(after);
                    assert forall|a: PeerAddress|
                        records_of(before).insert(address, record).dom().contains(
                            a,
                        ) implies #[trigger] records_of(after).dom().contains(a) by {
                        if a == address {
                            assert(after[n]@.address == a);
                        } else {
                            let j = addresses_of(before).index_of(a);
                            assert(addresses_of(before)[j] == a);
                            assert(after[j]@.address == a);
                        }
                    }
                    assert forall|a: PeerAddress| #[trigger]
                        records_of(after).dom().contains(a) implies records_of(before).insert(
                        address,
                        record,
                    ).dom().contains(a) && records_of(after)[a] == records_of(before).insert(
                        address,
                        record,
                    )[a] by {
                        let j = addresses_of(after).index_of(a);
                        assert(addresses_of(after)[j] == a);
                        assert(after[j]@.address == a);
                        if j < n {
                            assert(before[j]@.address == a);
                        }
                    }
                    assert(self@ =~= old(self)@.insert(address, record));
                }
                true
            },
        }
    }

    /// Takes the record of `address` out, if the table has one.
    pub fn remove(&mut self, address: PeerAddress) -> (r: Option<PeerInfo>)
        requires
            old(self).wf(),
        ensures
            final(self).wf(),
            final(self)@ == old(self)@.remove(address),
            match r {
                Some(info) => old(self)@.dom().contains(address) && info@ == old(self)@[address],
                None => !old(self)@.dom().contains(address),
            },
    {
        let ghost before = self.entries@;
        match self.index_of(address) {
            Some(i) => {
                let info = self.entries.remove(i);
                proof {
                    let after = self.entries@;
                    assert(after == before.remove(i as int));
                    assert(addresses_of(after) =~= addresses_of(before).remove(i as int));
                    lemma_records_of(before);
                    assert(addresses_of(after).no_duplicates()) by {
                        assert forall|x: int, y: int|
                            0 <= x < after.len() && 0 <= y < after.len() && x
                                != y implies addresses_of(after)[x] != addresses_of(after)[y] by {
                            let x0 = if x < i { x } else { x + 1 };
                            let y0 = if y < i { y } else { y + 1 };
                            assert(addresses_of(after)[x] == addresses_of(before)[x0]);
                            assert(addresses_of(after)[y] == addresses_of(before)[y0]);
                        }
                    }
                    lemma_records_of(after);
                    assert(before[i as int]@.address == address);
                    assert forall|a: PeerAddress|
                        records_of(before).remove(address).dom().contains(
                            a,
                        ) implies #[trigger] records_of(after).dom().contains(a) by {
                        let j = addresses_of(before).index_of(a);
                        assert(addresses_of(before)[j] == a);
                        assert(before[j]@.address == a);
                        if j < i {
                            assert(after[j]@.address == a);
                        } else {
                            assert(after[j - 1]@.address == a);
                        }
                    }
                    assert forall|a: PeerAddress| #[trigger]
                        records_of(after).dom().contains(a) implies records_of(before).remove(
                        address,
                    ).dom().contains(a) && records_of(after)[a] == records_of(before).remove(
                        address,
                    )[a] by {
                        let j = addresses_of(after).index_of(a);
                        assert(addresses_of(after)[j] == a);
                        assert(after[j]@.address == a);
                        let j0 = if j < i { j } else { j + 1 };
                        assert(before[j0]@.address == a);
                        assert(addresses_of(before)[j0] == a);
                        assert(addresses_of(before)[i as int] == address);
                    }
                    assert(self@ =~= old(self)@.remove(address));
                }
                Some(info)
            },
            None => {
                proof {
                    assert(self@ =~= old(self)@.remove(address));
                }
                None
            },
        }
    }

    /// Puts `quality` into the record at place `i` of the order.
    pub fn set_quality_at(&mut self, i: usize, quality: PeerQuality)
        requires
            old(self).wf(),
            i < old(self).order().len(),
        ensures
            final(self).wf(),
            final(self).order() == old(self).order(),
            final(self)@ == old(self)@.insert(
                old(self).order()[i as int],
                old(self)@[old(self).order()[i as int]].with_quality(quality),
            ),
    {
        let ghost before = self.entries@;
        self.entries[i].set_quality(quality);
        proof {
            lemma_records_of(before);
            lemma_changed_entry(before, self.entries@, i as int);
        }
    }

    /// Notes in the record at place `i` of the order whether its peer can be
    /// reached.
    pub fn set_routable_at(&mut self, i: usize, is_routable: bool)
        requires
            old(self).wf(),
            i < old(self).order().len(),
        ensures
            final(self).wf(),
            final(self).order() == old(self).order(),
            final(self)@ == old(self)@.insert(
                old(self).order()[i as int],
                old(self)@[old(self).order()[i as int]].with_routable(is_routable),
            ),
    {
        let ghost before = self.entries@;
        self.entries[i].set_is_routable(is_routable);
        proof {
            lemma_records_of(before);
            lemma_changed_entry(before, self.entries@, i as int);
        }
    }

    /// Adds a task to the record at place `i` of the order.
    pub fn register_task_at(&mut self, i: usize, id: u64, abortable: bool)
        requires
            old(self).wf(),
            i < old(self).order().len(),
        ensures
            final(self).wf(),
            final(self).order() == old(self).order(),
            final(self)@ == old(self)@.insert(
                old(self).order()[i as int],
                old(self)@[old(self).order()[i as int]].with_task(PeerTask { id, abortable }),
            ),
    {
        let ghost before = self.entries@;
        self.entries[i].register_task(id, abortable);
        proof {
            lemma_records_of(before);
            lemma_changed_entry(before, self.entries@, i as int);
        }
    }

    /// Copies of the records, in the order of the table.
    pub fn records(&self) -> (v: Vec<PeerInfo>)
        requires
            self.wf(),
        ensures
            addresses_of(v@) == self.order(),
            addresses_of(v@).no_duplicates(),
            records_of(v@) == self@,
    {
        let mut v: Vec<PeerInfo> = Vec::with_capacity(self.entries.len());
        let mut i: usize = 0;
        while i < self.entries.len()
            invariant
                i <= self.entries@.len(),
                v@.len() == i,
                forall|j: int| 0 <= j < i ==> v@[j]@ == self.entries@[j]@,
            decreases self.entries@.len() - i,
        {
            v.push(self.entries[i].duplicate());
            i += 1;
        }
        proof {
            lemma_same_records(v@, self.entries@);
        }
        v
    }
}

} // verus!
