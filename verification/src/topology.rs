//! The links of the known network, as the peers report them.

use crate::address::PeerAddress;
use crate::connection::{connection_ignores_direction, edge, Connection};
use vstd::prelude::*;

verus! {

/// The ends of each link of `links`, the smaller one first.
pub open spec fn keys_of(links: Seq<Connection>) -> Seq<(PeerAddress, PeerAddress)> {
    Seq::new(links.len(), |i: int| links[i].key())
}

/// Whether the link with the ends `e` joins `source` to one of `peers`.
pub open spec fn reported(
    source: PeerAddress,
    peers: Seq<PeerAddress>,
    e: (PeerAddress, PeerAddress),
) -> bool {
    exists|k: int| 0 <= k < peers.len() && e == edge(source, #[trigger] peers[k])
}

/// The links after `source` reported `peers` as its peers: the links between
/// other peers as they were, and of the links of `source` those to `peers`,
/// no others.
pub open spec fn updated(
    edges: Set<(PeerAddress, PeerAddress)>,
    source: PeerAddress,
    peers: Seq<PeerAddress>,
) -> Set<(PeerAddress, PeerAddress)> {
    Set::new(
        |e: (PeerAddress, PeerAddress)|
            (edges.contains(e) && e.0 != source && e.1 != source) || reported(source, peers, e),
    )
}

/// What a report of `source` does to the links: a link between two other
/// peers stays or stays away, and a link of `source` is there afterwards
/// exactly if it leads to one of `peers`. So the links of `source` that are
/// not reported go, those that are reported and missing come, and the rest
/// stays.
pub proof fn update_touches_only_source(
    edges: Set<(PeerAddress, PeerAddress)>,
    source: PeerAddress,
    peers: Seq<PeerAddress>,
    a: PeerAddress,
    b: PeerAddress,
)
    ensures
        a != source && b != source ==> (updated(edges, source, peers).contains(edge(a, b))
            <==> edges.contains(edge(a, b))),
        updated(edges, source, peers).contains(edge(source, b)) <==> peers.contains(b),
        updated(edges, source, peers).contains(edge(b, source)) <==> peers.contains(b),
        edges.contains(edge(source, b)) && !peers.contains(b) ==> !updated(
            edges,
            source,
            peers,
        ).contains(edge(source, b)),
        peers.contains(b) ==> updated(edges, source, peers).contains(edge(source, b)),
{
    let after = updated(edges, source, peers);
    connection_ignores_direction(source, b, Connection((b, source)));
    assert(edge(source, b) == edge(b, source));
    if a != source && b != source {
        if reported(source, peers, edge(a, b)) {
            let k = choose|k: int|
                0 <= k < peers.len() && edge(a, b) == edge(source, #[trigger] peers[k]);
            connection_ignores_direction(a, b, Connection((source, peers[k])));
        }
    }
    if peers.contains(b) {
        let k = choose|k: int| 0 <= k < peers.len() && peers[k] == b;
        assert(edge(source, b) == edge(source, peers[k]));
    }
    if after.contains(edge(source, b)) {
        assert(reported(source, peers, edge(source, b)));
        let k = choose|k: int|
            0 <= k < peers.len() && edge(source, b) == edge(source, #[trigger] peers[k]);
        connection_ignores_direction(source, b, Connection((source, peers[k])));
        assert(peers[k] == b);
    }
}

/// The links between the peers that the node has heard of.
#[derive(Debug)]
pub struct NetworkTopology {
    connections: Vec<Connection>,
}

impl View for NetworkTopology {
    type V = Set<(PeerAddress, PeerAddress)>;

    /// The links, each by its ends with the smaller one first.
    closed spec fn view(&self) -> Set<(PeerAddress, PeerAddress)> {
        keys_of(self.connections@).to_set()
    }
}

impl NetworkTopology {
    /// No link is held twice, in either direction.
    pub closed spec fn wf(&self) -> bool {
        keys_of(self.connections@).no_duplicates()
    }

    /// The links in the order in which they are handed out.
    pub closed spec fn order(&self) -> Seq<Connection> {
        self.connections@
    }

    /// The order holds each link once.
    pub proof fn lemma_order(&self)
        requires
            self.wf(),
        ensures
            keys_of(self.order()).no_duplicates(),
            keys_of(self.order()).to_set() == self@,
            self@.finite(),
            self@.len() == self.order().len(),
    {
        keys_of(self.connections@).unique_seq_to_set();
    }

    pub fn new() -> (t: NetworkTopology)
        ensures
            t.wf(),
            t@ == Set::<(PeerAddress, PeerAddress)>::empty(),
    {
        let t = NetworkTopology { connections: Vec::new() };
        proof {
            assert(t@ =~= Set::<(PeerAddress, PeerAddress)>::empty());
        }
        t
    }

    /// The number of links.
    pub fn len(&self) -> (n: usize)
        requires
            self.wf(),
        ensures
            n == self@.len(),
            self@.finite(),
    {
        proof {
            self.lemma_order();
        }
        self.connections.len()
    }

    /// Whether the topology holds `connection`, in either direction.
    pub fn contains(&self, connection: &Connection) -> (r: bool)
        ensures
            r == self@.contains(connection.key()),
    {
        find_link(&self.connections, connection).is_some()
    }

    /// Copies of the links, each once.
    pub fn connections(&self) -> (v: Vec<Connection>)
        requires
            self.wf(),
        ensures
            v@ == self.order(),
            keys_of(v@).no_duplicates(),
            keys_of(v@).to_set() == self@,
    {
        let mut v: Vec<Connection> = Vec::with_capacity(self.connections.len());
        let mut i: usize = 0;
        while i < self.connections.len()
            invariant
                i <= self.connections@.len(),
                v@ == self.connections@.subrange(0, i as int),
            decreases self.connections@.len() - i,
        {
            v.push(self.connections[i]);
            i += 1;
            proof {
                assert(v@ =~= self.connections@.subrange(0, i as int));
            }
        }
        proof {
            assert(v@ =~= self.connections@);
        }
        v
    }

    /// Takes in that `source` reported `peers` as its peers: the links of
    /// `source` to others than `peers` go, the links to `peers` that were not
    /// there come, and the links between other peers stay.
    pub fn update(&mut self, source: PeerAddress, peers: Vec<PeerAddress>)
        requires
            old(self).wf(),
        ensures
            final(self).wf(),
            final(self)@ == updated(old(self)@, source, peers@),
    {
        let ghost before = self.connections@;
        let ghost edges = self@;
        let mut kept: Vec<Connection> = Vec::new();
        let n: usize = self.connections.len();
        let mut i: usize = 0;
        while i < n
            invariant
                i <= n,
                n == before.len(),
                self.connections@ == before,
                keys_of(before).no_duplicates(),
                keys_of(kept@).no_duplicates(),
                forall|e: (PeerAddress, PeerAddress)|
                    #![trigger keys_of(kept@).contains(e)]
                    keys_of(kept@).contains(e) <==> listed(keys_of(before), i as int, e) && ((e.0
                        != source && e.1 != source) || reported(source, peers@, e)),
            decreases n - i,
        {
            let link: Connection = self.connections[i];
            let ghost key = link.key();
            let ghost sofar = kept@;
            proof {
                assert(keys_of(before)[i as int] == key);
                assert forall|e: (PeerAddress, PeerAddress)|
                    listed(keys_of(before), i + 1, e) <==> listed(keys_of(before), i as int, e)
                        || e == key by {
                    lemma_listed_step(keys_of(before), i as int, e);
                }
                assert(!listed(keys_of(before), i as int, key)) by {
                    if listed(keys_of(before), i as int, key) {
                        let j = choose|j: int|
                            0 <= j < i && j < keys_of(before).len() && keys_of(before)[j] == key;
                        assert(keys_of(before)[j] == keys_of(before)[i as int]);
                    }
                }
                assert(key.0 == source || key.1 == source <==> link.spec_involves(source));
            }
            let keep: bool = !link.involves(source) || reports(source, &peers, &link);
            if keep {
                kept.push(link);
                proof {
                    assert(keys_of(kept@) =~= keys_of(sofar).push(key));
                    lemma_push_contains(keys_of(sofar), key);
                }
            }
            i += 1;
        }
        proof {
            assert forall|e: (PeerAddress, PeerAddress)|
                listed(keys_of(before), n as int, e) <==> edges.contains(e) by {
                lemma_listed_all(keys_of(before), e);
            }
        }
        let m: usize = peers.len();
        let mut k: usize = 0;
        while k < m
            invariant
                k <= m,
                m == peers@.len(),
                keys_of(kept@).no_duplicates(),
                forall|e: (PeerAddress, PeerAddress)|
                    #![trigger keys_of(kept@).contains(e)]
                    keys_of(kept@).contains(e) <==> (edges.contains(e) && ((e.0 != source && e.1
                        != source) || reported(source, peers@, e))) || listed_report(
                        source,
                        peers@,
                        k as int,
                        e,
                    ),
            decreases m - k,
        {
            let link = Connection((source, peers[k]));
            let ghost key = link.key();
            let ghost sofar = kept@;
            proof {
                assert forall|e: (PeerAddress, PeerAddress)|
                    listed_report(source, peers@, k + 1, e) <==> listed_report(
                        source,
                        peers@,
                        k as int,
                        e,
                    ) || e == key by {
                    lemma_listed_report_step(source, peers@, k as int, e);
                }
            }
            if find_link(&kept, &link).is_none() {
                kept.push(link);
                proof {
                    assert(keys_of(kept@) =~= keys_of(sofar).push(key));
                    lemma_push_contains(keys_of(sofar), key);
                }
            }
            k += 1;
        }
        self.connections = kept;
        proof {
            assert forall|e: (PeerAddress, PeerAddress)|
                listed_report(source, peers@, m as int, e) <==> reported(source, peers@, e) by {
                lemma_listed_report_all(source, peers@, e);
            }
            assert(self@ =~= updated(edges, source, peers@));
        }
    }
}

impl Default for NetworkTopology {
    fn default() -> (t: NetworkTopology)
        ensures
            t.wf(),
            t@ == Set::<(PeerAddress, PeerAddress)>::empty(),
    {
        NetworkTopology::new()
    }
}

/// Whether `e` is among the first `i` entries of `keys`.
spec fn listed(keys: Seq<(PeerAddress, PeerAddress)>, i: int, e: (PeerAddress, PeerAddress)) -> bool {
    exists|j: int| 0 <= j < i && j < keys.len() && keys[j] == e
}

proof fn lemma_listed_step(
    keys: Seq<(PeerAddress, PeerAddress)>,
    i: int,
    e: (PeerAddress, PeerAddress),
)
    requires
        0 <= i < keys.len(),
    ensures
        listed(keys, i + 1, e) <==> listed(keys, i, e) || keys[i] == e,
{
    if listed(keys, i, e) {
        let j = choose|j: int| 0 <= j < i && j < keys.len() && keys[j] == e;
        assert(0 <= j < i + 1 && keys[j] == e);
    }
    if keys[i] == e {
        assert(0 <= i < i + 1 && keys[i] == e);
    }
}

proof fn lemma_listed_all(keys: Seq<(PeerAddress, PeerAddress)>, e: (PeerAddress, PeerAddress))
    ensures
        listed(keys, keys.len() as int, e) <==> keys.to_set().contains(e),
        !listed(keys, 0, e),
{
    if keys.to_set().contains(e) {
        let j = choose|j: int| 0 <= j < keys.len() && keys[j] == e;
        assert(0 <= j < keys.len() && j < keys.len() && keys[j] == e);
    }
}

/// Whether `e` joins `source` to one of the first `k` of `peers`.
spec fn listed_report(
    source: PeerAddress,
    peers: Seq<PeerAddress>,
    k: int,
    e: (PeerAddress, PeerAddress),
) -> bool {
    exists|j: int| 0 <= j < k && j < peers.len() && e == edge(source, #[trigger] peers[j])
}

proof fn lemma_listed_report_step(
    source: PeerAddress,
    peers: Seq<PeerAddress>,
    k: int,
    e: (PeerAddress, PeerAddress),
)
    requires
        0 <= k < peers.len(),
    ensures
        listed_report(source, peers, k + 1, e) <==> listed_report(source, peers, k, e) || e
            == edge(source, peers[k]),
{
    if listed_report(source, peers, k, e) {
        let j = choose|j: int|
            0 <= j < k && j < peers.len() && e == edge(source, #[trigger] peers[j]);
        assert(0 <= j < k + 1 && e == edge(source, peers[j]));
    }
    if e == edge(source, peers[k]) {
        assert(0 <= k < k + 1 && e == edge(source, peers[k]));
    }
}

proof fn lemma_listed_report_all(
    source: PeerAddress,
    peers: Seq<PeerAddress>,
    e: (PeerAddress, PeerAddress),
)
    ensures
        listed_report(source, peers, peers.len() as int, e) <==> reported(source, peers, e),
        !listed_report(source, peers, 0, e),
{
    if reported(source, peers, e) {
        let j = choose|j: int| 0 <= j < peers.len() && e == edge(source, #[trigger] peers[j]);
        assert(0 <= j < peers.len() && j < peers.len() && e == edge(source, peers[j]));
    }
}

proof fn lemma_push_contains(keys: Seq<(PeerAddress, PeerAddress)>, key: (PeerAddress, PeerAddress))
    ensures
        forall|e: (PeerAddress, PeerAddress)| #[trigger]
            keys.push(key).contains(e) <==> keys.contains(e) || e == key,
        keys.no_duplicates() && !keys.contains(key) ==> keys.push(key).no_duplicates(),
{
    let after = keys.push(key);
    assert forall|e: (PeerAddress, PeerAddress)| #[trigger]
        after.contains(e) <==> keys.contains(e) || e == key by {
        if keys.contains(e) {
            let j = choose|j: int| 0 <= j < keys.len() && keys[j] == e;
            assert(after[j] == e);
        }
        if e == key {
            assert(after[keys.len() as int] == e);
        }
    }
}

/// The place of a link between the ends of `link` in `links`.
fn find_link(links: &Vec<Connection>, link: &Connection) -> (r: Option<usize>)
    ensures
        match r {
            Some(i) => i < links@.len() && links@[i as int].key() == link.key(),
            None => !keys_of(links@).contains(link.key()),
        },
        r is Some <==> keys_of(links@).to_set().contains(link.key()),
{
    let mut i: usize = 0;
    while i < links.len()
        invariant
            i <= links@.len(),
            forall|j: int| 0 <= j < i ==> links@[j].key() != link.key(),
        decreases links@.len() - i,
    {
        let other: Connection = links[i];
        proof {
            connection_ignores_direction(other.0.0, other.0.1, *link);
        }
        if other == *link {
            proof {
                assert(keys_of(links@)[i as int] == link.key());
            }
            return Some(i);
        }
        i += 1;
    }
    proof {
        if keys_of(links@).contains(link.key()) {
            let j = choose|j: int| 0 <= j < links@.len() && keys_of(links@)[j] == link.key();
            assert(links@[j].key() == link.key());
        }
    }
    None
}

/// Whether `link` joins `source` to one of `peers`.
fn reports(source: PeerAddress, peers: &Vec<PeerAddress>, link: &Connection) -> (r: bool)
    ensures
        r == reported(source, peers@, link.key()),
{
    let mut k: usize = 0;
    while k < peers.len()
        invariant
            k <= peers@.len(),
            forall|j: int| 0 <= j < k ==> link.key() != edge(source, #[trigger] peers@[j]),
        decreases peers@.len() - k,
    {
        let other = Connection((source, peers[k]));
        proof {
            connection_ignores_direction(source, peers@[k as int], *link);
        }
        if other == *link {
            return true;
        }
        k += 1;
    }
    false
}

} // verus!
