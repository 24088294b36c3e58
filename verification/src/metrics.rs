//! Measures of a network of nodes in whole numbers: the number of links, the
//! density, the numbers of peers, and the matrices of the network.

use crate::address::PeerAddress;
use crate::node::Node;
use vstd::prelude::*;
use vstd::set_lib::lemma_len_subset;

verus! {

/// How dense a network is: the number of its links over the number of links
/// that it could have, as a fraction.
#[derive(Clone, Copy, Debug, PartialEq, Eq, Structural)]
pub struct Density {
    /// Twice the number of links.
    pub numerator: u128,
    /// The number of ordered pairs of different nodes; one where there is no
    /// such pair.
    pub denominator: u128,
}

impl Density {
    /// The fraction is one of a whole: not below nothing, not above one.
    pub open spec fn in_unit_interval(self) -> bool {
        0 <= self.numerator <= self.denominator && self.denominator > 0
    }

    pub open spec fn is_zero(self) -> bool {
        self.numerator == 0 && self.denominator > 0
    }
}

/// The number of peers of a node, as the node counts them.
pub open spec fn degree(node: Node) -> int {
    node@.connected_count()
}

/// The address on which a node listens.
pub open spec fn address_of(node: Node) -> PeerAddress {
    node.environment.local_address->Some_0
}

/// The addresses of `nodes`, in their order: the address of a node stands at
/// the place of its row in every matrix.
pub open spec fn addresses_of_nodes(nodes: Seq<Node>) -> Seq<PeerAddress> {
    Seq::new(nodes.len(), |i: int| address_of(nodes[i]))
}

/// The numbers of peers of `nodes`, added up.
pub open spec fn degree_sum(nodes: Seq<Node>) -> int
    decreases nodes.len(),
{
    if nodes.len() == 0 {
        0
    } else {
        degree_sum(nodes.drop_last()) + degree(nodes.last())
    }
}

/// The number of links between `nodes`: each link is counted by both of its
/// ends.
pub open spec fn spec_total_connection_count(nodes: Seq<Node>) -> int {
    degree_sum(nodes) / 2
}

/// The density of a network of `n` nodes with `links` links. A network of
/// one node or none has the density nothing.
pub open spec fn spec_calculate_density(n: int, links: int) -> Density {
    if n <= 1 {
        Density { numerator: 0, denominator: 1 }
    } else {
        Density { numerator: (2 * links) as u128, denominator: (n * (n - 1)) as u128 }
    }
}

pub open spec fn spec_network_density(nodes: Seq<Node>) -> Density {
    spec_calculate_density(nodes.len() as int, spec_total_connection_count(nodes))
}

/// Every node is sound and knows its address.
pub open spec fn nodes_wf(nodes: Seq<Node>) -> bool {
    forall|i: int|
        0 <= i < nodes.len() ==> (#[trigger] nodes[i]).wf() && nodes[i].environment.local_address
            is Some
}

/// The nodes are a network of their own: no two have the same address, and
/// each is connected to others of them only.
pub open spec fn closed_network(nodes: Seq<Node>) -> bool {
    &&& nodes_wf(nodes)
    &&& addresses_of_nodes(nodes).no_duplicates()
    &&& forall|i: int, a: PeerAddress|
        0 <= i < nodes.len() && #[trigger] nodes[i]@.book.is_connected(a) ==> a != address_of(
            nodes[i],
        ) && addresses_of_nodes(nodes).contains(a)
}

proof fn lemma_degree_sum_step(nodes: Seq<Node>, i: int)
    requires
        0 <= i < nodes.len(),
    ensures
        degree_sum(nodes.subrange(0, i + 1)) == degree_sum(nodes.subrange(0, i)) + degree(nodes[i]),
        degree(nodes[i]) >= 0,
{
    let next = nodes.subrange(0, i + 1);
    assert(next.drop_last() =~= nodes.subrange(0, i));
    assert(next.last() == nodes[i]);
}

proof fn lemma_degree_sum_nonnegative(nodes: Seq<Node>)
    ensures
        degree_sum(nodes) >= 0,
    decreases nodes.len(),
{
    if nodes.len() > 0 {
        lemma_degree_sum_nonnegative(nodes.drop_last());
    }
}

/// In a network of its own a node has fewer peers than there are nodes.
proof fn lemma_degree_bound(nodes: Seq<Node>, i: int)
    requires
        closed_network(nodes),
        0 <= i < nodes.len(),
    ensures
        0 <= degree(nodes[i]) <= nodes.len() - 1,
{
    let addresses = addresses_of_nodes(nodes);
    let own = address_of(nodes[i]);
    let peers = nodes[i]@.book.connected.dom();
    addresses.unique_seq_to_set();
    assert(addresses[i] == own);
    assert(addresses.to_set().contains(own));
    let others = addresses.to_set().remove(own);
    assert(peers.subset_of(others)) by {
        assert forall|a: PeerAddress| peers.contains(a) implies others.contains(a) by {
            assert(nodes[i]@.book.is_connected(a));
        }
    }
    lemma_len_subset(peers, others);
    assert(peers.len() <= nodes.len() - 1);
    assert(peers.len() as u16 as int <= peers.len()) by {
        let n = peers.len();
        if n <= 0xffff {
            assert(n as u16 as int == n);
        }
    }
}

proof fn lemma_degree_sum_bound(nodes: Seq<Node>, k: int)
    requires
        closed_network(nodes),
        0 <= k <= nodes.len(),
    ensures
        degree_sum(nodes.subrange(0, k)) <= k * (nodes.len() - 1),
    decreases k,
{
    if k == 0 {
        assert(nodes.subrange(0, 0).len() == 0);
    } else {
        lemma_degree_sum_bound(nodes, k - 1);
        lemma_degree_sum_step(nodes, k - 1);
        lemma_degree_bound(nodes, k - 1);
        assert(k * (nodes.len() - 1) == (k - 1) * (nodes.len() - 1) + (nodes.len() - 1))
            by (nonlinear_arith);
    }
}

/// The density of a network is a fraction of a whole, where the nodes are
/// a network of their own; and the density
/// of a network of one node or none is nothing.
pub proof fn density_in_unit_interval(nodes: Seq<Node>)
    requires
        closed_network(nodes),
        nodes.len() <= usize::MAX,
    ensures
        spec_network_density(nodes).in_unit_interval(),
        nodes.len() <= 1 ==> spec_network_density(nodes).is_zero(),
        forall|links: int| spec_calculate_density(0, links).is_zero() && spec_calculate_density(
            1,
            links,
        ).is_zero(),
{
    let n = nodes.len() as int;
    lemma_degree_sum_bound(nodes, n);
    assert(nodes.subrange(0, n) =~= nodes);
    lemma_degree_sum_nonnegative(nodes);
    if n > 1 {
        let links = spec_total_connection_count(nodes);
        assert(0 <= 2 * links <= degree_sum(nodes));
        assert(n * (n - 1) > 0) by (nonlinear_arith)
            requires
                n > 1,
        ;
        assert(n * (n - 1) <= u128::MAX) by (nonlinear_arith)
            requires
                1 < n <= 0xffff_ffff_ffff_ffff,
        ;
    }
}

/// The density of a network of `n` nodes with `links` links.
pub fn calculate_density(n: usize, links: usize) -> (density: Density)
    ensures
        density == spec_calculate_density(n as int, links as int),
{
    if n <= 1 {
        Density { numerator: 0, denominator: 1 }
    } else {
        assert(n * (n - 1) <= u128::MAX) by (nonlinear_arith)
            requires
                1 < n <= 0xffff_ffff_ffff_ffff,
        ;
        let pairs: u128 = (n as u128) * ((n - 1) as u128);
        Density { numerator: 2 * (links as u128), denominator: pairs }
    }
}

/// The number of links between `nodes`: half of what the numbers of their
/// peers add up to. The list is no longer than the count can be held for.
pub fn total_connection_count(nodes: &Vec<Node>) -> (count: usize)
    requires
        nodes_wf(nodes@),
        nodes@.len() <= usize::MAX / 0x1_0000,
    ensures
        count == spec_total_connection_count(nodes@),
{
    let mut sum: usize = 0;
    let mut i: usize = 0;
    proof {
        assert(nodes@.subrange(0, 0).len() == 0);
    }
    while i < nodes.len()
        invariant
            i <= nodes@.len(),
            nodes_wf(nodes@),
            nodes@.len() <= usize::MAX / 0x1_0000,
            sum == degree_sum(nodes@.subrange(0, i as int)),
            sum <= i * 0xffff,
        decreases nodes@.len() - i,
    {
        proof {
            lemma_degree_sum_step(nodes@, i as int);
        }
        let peers: usize = nodes[i].peer_book.number_of_connected_peers() as usize;
        sum = sum + peers;
        i += 1;
    }
    proof {
        assert(nodes@.subrange(0, nodes@.len() as int) =~= nodes@);
    }
    sum / 2
}

/// The density of the network of `nodes`.
pub fn network_density(nodes: &Vec<Node>) -> (density: Density)
    requires
        nodes_wf(nodes@),
        nodes@.len() <= usize::MAX / 0x1_0000,
    ensures
        density == spec_network_density(nodes@),
{
    let links: usize = total_connection_count(nodes);
    calculate_density(nodes.len(), links)
}

/// The entry of the degree matrix of `nodes` in row `i` and column `j`: on
/// the diagonal the number of peers of the node, elsewhere nothing.
pub open spec fn degree_entry(nodes: Seq<Node>, i: int, j: int) -> int {
    if i == j {
        degree(nodes[i])
    } else {
        0
    }
}

/// The entry of the adjacency matrix of `nodes` in row `i` and column `j`:
/// one where the node of the row is connected to the node of the column.
pub open spec fn adjacency_entry(nodes: Seq<Node>, i: int, j: int) -> int {
    if nodes[i]@.book.is_connected(address_of(nodes[j])) {
        1
    } else {
        0
    }
}

/// The entry of the Laplacian matrix of `nodes`: that of the degree matrix
/// less that of the adjacency matrix.
pub open spec fn laplacian_entry(nodes: Seq<Node>, i: int, j: int) -> int {
    degree_entry(nodes, i, j) - adjacency_entry(nodes, i, j)
}

/// Whether `matrix` has `n` rows and `n` columns and holds `entry(i, j)` in
/// row `i` and column `j`.
pub open spec fn is_matrix(matrix: Seq<Vec<i64>>, n: int, entry: spec_fn(int, int) -> int) -> bool {
    &&& matrix.len() == n
    &&& forall|i: int| 0 <= i < n ==> (#[trigger] matrix[i])@.len() == n
    &&& forall|i: int, j: int|
        0 <= i < n && 0 <= j < n ==> #[trigger] matrix[i]@[j] == entry(i, j)
}

/// The rows of the nodes: the address of each node, at the place of its row.
#[derive(Debug)]
pub struct NodeIndex {
    addresses: Vec<PeerAddress>,
}

impl View for NodeIndex {
    type V = Seq<PeerAddress>;

    closed spec fn view(&self) -> Seq<PeerAddress> {
        self.addresses@
    }
}

impl NodeIndex {
    /// The index of `nodes`.
    pub fn new(nodes: &Vec<Node>) -> (index: NodeIndex)
        requires
            nodes_wf(nodes@),
        ensures
            index@ == addresses_of_nodes(nodes@),
    {
        let mut addresses: Vec<PeerAddress> = Vec::with_capacity(nodes.len());
        let mut i: usize = 0;
        while i < nodes.len()
            invariant
                i <= nodes@.len(),
                nodes_wf(nodes@),
                addresses@ == addresses_of_nodes(nodes@).subrange(0, i as int),
            decreases nodes@.len() - i,
        {
            let address: PeerAddress = match nodes[i].local_address() {
                Some(a) => a,
                None => PeerAddress::new_v4(0, 0, 0, 0, 0),
            };
            addresses.push(address);
            i += 1;
            proof {
                assert(addresses@ =~= addresses_of_nodes(nodes@).subrange(0, i as int));
            }
        }
        proof {
            assert(addresses@ =~= addresses_of_nodes(nodes@));
        }
        NodeIndex { addresses }
    }

    pub fn len(&self) -> (n: usize)
        ensures
            n == self@.len(),
    {
        self.addresses.len()
    }

    /// The address of row `i`.
    pub fn address(&self, i: usize) -> (a: PeerAddress)
        requires
            i < self@.len(),
        ensures
            a == self@[i as int],
    {
        self.addresses[i]
    }

    /// The first row of `address`, if it has one.
    pub fn row(&self, address: PeerAddress) -> (r: Option<usize>)
        ensures
            match r {
                Some(i) => i < self@.len() && self@[i as int] == address && forall|j: int|
                    0 <= j < i ==> self@[j] != address,
                None => !self@.contains(address),
            },
    {
        let mut i: usize = 0;
        while i < self.addresses.len()
            invariant
                i <= self.addresses@.len(),
                forall|j: int| 0 <= j < i ==> self.addresses@[j] != address,
            decreases self.addresses@.len() - i,
        {
            if self.addresses[i] == address {
                return Some(i);
            }
            i += 1;
        }
        None
    }
}

/// The degree matrix of `nodes`, with the rows of `index`.
pub fn degree_matrix(index: &NodeIndex, nodes: &Vec<Node>) -> (matrix: Vec<Vec<i64>>)
    requires
        nodes_wf(nodes@),
        index@ == addresses_of_nodes(nodes@),
    ensures
        is_matrix(matrix@, nodes@.len() as int, |i: int, j: int| degree_entry(nodes@, i, j)),
{
    let n: usize = nodes.len();
    let mut matrix: Vec<Vec<i64>> = Vec::with_capacity(n);
    let mut i: usize = 0;
    while i < n
        invariant
            i <= n,
            n == nodes@.len(),
            nodes_wf(nodes@),
            matrix@.len() == i,
            forall|r: int| 0 <= r < i ==> (#[trigger] matrix@[r])@.len() == n,
            forall|r: int, c: int|
                0 <= r < i && 0 <= c < n ==> #[trigger] matrix@[r]@[c] == degree_entry(
                    nodes@,
                    r,
                    c,
                ),
        decreases n - i,
    {
        let peers: i64 = nodes[i].peer_book.number_of_connected_peers() as i64;
        let mut row: Vec<i64> = Vec::with_capacity(n);
        let mut j: usize = 0;
        while j < n
            invariant
                j <= n,
                i < n,
                n == nodes@.len(),
                peers == degree(nodes@[i as int]),
                row@.len() == j,
                forall|c: int| 0 <= c < j ==> #[trigger] row@[c] == degree_entry(nodes@, i as int, c),
            decreases n - j,
        {
            row.push(if i == j { peers } else { 0 });
            j += 1;
        }
        matrix.push(row);
        i += 1;
    }
    matrix
}

/// The adjacency matrix of `nodes`, with the rows of `index`.
pub fn adjacency_matrix(index: &NodeIndex, nodes: &Vec<Node>) -> (matrix: Vec<Vec<i64>>)
    requires
        nodes_wf(nodes@),
        index@ == addresses_of_nodes(nodes@),
    ensures
        is_matrix(matrix@, nodes@.len() as int, |i: int, j: int| adjacency_entry(nodes@, i, j)),
{
    let n: usize = nodes.len();
    let mut matrix: Vec<Vec<i64>> = Vec::with_capacity(n);
    let mut i: usize = 0;
    while i < n
        invariant
            i <= n,
            n == nodes@.len(),
            nodes_wf(nodes@),
            index@ == addresses_of_nodes(nodes@),
            matrix@.len() == i,
            forall|r: int| 0 <= r < i ==> (#[trigger] matrix@[r])@.len() == n,
            forall|r: int, c: int|
                0 <= r < i && 0 <= c < n ==> #[trigger] matrix@[r]@[c] == adjacency_entry(
                    nodes@,
                    r,
                    c,
                ),
        decreases n - i,
    {
        let mut row: Vec<i64> = Vec::with_capacity(n);
        let mut j: usize = 0;
        while j < n
            invariant
                j <= n,
                i < n,
                n == nodes@.len(),
                nodes_wf(nodes@),
                index@ == addresses_of_nodes(nodes@),
                row@.len() == j,
                forall|c: int|
                    0 <= c < j ==> #[trigger] row@[c] == adjacency_entry(nodes@, i as int, c),
            decreases n - j,
        {
            let linked: bool = nodes[i].peer_book.is_connected(index.address(j));
            row.push(if linked { 1 } else { 0 });
            j += 1;
        }
        matrix.push(row);
        i += 1;
    }
    matrix
}

/// Whether `matrix` has `n` rows and `n` columns.
pub open spec fn is_square(matrix: Seq<Vec<i64>>, n: int) -> bool {
    &&& matrix.len() == n
    &&& forall|i: int| 0 <= i < n ==> (#[trigger] matrix[i])@.len() == n
}

/// The Laplacian matrix: the degree matrix less the adjacency matrix, entry
/// by entry.
pub fn laplacian_matrix(degrees: &Vec<Vec<i64>>, adjacency: &Vec<Vec<i64>>) -> (matrix: Vec<
    Vec<i64>,
>)
    requires
        is_square(degrees@, degrees@.len() as int),
        is_square(adjacency@, degrees@.len() as int),
        forall|i: int, j: int|
            0 <= i < degrees@.len() && 0 <= j < degrees@.len() ==> i64::MIN
                <= #[trigger] degrees@[i]@[j] - adjacency@[i]@[j] <= i64::MAX,
    ensures
        is_matrix(
            matrix@,
            degrees@.len() as int,
            |i: int, j: int| degrees@[i]@[j] - adjacency@[i]@[j],
        ),
{
    let n: usize = degrees.len();
    let mut matrix: Vec<Vec<i64>> = Vec::with_capacity(n);
    let mut i: usize = 0;
    while i < n
        invariant
            i <= n,
            n == degrees@.len(),
            is_square(degrees@, n as int),
            is_square(adjacency@, n as int),
            forall|i: int, j: int|
                0 <= i < n && 0 <= j < n ==> i64::MIN <= #[trigger] degrees@[i]@[j]
                    - adjacency@[i]@[j] <= i64::MAX,
            matrix@.len() == i,
            forall|r: int| 0 <= r < i ==> (#[trigger] matrix@[r])@.len() == n,
            forall|r: int, c: int|
                0 <= r < i && 0 <= c < n ==> #[trigger] matrix@[r]@[c] == degrees@[r]@[c]
                    - adjacency@[r]@[c],
        decreases n - i,
    {
        let mut row: Vec<i64> = Vec::with_capacity(n);
        let mut j: usize = 0;
        while j < n
            invariant
                j <= n,
                i < n,
                n == degrees@.len(),
                is_square(degrees@, n as int),
                is_square(adjacency@, n as int),
                forall|i: int, j: int|
                    0 <= i < n && 0 <= j < n ==> i64::MIN <= #[trigger] degrees@[i]@[j]
                        - adjacency@[i]@[j] <= i64::MAX,
                row@.len() == j,
                forall|c: int|
                    0 <= c < j ==> #[trigger] row@[c] == degrees@[i as int]@[c]
                        - adjacency@[i as int]@[c],
            decreases n - j,
        {
            proof {
                assert(degrees@[i as int]@.len() == n);
                assert(adjacency@[i as int]@.len() == n);
                assert(i64::MIN <= degrees@[i as int]@[j as int] - adjacency@[i as int]@[j as int]
                    <= i64::MAX);
            }
            let d: i64 = degrees[i][j];
            let a: i64 = adjacency[i][j];
            row.push(d - a);
            j += 1;
        }
        matrix.push(row);
        i += 1;
    }
    matrix
}

/// Whether `delta` is the difference between the greatest and the least
/// number of peers that a node of `nodes` has.
pub open spec fn is_degree_delta(nodes: Seq<Node>, delta: int) -> bool {
    exists|least: int, most: int|
        {
            &&& 0 <= least < nodes.len()
            &&& 0 <= most < nodes.len()
            &&& forall|k: int|
                0 <= k < nodes.len() ==> degree(nodes[least]) <= degree(#[trigger] nodes[k])
                    <= degree(nodes[most])
            &&& delta == #[trigger] degree(nodes[most]) - #[trigger] degree(nodes[least])
        }
}

/// The difference between the greatest and the least number of peers that a
/// node of `nodes` has.
pub fn degree_centrality_delta(nodes: &Vec<Node>) -> (delta: u16)
    requires
        nodes_wf(nodes@),
        nodes@.len() > 0,
    ensures
        is_degree_delta(nodes@, delta as int),
{
    let mut least: u16 = nodes[0].peer_book.number_of_connected_peers();
    let mut most: u16 = least;
    let ghost mut at_least: int = 0;
    let ghost mut at_most: int = 0;
    let mut i: usize = 1;
    while i < nodes.len()
        invariant
            1 <= i <= nodes@.len(),
            nodes_wf(nodes@),
            0 <= at_least < i,
            0 <= at_most < i,
            least == degree(nodes@[at_least]),
            most == degree(nodes@[at_most]),
            forall|k: int| 0 <= k < i ==> least <= degree(#[trigger] nodes@[k]) <= most,
        decreases nodes@.len() - i,
    {
        let peers: u16 = nodes[i].peer_book.number_of_connected_peers();
        if peers < least {
            least = peers;
            proof {
                at_least = i as int;
            }
        }
        if peers > most {
            most = peers;
            proof {
                at_most = i as int;
            }
        }
        i += 1;
    }
    proof {
        assert(most - least == degree(nodes@[at_most]) - degree(nodes@[at_least]));
    }
    most - least
}

/// The number of peers of each node, with the address of the node, in the
/// order of the rows: the diagonal of the degree matrix.
pub fn degree_centrality(index: &NodeIndex, degree_matrix: &Vec<Vec<i64>>) -> (degrees: Vec<
    (PeerAddress, u16),
>)
    requires
        is_square(degree_matrix@, index@.len() as int),
        forall|i: int|
            0 <= i < index@.len() ==> 0 <= #[trigger] degree_matrix@[i]@[i] <= u16::MAX,
    ensures
        degrees@.len() == index@.len(),
        forall|i: int|
            0 <= i < index@.len() ==> #[trigger] degrees@[i] == (
                index@[i],
                degree_matrix@[i]@[i] as u16,
            ),
{
    let n: usize = index.len();
    let mut degrees: Vec<(PeerAddress, u16)> = Vec::with_capacity(n);
    let mut i: usize = 0;
    while i < n
        invariant
            i <= n,
            n == index@.len(),
            is_square(degree_matrix@, n as int),
            forall|k: int| 0 <= k < n ==> 0 <= #[trigger] degree_matrix@[k]@[k] <= u16::MAX,
            degrees@.len() == i,
            forall|k: int|
                0 <= k < i ==> #[trigger] degrees@[k] == (
                    index@[k],
                    degree_matrix@[k]@[k] as u16,
                ),
        decreases n - i,
    {
        proof {
            assert(degree_matrix@[i as int]@.len() == n);
            assert(0 <= degree_matrix@[i as int]@[i as int] <= u16::MAX);
        }
        let entry: i64 = degree_matrix[i][i];
        degrees.push((index.address(i), entry as u16));
        i += 1;
    }
    degrees
}

/// What is measured of one node. The measures that are taken from the
/// eigenvectors of the matrices are not among them.
#[derive(Clone, Copy, Debug, PartialEq, Eq, Structural)]
pub struct NodeCentrality {
    /// The number of peers of the node.
    pub degree_centrality: u16,
}

impl NodeCentrality {
    pub fn new(degree_centrality: u16) -> (c: NodeCentrality)
        ensures
            c.degree_centrality == degree_centrality,
    {
        NodeCentrality { degree_centrality }
    }
}

/// What is measured of a network, as far as whole numbers go, and the
/// matrices from which the other measures are taken.
#[derive(Debug)]
pub struct NetworkMetrics {
    /// The number of nodes.
    pub node_count: usize,
    /// The number of links.
    pub connection_count: usize,
    /// The number of links over the number of links that could be.
    pub density: Density,
    /// The difference between the greatest and the least number of peers of
    /// a node.
    pub degree_centrality_delta: u16,
    /// The measures of each node, with its address, in the order of the rows.
    pub centrality: Vec<(PeerAddress, NodeCentrality)>,
    /// The adjacency matrix.
    pub adjacency_matrix: Vec<Vec<i64>>,
    /// The Laplacian matrix.
    pub laplacian_matrix: Vec<Vec<i64>>,
}

impl NetworkMetrics {
    /// Measures the network of `nodes`.
    pub fn new(nodes: &Vec<Node>) -> (metrics: NetworkMetrics)
        requires
            nodes_wf(nodes@),
            nodes@.len() > 0,
            nodes@.len() <= usize::MAX / 0x1_0000,
        ensures
            metrics.node_count == nodes@.len(),
            metrics.connection_count == spec_total_connection_count(nodes@),
            metrics.density == spec_network_density(nodes@),
            is_degree_delta(nodes@, metrics.degree_centrality_delta as int),
            metrics.centrality@.len() == nodes@.len(),
            forall|i: int|
                0 <= i < nodes@.len() ==> #[trigger] metrics.centrality@[i] == (
                    address_of(nodes@[i]),
                    NodeCentrality { degree_centrality: degree(nodes@[i]) as u16 },
                ),
            is_matrix(
                metrics.adjacency_matrix@,
                nodes@.len() as int,
                |i: int, j: int| adjacency_entry(nodes@, i, j),
            ),
            is_matrix(
                metrics.laplacian_matrix@,
                nodes@.len() as int,
                |i: int, j: int| laplacian_entry(nodes@, i, j),
            ),
    {
        let node_count: usize = nodes.len();
        let connection_count: usize = total_connection_count(nodes);
        let density = network_density(nodes);
        let index = NodeIndex::new(nodes);
        let degrees = degree_matrix(&index, nodes);
        let adjacency = adjacency_matrix(&index, nodes);
        proof {
            assert forall|i: int, j: int|
                0 <= i < degrees@.len() && 0 <= j < degrees@.len() implies i64::MIN
                <= #[trigger] degrees@[i]@[j] - adjacency@[i]@[j] <= i64::MAX by {
                assert(degrees@[i]@[j] == degree_entry(nodes@, i, j));
                assert(adjacency@[i]@[j] == adjacency_entry(nodes@, i, j));
            }
        }
        let laplacian = laplacian_matrix(&degrees, &adjacency);
        proof {
            assert forall|i: int| 0 <= i < index@.len() implies 0
                <= #[trigger] degrees@[i]@[i] <= u16::MAX by {
                assert(degrees@[i]@[i] == degree_entry(nodes@, i, i));
            }
        }
        let by_degree = degree_centrality(&index, &degrees);
        let delta: u16 = degree_centrality_delta(nodes);
        let mut centrality: Vec<(PeerAddress, NodeCentrality)> = Vec::with_capacity(node_count);
        let mut i: usize = 0;
        while i < node_count
            invariant
                i <= node_count,
                node_count == nodes@.len(),
                by_degree@.len() == node_count,
                index@ == addresses_of_nodes(nodes@),
                forall|k: int|
                    0 <= k < node_count ==> #[trigger] by_degree@[k] == (
                        index@[k],
                        degrees@[k]@[k] as u16,
                    ),
                forall|k: int|
                    0 <= k < node_count ==> #[trigger] degrees@[k]@[k] == degree(nodes@[k]),
                centrality@.len() == i,
                forall|k: int|
                    0 <= k < i ==> #[trigger] centrality@[k] == (
                        address_of(nodes@[k]),
                        NodeCentrality { degree_centrality: degree(nodes@[k]) as u16 },
                    ),
            decreases node_count - i,
        {
            let (address, peers) = by_degree[i];
            proof {
                assert(by_degree@[i as int] == (index@[i as int], degrees@[i as int]@[i as int] as u16));
                assert(degrees@[i as int]@[i as int] == degree(nodes@[i as int]));
            }
            centrality.push((address, NodeCentrality::new(peers)));
            i += 1;
        }
        proof {
            assert forall|i: int, j: int|
                0 <= i < node_count && 0 <= j < node_count implies #[trigger] laplacian@[i]@[j]
                == laplacian_entry(nodes@, i, j) by {
                assert(degrees@[i]@[j] == degree_entry(nodes@, i, j));
                assert(adjacency@[i]@[j] == adjacency_entry(nodes@, i, j));
            }
        }
        NetworkMetrics {
            node_count,
            connection_count,
            density,
            degree_centrality_delta: delta,
            centrality,
            adjacency_matrix: adjacency,
            laplacian_matrix: laplacian,
        }
    }
}

} // verus!
