use snarkos_network::address::PeerAddress;
use snarkos_network::environment::Environment;
use snarkos_network::metrics::{
    adjacency_matrix, calculate_density, degree_centrality, degree_centrality_delta,
    degree_matrix, laplacian_matrix, network_density, total_connection_count, Density,
    NetworkMetrics, NodeCentrality, NodeIndex,
};
use snarkos_network::node::Node;

fn address(i: usize) -> PeerAddress {
    PeerAddress::new_v4(10, 0, 0, (i + 1) as u8, 4131)
}

fn nodes(n: usize) -> Vec<Node> {
    (0..n)
        .map(|i| {
            Node::with_id(
                i as u64,
                Environment::new(Some(address(i)), vec![], 1, 50, false, 2),
            )
        })
        .collect()
}

fn link(nodes: &mut Vec<Node>, i: usize, j: usize) {
    nodes[i].set_connected_at(address(j), address(j), 1).unwrap();
    nodes[j].set_connected_at(address(i), address(i), 1).unwrap();
}

fn star_of(n: usize) -> Vec<Node> {
    let mut nodes = nodes(n);
    for i in 1..n {
        link(&mut nodes, 0, i);
    }
    nodes
}

fn as_fraction(density: Density) -> f64 {
    density.numerator as f64 / density.denominator as f64
}

#[test]
fn density_of_small_networks_is_zero() {
    assert_eq!(
        calculate_density(0, 0),
        Density { numerator: 0, denominator: 1 }
    );
    assert_eq!(
        calculate_density(1, 7),
        Density { numerator: 0, denominator: 1 }
    );
    assert_eq!(network_density(&nodes(1)).numerator, 0);
    assert_eq!(as_fraction(network_density(&nodes(0))), 0.0);
}

#[test]
fn density_is_links_over_possible_links() {
    assert_eq!(
        calculate_density(5, 4),
        Density { numerator: 8, denominator: 20 }
    );
    assert_eq!(
        calculate_density(2, 1),
        Density { numerator: 2, denominator: 2 }
    );
    let star = star_of(5);
    assert_eq!(total_connection_count(&star), 4);
    assert_eq!(as_fraction(network_density(&star)), 0.4);
    let mut mesh = nodes(4);
    for i in 0..4 {
        for j in i + 1..4 {
            link(&mut mesh, i, j);
        }
    }
    assert_eq!(total_connection_count(&mesh), 6);
    assert_eq!(as_fraction(network_density(&mesh)), 1.0);
    assert_eq!(as_fraction(network_density(&nodes(3))), 0.0);
}

#[test]
fn matrices_of_a_star() {
    let star = star_of(3);
    let index = NodeIndex::new(&star);
    assert_eq!(index.len(), 3);
    assert_eq!(index.address(2), address(2));
    assert_eq!(index.row(address(1)), Some(1));
    assert_eq!(index.row(address(9)), None);
    let degrees = degree_matrix(&index, &star);
    let adjacency = adjacency_matrix(&index, &star);
    assert_eq!(degrees, vec![vec![2, 0, 0], vec![0, 1, 0], vec![0, 0, 1]]);
    assert_eq!(adjacency, vec![vec![0, 1, 1], vec![1, 0, 0], vec![1, 0, 0]]);
    assert_eq!(
        laplacian_matrix(&degrees, &adjacency),
        vec![vec![2, -1, -1], vec![-1, 1, 0], vec![-1, 0, 1]]
    );
    assert_eq!(
        degree_centrality(&index, &degrees),
        vec![(address(0), 2), (address(1), 1), (address(2), 1)]
    );
}

#[test]
fn degree_delta_is_greatest_less_least() {
    assert_eq!(degree_centrality_delta(&star_of(5)), 3);
    assert_eq!(degree_centrality_delta(&nodes(4)), 0);
    assert_eq!(degree_centrality_delta(&nodes(1)), 0);
    let mut line = nodes(4);
    for i in 0..3 {
        link(&mut line, i, i + 1);
    }
    assert_eq!(degree_centrality_delta(&line), 1);
}

#[test]
fn network_metrics_of_a_star() {
    let star = star_of(5);
    let metrics = NetworkMetrics::new(&star);
    assert_eq!(metrics.node_count, 5);
    assert_eq!(metrics.connection_count, 4);
    assert_eq!(metrics.density, Density { numerator: 8, denominator: 20 });
    assert_eq!(metrics.degree_centrality_delta, 3);
    assert_eq!(metrics.centrality.len(), 5);
    assert_eq!(
        metrics.centrality[0],
        (address(0), NodeCentrality::new(4))
    );
    assert_eq!(
        metrics.centrality[4],
        (address(4), NodeCentrality { degree_centrality: 1 })
    );
    assert_eq!(metrics.adjacency_matrix[0], vec![0, 1, 1, 1, 1]);
    assert_eq!(metrics.laplacian_matrix[0], vec![4, -1, -1, -1, -1]);
    assert_eq!(metrics.laplacian_matrix[3], vec![-1, 0, 0, 1, 0]);
    for row in &metrics.laplacian_matrix {
        assert_eq!(row.iter().sum::<i64>(), 0);
    }
}

#[test]
fn links_are_counted_beyond_sixteen_bits() {
    let mut two = nodes(2);
    for node in two.iter_mut() {
        for i in 0..300u32 {
            for j in 0..110u32 {
                let peer = PeerAddress::new_v4(20, (i / 256) as u8, (i % 256) as u8, j as u8, 1);
                node.peer_book.set_connected_at(peer, None, 1);
            }
        }
        assert_eq!(node.peer_book.number_of_connected_peers(), 33_000);
    }
    assert_eq!(total_connection_count(&two), 33_000);
    assert_eq!(
        network_density(&two),
        Density { numerator: 66_000, denominator: 2 }
    );
    let metrics = NetworkMetrics::new(&two);
    assert_eq!(metrics.node_count, 2);
    assert_eq!(metrics.connection_count, 33_000);
    assert_eq!(metrics.degree_centrality_delta, 0);
    assert_eq!(metrics.centrality[1], (address(1), NodeCentrality::new(33_000)));
    assert_eq!(metrics.laplacian_matrix, vec![vec![33_000, 0], vec![0, 33_000]]);
}
