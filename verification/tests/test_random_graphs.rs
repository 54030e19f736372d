use heterogeneous_graphlets::edge_typed_graphlets::HeterogeneousGraphlets;
use heterogeneous_graphlets::graph::{Graph, TypedGraph};
use heterogeneous_graphlets::random_graph::RandomGraph;

#[test]
fn test_random_graph() {
    let graph = RandomGraph::new(42, 100, 5, 8);

    println!(
        "The graph has {} nodes, {} edges and {:?} labels.",
        graph.get_number_of_nodes(),
        graph.get_number_of_edges(),
        graph.get_number_of_node_labels()
    );

    for (src, dst) in graph.iter_edges() {
        let _graphlet_count = graph.get_heterogeneous_graphlet(src, dst);
    }
}

#[test]
fn test_random_graph_accessors() {
    let graph = RandomGraph::new(7, 30, 4, 3);
    let n = graph.get_number_of_nodes();
    assert_eq!(n, 30);
    let mut total_degree = 0;
    for node in 0..n {
        let neighbours = graph.iter_neighbours_from_node_id(node);
        assert_eq!(neighbours.len(), graph.get_node_degree(node));
        // adjacency is strictly ascending, excludes the node, stays in range
        for w in neighbours.windows(2) {
            assert!(w[0] < w[1]);
        }
        for v in neighbours.iter() {
            assert!(*v < n && *v != node);
        }
        total_degree += graph.get_node_degree(node);
    }
    // both directions of every edge are stored
    assert_eq!(total_degree, graph.get_number_of_edges());
    for (src, dst) in graph.iter_edges() {
        assert!(graph
            .iter_neighbours_from_node_id(dst)
            .contains(&src));
    }
}
