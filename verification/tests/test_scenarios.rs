use heterogeneous_graphlets::adjacency_graph::AdjacencyGraph;
use heterogeneous_graphlets::edge_typed_graphlets::HeterogeneousGraphlets;
use heterogeneous_graphlets::graphlet_counter::GraphLetCounter;
use heterogeneous_graphlets::graphlet_set::ExtendedGraphletType;
use heterogeneous_graphlets::graphlet_set::GraphletSet;
use heterogeneous_graphlets::neighbourhoods::{
    get_intersection_size_of_label, get_subtraction_of_neighbours_of_label,
    iter_neighbours_of_label,
};
use heterogeneous_graphlets::perfect_graphlet_hash::PerfectGraphletHash;

/// Number of labels used by the scenario graphs: two, the smallest radix
/// the hash supports, with every node carrying label zero.
const L: usize = 2;

fn key(kind: ExtendedGraphletType, c: usize, d: usize) -> usize {
    (0usize, 0usize, c, d).encode_with_graphlet(kind, L)
}

fn single_label_graph(adjacency: Vec<Vec<usize>>) -> AdjacencyGraph {
    let n = adjacency.len();
    let labels = vec![0usize; n];
    AdjacencyGraph::from_parts(adjacency, labels, L).expect("scenario graph must be well formed")
}

/// A five-node path `0-1-2-3-4`, one label; classifying the middle edge
/// `(1, 2)` yields one triad on each side and nothing triangle-based.
#[test]
fn test_path_graph_scenario() {
    let graph = single_label_graph(vec![
        vec![1],
        vec![0, 2],
        vec![1, 3],
        vec![2, 4],
        vec![3],
    ]);
    let counter = graph.get_heterogeneous_graphlet(1, 2);
    // one triad for neighbour 0 and one for neighbour 3, sharing one key
    assert_eq!(counter.get_number_of_graphlets(key(ExtendedGraphletType::Triad, 0, L)), 2);
    assert_eq!(counter.get_number_of_graphlets(key(ExtendedGraphletType::Triangle, 0, L)), 0);
    assert_eq!(counter.get_number_of_graphlets(key(ExtendedGraphletType::FourClique, 0, 0)), 0);
    assert_eq!(counter.get_number_of_graphlets(key(ExtendedGraphletType::FourCycle, 0, 0)), 0);
    // node 4 extends the destination-side triad into a four-path
    assert_eq!(counter.get_number_of_graphlets(key(ExtendedGraphletType::FourPathEdge, 0, 0)), 1);
    // the edge itself is the center of the path 0-1-2-3
    assert_eq!(counter.get_number_of_graphlets(key(ExtendedGraphletType::FourPathCenter, 0, 0)), 1);
    assert_eq!(counter.get_number_of_graphlets(key(ExtendedGraphletType::FourStar, 0, 0)), 0);
    assert_eq!(counter.get_number_of_graphlets(key(ExtendedGraphletType::TailedTriTail, 0, 0)), 0);
}

/// A four-clique, one label; classifying edge `(0, 1)` yields one triangle
/// for each of the two other nodes and exactly one four-clique.
#[test]
fn test_four_clique_scenario() {
    let graph = single_label_graph(vec![
        vec![1, 2, 3],
        vec![0, 2, 3],
        vec![0, 1, 3],
        vec![0, 1, 2],
    ]);
    let counter = graph.get_heterogeneous_graphlet(0, 1);
    assert_eq!(counter.get_number_of_graphlets(key(ExtendedGraphletType::Triangle, 0, L)), 2);
    assert_eq!(counter.get_number_of_graphlets(key(ExtendedGraphletType::FourClique, 0, 0)), 1);
    assert_eq!(counter.get_number_of_graphlets(key(ExtendedGraphletType::Triad, 0, L)), 0);
    assert_eq!(counter.get_number_of_graphlets(key(ExtendedGraphletType::FourCycle, 0, 0)), 0);
    // C(2, 2) minus the one four-clique: no chordal-cycle center remains
    assert_eq!(
        counter.get_number_of_graphlets(key(ExtendedGraphletType::ChordalCycleCenter, 0, 0)),
        0
    );
    assert_eq!(counter.get_number_of_graphlets(key(ExtendedGraphletType::TailedTriEdge, 0, 0)), 0);
}

/// A four-cycle `0-1-2-3-0` without diagonals, one label; classifying edge
/// `(0, 1)` yields no triangles, exactly one four-cycle, and derived
/// counts matching direct computation on the same graph.
#[test]
fn test_four_cycle_scenario() {
    let graph = single_label_graph(vec![
        vec![1, 3],
        vec![0, 2],
        vec![1, 3],
        vec![0, 2],
    ]);
    let counter = graph.get_heterogeneous_graphlet(0, 1);
    assert_eq!(counter.get_number_of_graphlets(key(ExtendedGraphletType::Triangle, 0, L)), 0);
    assert_eq!(counter.get_number_of_graphlets(key(ExtendedGraphletType::FourClique, 0, 0)), 0);
    assert_eq!(counter.get_number_of_graphlets(key(ExtendedGraphletType::FourCycle, 0, 0)), 1);
    // brute force on this graph: src has one exclusive neighbour (3) and
    // dst one (2), and they are adjacent, so the only candidate four-path
    // through the edge closes the cycle instead
    assert_eq!(counter.get_number_of_graphlets(key(ExtendedGraphletType::FourPathCenter, 0, 0)), 0);
    // C(1, 2) + C(1, 2) = 0 four-star candidates on either side
    assert_eq!(counter.get_number_of_graphlets(key(ExtendedGraphletType::FourStar, 0, 0)), 0);
    assert_eq!(counter.get_number_of_graphlets(key(ExtendedGraphletType::Triad, 0, L)), 2);
}

/// Merging per-edge counters from any partition in any order equals the
/// single-threaded accumulation.
#[test]
fn test_merge_partitions_agree() {
    let graph = single_label_graph(vec![
        vec![1, 2, 3],
        vec![0, 2, 3],
        vec![0, 1, 3],
        vec![0, 1, 2],
    ]);
    let edges = vec![(0, 1), (0, 2), (0, 3), (1, 2), (1, 3), (2, 3)];

    let mut sequential = fresh_counter();
    for (src, dst) in edges.iter().copied() {
        sequential.merge(&graph.get_heterogeneous_graphlet(src, dst));
    }

    let mut left = fresh_counter();
    for (src, dst) in edges[0..3].iter().copied() {
        left.merge(&graph.get_heterogeneous_graphlet(src, dst));
    }
    let mut right = fresh_counter();
    for (src, dst) in edges[3..6].iter().copied() {
        right.merge(&graph.get_heterogeneous_graphlet(src, dst));
    }
    let mut reordered = fresh_counter();
    reordered.merge(&right);
    reordered.merge(&left);

    assert_eq!(
        sequential.iter_graphlets_and_counts(),
        reordered.iter_graphlets_and_counts()
    );
}

fn fresh_counter() -> heterogeneous_graphlets::graphlet_counter::DenseGraphletCounter {
    heterogeneous_graphlets::graphlet_counter::DenseGraphletCounter::with_number_of_elements(L)
}

/// The key name registry agrees with the categories the classifier uses.
#[test]
fn test_kind_names_and_indices() {
    assert_eq!(ExtendedGraphletType::Triad.index(), 0);
    assert_eq!(ExtendedGraphletType::FourClique.index(), 11);
    assert_eq!(ExtendedGraphletType::FourClique.name(), "FourClique");
    assert_eq!(ExtendedGraphletType::get_number_of_graphlets(), 12);
    assert!(matches!(
        ExtendedGraphletType::from_index(5),
        Some(ExtendedGraphletType::FourCycle)
    ));
    assert!(ExtendedGraphletType::from_index(12).is_none());
}

/// Cross-check against brute force: for every label, the recorded
/// triangle count equals the size of the label-restricted neighbourhood
/// intersection, the exclusive tallies equal the label-restricted
/// subtractions, and together they cover each endpoint's neighbours.
#[test]
fn test_cross_check_against_brute_force() {
    // a graph mixing triangles, tails and cycles, with two labels
    let adjacency = vec![
        vec![1, 2, 3],
        vec![0, 2],
        vec![0, 1, 4],
        vec![0, 4],
        vec![2, 3],
    ];
    let labels = vec![0usize, 1, 0, 1, 0];
    let graph = AdjacencyGraph::from_parts(adjacency, labels, 2).unwrap();
    let (src, dst) = (0, 2);
    let counter = graph.get_heterogeneous_graphlet(src, dst);
    for t in 0..2usize {
        let tri = get_intersection_size_of_label(&graph, src, dst, t);
        let s_excl = get_subtraction_of_neighbours_of_label(&graph, src, dst, t).len();
        let d_excl = get_subtraction_of_neighbours_of_label(&graph, dst, src, t).len();
        let st = 0usize;
        let dt = 0usize;
        let tri_key = (st, dt, t, 2usize).encode_with_graphlet(ExtendedGraphletType::Triangle, 2);
        let triad_key = (st, dt, t, 2usize).encode_with_graphlet(ExtendedGraphletType::Triad, 2);
        assert_eq!(counter.get_number_of_graphlets(tri_key), tri);
        assert_eq!(counter.get_number_of_graphlets(triad_key), s_excl + d_excl);
        // the parts cover each endpoint's label-t neighbourhood
        let src_total = iter_neighbours_of_label(&graph, src, t)
            .into_iter()
            .filter(|n| *n != dst)
            .count();
        let dst_total = iter_neighbours_of_label(&graph, dst, t)
            .into_iter()
            .filter(|n| *n != src)
            .count();
        assert_eq!(tri + s_excl, src_total);
        assert_eq!(tri + d_excl, dst_total);
    }
}

/// The report renders one line per non-zero key with the category name
/// and the count.
#[test]
fn test_get_report() {
    let graph = single_label_graph(vec![
        vec![1],
        vec![0, 2],
        vec![1, 3],
        vec![2, 4],
        vec![3],
    ]);
    let counter = graph.get_heterogeneous_graphlet(1, 2);
    let report = counter.get_report(L).unwrap();
    assert!(report.contains("Triad: 2\n"));
    assert!(report.contains("FourPathEdge: 1\n"));
    assert!(report.contains("FourPathCenter: 1\n"));
    assert!(!report.contains("Triangle"));
}

/// Malformed parts are rejected at construction: unsorted rows, self
/// loops, missing reverse edges, out-of-range neighbours and labels.
#[test]
fn test_from_parts_rejects_malformed_graphs() {
    // unsorted neighbour list
    assert!(AdjacencyGraph::from_parts(
        vec![vec![2, 1], vec![0, 2], vec![0, 1]],
        vec![0, 0, 0],
        2
    )
    .is_none());
    // self-loop
    assert!(AdjacencyGraph::from_parts(vec![vec![0, 1], vec![0]], vec![0, 0], 2).is_none());
    // edge missing its reverse direction
    assert!(AdjacencyGraph::from_parts(vec![vec![1], vec![]], vec![0, 0], 2).is_none());
    // neighbour outside the node range
    assert!(AdjacencyGraph::from_parts(vec![vec![5], vec![0]], vec![0, 0], 2).is_none());
    // label outside the dense domain
    assert!(AdjacencyGraph::from_parts(vec![vec![1], vec![0]], vec![0, 7], 2).is_none());
    // label count below the smallest radix
    assert!(AdjacencyGraph::from_parts(vec![vec![1], vec![0]], vec![0, 0], 1).is_none());
    // well-formed parts are accepted
    assert!(AdjacencyGraph::from_parts(vec![vec![1], vec![0]], vec![0, 1], 2).is_some());
}

/// A counter holding a key whose kind digit falls outside the enumeration
/// reports an error instead of panicking.
#[test]
fn test_get_report_rejects_unknown_kind() {
    let mut counter =
        heterogeneous_graphlets::graphlet_counter::DenseGraphletCounter::with_number_of_elements(L);
    // the maximal key itself carries the kind digit one past the enumeration
    let last = counter.counts.len() - 1;
    counter.counts[last] = 1;
    assert!(counter.get_report(L).is_err());
    // without the stray count the report renders fine
    counter.counts[last] = 0;
    assert!(counter.get_report(L).is_ok());
}
