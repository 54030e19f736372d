//! The graph and typed-graph interfaces that the classifier consumes.
//!
//! A graph is a finite set of nodes `0 .. N` with an undirected edge
//! relation and no self-loops; every node's neighbour list is exposed in
//! strictly ascending order, a hard invariant the whole algorithm depends
//! on.  The typed extension associates one dense label in `0 .. L` with
//! every node.

use vstd::prelude::*;

verus! {

/// A sequence is strictly ascending: later entries are strictly larger.
pub open spec fn strictly_sorted(s: Seq<usize>) -> bool {
    forall|i: int, j: int| 0 <= i < j < s.len() ==> s[i] < s[j]
}

/// Abstract capability for a simple undirected graph with integer node
/// identifiers and sorted adjacency.
pub trait Graph: Sized {
    /// The number of nodes.
    spec fn spec_node_count(&self) -> nat;

    /// The number of edges reported by the graph.
    spec fn spec_edge_count(&self) -> nat;

    /// The neighbour list of a node, in the order the graph exposes it.
    spec fn spec_adjacency(&self, node: int) -> Seq<usize>;

    /// Returns the number of nodes in the graph.
    fn get_number_of_nodes(&self) -> (n: usize)
        ensures
            n == self.spec_node_count(),
    ;

    /// Returns the number of edges in the graph.
    fn get_number_of_edges(&self) -> (n: usize)
        ensures
            n == self.spec_edge_count(),
    ;

    /// Returns the neighbours of the given node, in ascending order.
    fn iter_neighbours(&self, node: usize) -> (v: Vec<usize>)
        requires
            node < self.spec_node_count(),
        ensures
            v@ == self.spec_adjacency(node as int),
    ;
}

/// The graph is well formed: every neighbour list is strictly ascending,
/// holds only valid node identifiers, never the node itself, and the edge
/// relation is symmetric.
pub open spec fn graph_wf<G: Graph>(g: &G) -> bool {
    &&& forall|v: int|
        0 <= v < g.spec_node_count() ==> strictly_sorted(#[trigger] g.spec_adjacency(v))
    &&& forall|v: int, j: int|
        0 <= v < g.spec_node_count() && 0 <= j < g.spec_adjacency(v).len() ==> (
        #[trigger] g.spec_adjacency(v)[j]) < g.spec_node_count()
    &&& forall|v: int|
        0 <= v < g.spec_node_count() ==> !(#[trigger] g.spec_adjacency(v)).contains(v as usize)
    &&& forall|u: int, w: int|
        0 <= u < g.spec_node_count() && 0 <= w < g.spec_node_count() && #[trigger] g.spec_adjacency(
            u,
        ).contains(w as usize) ==> g.spec_adjacency(w).contains(u as usize)
}

/// A graph whose nodes carry one label each from a dense domain `0 .. L`.
pub trait TypedGraph: Graph {
    /// The number of distinct node labels.
    spec fn spec_label_count(&self) -> nat;

    /// The label of a node.
    spec fn spec_label(&self, node: int) -> usize;

    /// Returns the number of node labels in the graph.
    fn get_number_of_node_labels(&self) -> (l: usize)
        ensures
            l == self.spec_label_count(),
    ;

    /// Returns the number of node labels in the graph as usize.
    fn get_number_of_node_labels_usize(&self) -> (l: usize)
        ensures
            l == self.spec_label_count(),
    ;

    /// Returns the node label corresponding to the provided label index;
    /// labels are dense integers, so this is the identity on `0 .. L`.
    fn get_number_of_node_label_from_usize(&self, label_index: usize) -> (l: usize)
        requires
            label_index < self.spec_label_count(),
        ensures
            l == label_index,
    ;

    /// Returns the label index corresponding to the provided node label;
    /// labels are dense integers, so this is the identity on `0 .. L`.
    fn get_number_of_node_label_index(&self, label: usize) -> (i: usize)
        requires
            label < self.spec_label_count(),
        ensures
            i == label,
    ;

    /// Returns the node label of the given node.
    fn get_node_label(&self, node: usize) -> (l: usize)
        requires
            node < self.spec_node_count(),
        ensures
            l == self.spec_label(node as int),
    ;
}

/// The typed graph is well formed: the underlying graph is, there are at
/// least two labels so the perfect hash has a usable radix, and every node
/// label lies in the dense domain.
pub open spec fn typed_graph_wf<G: TypedGraph>(g: &G) -> bool {
    &&& graph_wf(g)
    &&& g.spec_label_count() >= 2
    &&& forall|v: int|
        0 <= v < g.spec_node_count() ==> (#[trigger] g.spec_label(v)) < g.spec_label_count()
}

} // verus!
