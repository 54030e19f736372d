//! A concrete typed graph held as explicit adjacency lists.
//!
//! The constructor validates every invariant the classifier relies on —
//! strictly ascending neighbour lists over valid node identifiers, no
//! self-loops, a symmetric edge relation, and dense labels — and refuses
//! malformed input, so that precondition violations surface at
//! construction time rather than as wrong counts.

use vstd::prelude::*;

use crate::graph::{strictly_sorted, Graph, TypedGraph};
use crate::utils::{lemma_sat_cap_add, sat_cap, sat_nat};

verus! {

/// The raw parts describe a well-formed typed graph: as many label
/// entries as nodes, at least two dense labels, every neighbour list
/// strictly ascending over valid non-self node identifiers, and every
/// edge present in both directions.
pub open spec fn adjacency_parts_valid(
    adjacency: Seq<Vec<usize>>,
    node_labels: Seq<usize>,
    number_of_node_labels: usize,
) -> bool {
    let n = adjacency.len();
    &&& node_labels.len() == n
    &&& number_of_node_labels >= 2
    &&& forall|v: int| 0 <= v < n ==> (#[trigger] node_labels[v]) < number_of_node_labels
    &&& forall|v: int| 0 <= v < n ==> strictly_sorted((#[trigger] adjacency[v])@)
    &&& forall|v: int, j: int|
        0 <= v < n && 0 <= j < adjacency[v]@.len() ==> ((#[trigger] adjacency[v]@[j]) < n
            && adjacency[v]@[j] != v && adjacency[adjacency[v]@[j] as int]@.contains(v as usize))
}

/// The number of directed adjacency entries in the first `k` lists.
pub open spec fn spec_entry_sum(adjacency: Seq<Vec<usize>>, k: int) -> nat
    decreases k,
{
    if k <= 0 {
        0
    } else {
        spec_entry_sum(adjacency, k - 1) + adjacency[k - 1]@.len()
    }
}

/// A simple undirected typed graph with explicit sorted adjacency lists.
pub struct AdjacencyGraph {
    /// Slot `v` holds the strictly ascending neighbour list of node `v`.
    pub adjacency: Vec<Vec<usize>>,
    /// Slot `v` holds the label of node `v`.
    pub node_labels: Vec<usize>,
    /// The number of distinct node labels.
    pub number_of_node_labels: usize,
}

impl AdjacencyGraph {
    /// Builds a graph from its parts, validating every structural
    /// invariant; returns `None` exactly when the parts are malformed.
    pub fn from_parts(
        adjacency: Vec<Vec<usize>>,
        node_labels: Vec<usize>,
        number_of_node_labels: usize,
    ) -> (r: Option<AdjacencyGraph>)
        ensures
            r is Some <==> adjacency_parts_valid(adjacency@, node_labels@, number_of_node_labels),
            r matches Some(g) ==> g.adjacency@ == adjacency@ && g.node_labels@ == node_labels@
                && g.number_of_node_labels == number_of_node_labels
                && crate::graph::typed_graph_wf(&g),
    {
        let n = adjacency.len();
        if node_labels.len() != n || number_of_node_labels < 2 {
            return None;
        }
        let mut v: usize = 0;
        while v < n
            invariant
                n == adjacency@.len(),
                node_labels@.len() == n,
                number_of_node_labels >= 2,
                v <= n,
                forall|u: int| 0 <= u < v ==> (#[trigger] node_labels@[u]) < number_of_node_labels,
                forall|u: int| 0 <= u < v ==> strictly_sorted((#[trigger] adjacency@[u])@),
                forall|u: int, j: int|
                    0 <= u < v && 0 <= j < adjacency@[u]@.len() ==> ((#[trigger] adjacency@[u]@[j])
                        < n && adjacency@[u]@[j] != u && adjacency@[adjacency@[u]@[j] as int]@.contains(
                        u as usize,
                    )),
            decreases n - v,
        {
            if node_labels[v] >= number_of_node_labels {
                return None;
            }
            let row = &adjacency[v];
            let mut j: usize = 0;
            while j < row.len()
                invariant
                    n == adjacency@.len(),
                    v < n,
                    row@ == adjacency@[v as int]@,
                    j <= row@.len(),
                    forall|a: int, b: int| 0 <= a < b < j ==> row@[a] < row@[b],
                    forall|a: int|
                        0 <= a < j ==> ((#[trigger] row@[a]) < n && row@[a] != v
                            && adjacency@[row@[a] as int]@.contains(v as usize)),
                decreases row@.len() - j,
            {
                let w = row[j];
                if w >= n || w == v {
                    return None;
                }
                if j > 0 && row[j - 1] >= w {
                    return None;
                }
                if !crate::neighbourhoods::linear_contains(&adjacency[w], v) {
                    proof {
                        assert(!adjacency_parts_valid(
                            adjacency@,
                            node_labels@,
                            number_of_node_labels,
                        )) by {
                            assert(adjacency@[v as int]@[j as int] == w);
                        }
                    }
                    return None;
                }
                proof {
                    assert forall|a: int, b: int| 0 <= a < b < j + 1 implies row@[a] < row@[b] by {
                        if b == j && a < j - 1 {
                            assert(row@[a] < row@[j - 1]);
                        }
                    }
                }
                j = j + 1;
            }
            v = v + 1;
        }
        let g = AdjacencyGraph { adjacency, node_labels, number_of_node_labels };
        proof {
            lemma_adjacency_graph_wf(&g);
        }
        Some(g)
    }
}

/// A validated adjacency graph satisfies the typed-graph invariants.
proof fn lemma_adjacency_graph_wf(g: &AdjacencyGraph)
    requires
        adjacency_parts_valid(g.adjacency@, g.node_labels@, g.number_of_node_labels),
    ensures
        crate::graph::typed_graph_wf(g),
{
    let n = g.adjacency@.len();
    vstd::std_specs::vec::axiom_spec_len(&g.adjacency);
    assert forall|v: int| 0 <= v < n implies !(#[trigger] g.spec_adjacency(v)).contains(
        v as usize,
    ) by {
        if g.spec_adjacency(v).contains(v as usize) {
            let j = choose|j: int|
                0 <= j < g.spec_adjacency(v).len() && g.spec_adjacency(v)[j] == v as usize;
            assert(g.adjacency@[v]@[j] != v);
        }
    }
    assert forall|u: int, w: int|
        0 <= u < n && 0 <= w < n && #[trigger] g.spec_adjacency(u).contains(w as usize)
        implies g.spec_adjacency(w).contains(u as usize) by {
        let j = choose|j: int|
            0 <= j < g.spec_adjacency(u).len() && g.spec_adjacency(u)[j] == w as usize;
        assert(g.adjacency@[u]@[j] == w as usize);
        assert(g.adjacency@[g.adjacency@[u]@[j] as int]@.contains(u as usize));
        assert(g.adjacency@[u]@[j] as int == w);
    }
}

impl Graph for AdjacencyGraph {
    open spec fn spec_node_count(&self) -> nat {
        self.adjacency@.len()
    }

    open spec fn spec_edge_count(&self) -> nat {
        sat_nat(spec_entry_sum(self.adjacency@, self.adjacency@.len() as int)) as nat
    }

    open spec fn spec_adjacency(&self, node: int) -> Seq<usize> {
        self.adjacency@[node]@
    }

    fn get_number_of_nodes(&self) -> (n: usize) {
        self.adjacency.len()
    }

    fn get_number_of_edges(&self) -> (n: usize) {
        let mut total: usize = 0;
        let mut v: usize = 0;
        while v < self.adjacency.len()
            invariant
                v <= self.adjacency@.len(),
                total == sat_nat(spec_entry_sum(self.adjacency@, v as int)),
            decreases self.adjacency@.len() - v,
        {
            proof {
                lemma_sat_cap_add(
                    spec_entry_sum(self.adjacency@, v as int) as int,
                    self.adjacency@[v as int]@.len() as int,
                );
            }
            total = total.saturating_add(self.adjacency[v].len());
            v = v + 1;
        }
        total
    }

    fn iter_neighbours(&self, node: usize) -> (v: Vec<usize>) {
        let row = &self.adjacency[node];
        let mut r: Vec<usize> = Vec::new();
        let mut j: usize = 0;
        while j < row.len()
            invariant
                row@ == self.adjacency@[node as int]@,
                j <= row@.len(),
                r@ == row@.take(j as int),
            decreases row@.len() - j,
        {
            r.push(row[j]);
            proof {
                assert(row@.take(j + 1) =~= row@.take(j as int).push(row@[j as int]));
            }
            j = j + 1;
        }
        proof {
            assert(row@.take(row@.len() as int) =~= row@);
        }
        r
    }
}

impl TypedGraph for AdjacencyGraph {
    open spec fn spec_label_count(&self) -> nat {
        self.number_of_node_labels as nat
    }

    open spec fn spec_label(&self, node: int) -> usize {
        if 0 <= node < self.node_labels@.len() {
            self.node_labels@[node]
        } else {
            0
        }
    }

    fn get_number_of_node_labels(&self) -> (l: usize) {
        self.number_of_node_labels
    }

    fn get_number_of_node_labels_usize(&self) -> (l: usize) {
        self.number_of_node_labels
    }

    fn get_number_of_node_label_from_usize(&self, label_index: usize) -> (l: usize) {
        label_index
    }

    fn get_number_of_node_label_index(&self, label: usize) -> (i: usize) {
        label
    }

    fn get_node_label(&self, node: usize) -> (l: usize) {
        if node < self.node_labels.len() {
            self.node_labels[node]
        } else {
            0
        }
    }
}

impl crate::edge_typed_graphlets::HeterogeneousGraphlets for AdjacencyGraph {
}

} // verus!
